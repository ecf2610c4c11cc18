use std::collections::HashSet;
use std::time::{Duration, SystemTime, UNIX_EPOCH};

use datalog::{
    constrained_rule, date, expressed_rule, fact, integer, pred, rule, string, var, Binary,
    Binding, Constraint, ConstraintKind, DateConstraint, Expression, Fact, IntConstraint, Op,
    StrConstraint, Symbol, SymbolTable, SymbolConstraint, Unary, World, ID,
};

fn owned(facts: &[&Fact]) -> HashSet<Fact> {
    facts.iter().map(|f| (*f).clone()).collect()
}

#[test]
fn family() {
    let mut w = World::new();
    let mut syms = SymbolTable::new();

    let a = syms.add("A");
    let b = syms.add("B");
    let c = syms.add("C");
    let d = syms.add("D");
    let e = syms.add("e");
    let parent = syms.insert("parent");
    let grandparent = syms.insert("grandparent");

    w.add_fact(fact(parent, vec![a.clone(), b.clone()]));
    w.add_fact(fact(parent, vec![b.clone(), c.clone()]));
    w.add_fact(fact(parent, vec![c.clone(), d.clone()]));

    let r1 = rule(
        grandparent,
        vec![var(&mut syms, "grandparent"), var(&mut syms, "grandchild")],
        vec![
            pred(
                parent,
                vec![var(&mut syms, "grandparent"), var(&mut syms, "parent")],
            ),
            pred(
                parent,
                vec![var(&mut syms, "parent"), var(&mut syms, "grandchild")],
            ),
        ],
    );

    let _query_rule_result = w.query_rule(r1);

    let r2 = rule(
        grandparent,
        vec![var(&mut syms, "grandparent"), var(&mut syms, "grandchild")],
        vec![
            pred(
                parent,
                vec![var(&mut syms, "grandparent"), var(&mut syms, "parent")],
            ),
            pred(
                parent,
                vec![var(&mut syms, "parent"), var(&mut syms, "grandchild")],
            ),
        ],
    );

    w.add_rule(r2);

    w.run().unwrap();

    let _res = w.query(pred(
        parent,
        vec![var(&mut syms, "parent"), var(&mut syms, "child")],
    ));
    let _res = w.query(pred(parent, vec![var(&mut syms, "parent"), b.clone()]));
    let _res = w.query(pred(
        grandparent,
        vec![
            var(&mut syms, "grandparent"),
            var(&mut syms, "grandchild"),
        ],
    ));
    w.add_fact(fact(parent, vec![c.clone(), e.clone()]));
    w.run().unwrap();
    let res = w.query(pred(
        grandparent,
        vec![
            var(&mut syms, "grandparent"),
            var(&mut syms, "grandchild"),
        ],
    ));

    let res = owned(&res);
    let compared = vec![
        fact(grandparent, vec![a.clone(), c.clone()]),
        fact(grandparent, vec![b.clone(), d.clone()]),
        fact(grandparent, vec![b.clone(), e.clone()]),
    ]
    .drain(..)
    .collect::<HashSet<_>>();
    assert_eq!(res, compared);
}

#[test]
fn numbers() {
    let mut w = World::new();
    let mut syms = SymbolTable::new();

    let abc = syms.add("abc");
    let def = syms.add("def");
    let ghi = syms.add("ghi");
    let jkl = syms.add("jkl");
    let mno = syms.add("mno");
    let aaa = syms.add("AAA");
    let bbb = syms.add("BBB");
    let ccc = syms.add("CCC");
    let t1 = syms.insert("t1");
    let t2 = syms.insert("t2");
    let join = syms.insert("join");

    w.add_fact(fact(t1, vec![integer(0), abc.clone()]));
    w.add_fact(fact(t1, vec![integer(1), def.clone()]));
    w.add_fact(fact(t1, vec![integer(2), ghi.clone()]));
    w.add_fact(fact(t1, vec![integer(3), jkl.clone()]));
    w.add_fact(fact(t1, vec![integer(4), mno.clone()]));

    w.add_fact(fact(t2, vec![integer(0), aaa.clone(), integer(0)]));
    w.add_fact(fact(t2, vec![integer(1), bbb.clone(), integer(0)]));
    w.add_fact(fact(t2, vec![integer(2), ccc.clone(), integer(1)]));

    let res = w.query_rule(rule(
        join,
        vec![var(&mut syms, "left"), var(&mut syms, "right")],
        vec![
            pred(t1, vec![var(&mut syms, "id"), var(&mut syms, "left")]),
            pred(
                t2,
                vec![
                    var(&mut syms, "t2_id"),
                    var(&mut syms, "right"),
                    var(&mut syms, "id"),
                ],
            ),
        ],
    ));

    let res2 = res.iter().cloned().collect::<HashSet<_>>();
    let compared = vec![
        fact(join, vec![abc.clone(), aaa.clone()]),
        fact(join, vec![abc.clone(), bbb.clone()]),
        fact(join, vec![def.clone(), ccc.clone()]),
    ]
    .drain(..)
    .collect::<HashSet<_>>();
    assert_eq!(res2, compared);

    // test constraints
    let res = w.query_rule(constrained_rule(
        join,
        vec![var(&mut syms, "left"), var(&mut syms, "right")],
        vec![
            pred(t1, vec![var(&mut syms, "id"), var(&mut syms, "left")]),
            pred(
                t2,
                vec![
                    var(&mut syms, "t2_id"),
                    var(&mut syms, "right"),
                    var(&mut syms, "id"),
                ],
            ),
        ],
        vec![Constraint {
            id: syms.insert("id") as u32,
            kind: ConstraintKind::Int(IntConstraint::LessThan(1)),
        }],
    ));

    let res2 = res.iter().cloned().collect::<HashSet<_>>();
    let compared = vec![
        fact(join, vec![abc.clone(), aaa.clone()]),
        fact(join, vec![abc.clone(), bbb.clone()]),
    ]
    .drain(..)
    .collect::<HashSet<_>>();
    assert_eq!(res2, compared);
}

fn test_suffix(
    w: &World,
    syms: &mut SymbolTable,
    suff: Symbol,
    route: Symbol,
    suffix: &str,
) -> Vec<Fact> {
    w.query_rule(constrained_rule(
        suff,
        vec![var(syms, "app_id"), var(syms, "domain_name")],
        vec![pred(
            route,
            vec![
                var(syms, "route_id"),
                var(syms, "app_id"),
                var(syms, "domain_name"),
            ],
        )],
        vec![Constraint {
            id: syms.insert("domain_name") as u32,
            kind: ConstraintKind::Str(StrConstraint::Suffix(suffix.to_string())),
        }],
    ))
}

#[test]
fn str() {
    let mut w = World::new();
    let mut syms = SymbolTable::new();

    let app_0 = syms.add("app_0");
    let app_1 = syms.add("app_1");
    let app_2 = syms.add("app_2");
    let route = syms.insert("route");
    let suff = syms.insert("route suffix");

    w.add_fact(fact(
        route,
        vec![integer(0), app_0.clone(), string("example.com")],
    ));
    w.add_fact(fact(
        route,
        vec![integer(1), app_1.clone(), string("test.com")],
    ));
    w.add_fact(fact(
        route,
        vec![integer(2), app_2.clone(), string("test.fr")],
    ));
    w.add_fact(fact(
        route,
        vec![integer(3), app_0.clone(), string("www.example.com")],
    ));
    w.add_fact(fact(
        route,
        vec![integer(4), app_1.clone(), string("mx.example.com")],
    ));

    let res = test_suffix(&w, &mut syms, suff, route, ".fr");

    let res2 = res.iter().cloned().collect::<HashSet<_>>();
    let compared = vec![fact(suff, vec![app_2.clone(), string("test.fr")])]
        .drain(..)
        .collect::<HashSet<_>>();
    assert_eq!(res2, compared);

    let res = test_suffix(&w, &mut syms, suff, route, "example.com");

    let res2 = res.iter().cloned().collect::<HashSet<_>>();
    let compared = vec![
        fact(suff, vec![app_0.clone(), string("example.com")]),
        fact(suff, vec![app_0.clone(), string("www.example.com")]),
        fact(suff, vec![app_1.clone(), string("mx.example.com")]),
    ]
    .drain(..)
    .collect::<HashSet<_>>();
    assert_eq!(res2, compared);
}

#[test]
fn date_constraint() {
    let mut w = World::new();
    let mut syms = SymbolTable::new();

    let t1 = SystemTime::now();
    let t2 = t1 + Duration::from_secs(10);
    let t3 = t2 + Duration::from_secs(30);

    let t1_timestamp = t1.duration_since(UNIX_EPOCH).unwrap().as_secs();
    let t2_timestamp = t2.duration_since(UNIX_EPOCH).unwrap().as_secs();
    let t3_timestamp = t3.duration_since(UNIX_EPOCH).unwrap().as_secs();

    let abc = syms.add("abc");
    let def = syms.add("def");
    let x = syms.insert("x");
    let before = syms.insert("before");
    let after = syms.insert("after");

    w.add_fact(fact(x, vec![date(t1_timestamp), abc.clone()]));
    w.add_fact(fact(x, vec![date(t3_timestamp), def.clone()]));

    let r1 = constrained_rule(
        before,
        vec![var(&mut syms, "date"), var(&mut syms, "val")],
        vec![pred(x, vec![var(&mut syms, "date"), var(&mut syms, "val")])],
        vec![
            Constraint {
                id: syms.insert("date") as u32,
                kind: ConstraintKind::Date(DateConstraint::Before(t2_timestamp)),
            },
            Constraint {
                id: syms.insert("date") as u32,
                kind: ConstraintKind::Date(DateConstraint::After(0)),
            },
        ],
    );

    let res = w.query_rule(r1);

    let res2 = res.iter().cloned().collect::<HashSet<_>>();
    let compared = vec![fact(before, vec![date(t1_timestamp), abc.clone()])]
        .drain(..)
        .collect::<HashSet<_>>();
    assert_eq!(res2, compared);

    let r2 = constrained_rule(
        after,
        vec![var(&mut syms, "date"), var(&mut syms, "val")],
        vec![pred(x, vec![var(&mut syms, "date"), var(&mut syms, "val")])],
        vec![
            Constraint {
                id: syms.insert("date") as u32,
                kind: ConstraintKind::Date(DateConstraint::After(t2_timestamp)),
            },
            Constraint {
                id: syms.insert("date") as u32,
                kind: ConstraintKind::Date(DateConstraint::After(0)),
            },
        ],
    );

    let res = w.query_rule(r2);

    let res2 = res.iter().cloned().collect::<HashSet<_>>();
    let compared = vec![fact(after, vec![date(t3_timestamp), def.clone()])]
        .drain(..)
        .collect::<HashSet<_>>();
    assert_eq!(res2, compared);
}

#[test]
fn set_constraint() {
    let mut w = World::new();
    let mut syms = SymbolTable::new();

    let abc = syms.add("abc");
    let def = syms.add("def");
    let x = syms.insert("x");
    let int_set = syms.insert("int_set");
    let symbol_set = syms.insert("symbol_set");
    let string_set = syms.insert("string_set");

    w.add_fact(fact(x, vec![abc.clone(), integer(0), string("test")]));
    w.add_fact(fact(x, vec![def.clone(), integer(2), string("hello")]));

    let res = w.query_rule(constrained_rule(
        int_set,
        vec![var(&mut syms, "sym"), var(&mut syms, "str")],
        vec![pred(
            x,
            vec![
                var(&mut syms, "sym"),
                var(&mut syms, "int"),
                var(&mut syms, "str"),
            ],
        )],
        vec![Constraint {
            id: syms.insert("int") as u32,
            kind: ConstraintKind::Int(IntConstraint::In(vec![0, 1])),
        }],
    ));

    let res2 = res.iter().cloned().collect::<HashSet<_>>();
    let compared = vec![fact(int_set, vec![abc.clone(), string("test")])]
        .drain(..)
        .collect::<HashSet<_>>();
    assert_eq!(res2, compared);

    let abc_sym_id = syms.insert("abc");
    let ghi_sym_id = syms.insert("ghi");

    let res = w.query_rule(constrained_rule(
        symbol_set,
        vec![
            var(&mut syms, "symbol"),
            var(&mut syms, "int"),
            var(&mut syms, "str"),
        ],
        vec![pred(
            x,
            vec![
                var(&mut syms, "symbol"),
                var(&mut syms, "int"),
                var(&mut syms, "str"),
            ],
        )],
        vec![Constraint {
            id: syms.insert("symbol") as u32,
            kind: ConstraintKind::Symbol(SymbolConstraint::NotIn(vec![abc_sym_id, ghi_sym_id])),
        }],
    ));

    let res2 = res.iter().cloned().collect::<HashSet<_>>();
    let compared = vec![fact(
        symbol_set,
        vec![def.clone(), integer(2), string("hello")],
    )]
    .drain(..)
    .collect::<HashSet<_>>();
    assert_eq!(res2, compared);

    let res = w.query_rule(constrained_rule(
        string_set,
        vec![
            var(&mut syms, "sym"),
            var(&mut syms, "int"),
            var(&mut syms, "str"),
        ],
        vec![pred(
            x,
            vec![
                var(&mut syms, "sym"),
                var(&mut syms, "int"),
                var(&mut syms, "str"),
            ],
        )],
        vec![Constraint {
            id: syms.insert("str") as u32,
            kind: ConstraintKind::Str(StrConstraint::In(vec![
                "test".to_string(),
                "aaa".to_string(),
            ])),
        }],
    ));

    let res2 = res.iter().cloned().collect::<HashSet<_>>();
    let compared = vec![fact(
        string_set,
        vec![abc.clone(), integer(0), string("test")],
    )]
    .drain(..)
    .collect::<HashSet<_>>();
    assert_eq!(res2, compared);
}

#[test]
fn resource() {
    let mut w = World::new();
    let mut syms = SymbolTable::new();

    let authority = syms.add("authority");
    let ambient = syms.add("ambient");
    let resource = syms.insert("resource");
    let operation = syms.insert("operation");
    let right = syms.insert("right");
    let file1 = syms.add("file1");
    let file2 = syms.add("file2");
    let read = syms.add("read");
    let write = syms.add("write");
    let caveat1 = syms.insert("caveat1");
    let caveat2 = syms.insert("caveat2");

    w.add_fact(fact(resource, vec![ambient.clone(), file2.clone()]));
    w.add_fact(fact(operation, vec![ambient.clone(), write.clone()]));
    w.add_fact(fact(
        right,
        vec![authority.clone(), file1.clone(), read.clone()],
    ));
    w.add_fact(fact(
        right,
        vec![authority.clone(), file2.clone(), read.clone()],
    ));
    w.add_fact(fact(
        right,
        vec![authority.clone(), file1.clone(), write.clone()],
    ));

    let res = w.query_rule(rule(
        caveat1,
        vec![file1.clone()],
        vec![pred(resource, vec![ambient.clone(), file1.clone()])],
    ));

    assert!(res.is_empty());

    let res = w.query_rule(rule(
        caveat2,
        vec![ID::Variable(0)],
        vec![
            pred(resource, vec![ambient.clone(), ID::Variable(0)]),
            pred(operation, vec![ambient.clone(), read.clone()]),
            pred(right, vec![authority.clone(), ID::Variable(0), read.clone()]),
        ],
    ));

    assert!(res.is_empty());
}

#[test]
fn int_expr() {
    let mut w = World::new();
    let mut syms = SymbolTable::new();

    let abc = syms.add("abc");
    let def = syms.add("def");
    let x = syms.insert("x");
    let less_than = syms.insert("less_than");

    w.add_fact(fact(x, vec![integer(-2), abc.clone()]));
    w.add_fact(fact(x, vec![integer(0), def.clone()]));

    let r1 = expressed_rule(
        less_than,
        vec![var(&mut syms, "nb"), var(&mut syms, "val")],
        vec![pred(x, vec![var(&mut syms, "nb"), var(&mut syms, "val")])],
        vec![Expression {
            ops: vec![
                Op::Value(ID::Integer(5)),
                Op::Value(ID::Integer(-4)),
                Op::Binary(Binary::Add),
                Op::Unary(Unary::Negate),
                Op::Value(var(&mut syms, "nb")),
                Op::Binary(Binary::LessThan),
            ],
        }],
    );

    let res = w.query_rule(r1);

    let res2 = res.iter().cloned().collect::<HashSet<_>>();
    let compared = vec![fact(less_than, vec![integer(0), def.clone()])]
        .drain(..)
        .collect::<HashSet<_>>();
    assert_eq!(res2, compared);
}

#[test]
fn negate() {
    let ops = vec![
        Op::Value(ID::Integer(1)),
        Op::Unary(Unary::Negate),
        Op::Value(ID::Variable(2)),
        Op::Binary(Binary::LessThan),
    ];

    let values = Binding {
        pairs: vec![(2, ID::Integer(0))],
    };

    let e = Expression { ops };

    let res = e.evaluate(&values);
    assert_eq!(res, Some(ID::Bool(true)));
}
