use std::collections::HashSet;

use datalog::{
    constrained_rule, date, expressed_rule, fact, integer, match_preds, pred, rule, string, var,
    Binary, Binding, BytesConstraint, Constraint, ConstraintKind, Expression, Fact,
    IntConstraint, MatchedVariables, Op, RunLimit, RunLimits, StrConstraint, SymbolTable, Unary,
    World, ID,
};

fn fact_set(facts: &[Fact]) -> HashSet<Fact> {
    facts.iter().cloned().collect()
}

/// Monotonicity: running the engine never removes a fact.
#[test]
fn run_keeps_existing_facts() {
    let mut w = World::new();
    let mut syms = SymbolTable::new();
    let a = syms.add("a");
    let b = syms.add("b");
    let edge = syms.insert("edge");
    let reach = syms.insert("reach");

    w.add_fact(fact(edge, vec![a.clone(), b.clone()]));
    w.add_rule(rule(
        reach,
        vec![var(&mut syms, "x"), var(&mut syms, "y")],
        vec![pred(edge, vec![var(&mut syms, "x"), var(&mut syms, "y")])],
    ));

    let before = w.query(pred(edge, vec![var(&mut syms, "x"), var(&mut syms, "y")]));
    let before: Vec<Fact> = before.iter().map(|f| (*f).clone()).collect();
    w.run().unwrap();
    let after = w.query(pred(edge, vec![var(&mut syms, "x"), var(&mut syms, "y")]));
    let after: Vec<Fact> = after.iter().map(|f| (*f).clone()).collect();
    assert_eq!(fact_set(&before), fact_set(&after));
    // and the derived fact is now present as well
    let derived = w.query(pred(reach, vec![var(&mut syms, "x"), var(&mut syms, "y")]));
    assert_eq!(derived.len(), 1);
}

/// Idempotence: a second run right after a successful run adds no
/// facts.
#[test]
fn second_run_adds_nothing() {
    let mut w = World::new();
    let mut syms = SymbolTable::new();
    let a = syms.add("a");
    let b = syms.add("b");
    let c = syms.add("c");
    let parent = syms.insert("parent");
    let ancestor = syms.insert("ancestor");

    w.add_fact(fact(parent, vec![a.clone(), b.clone()]));
    w.add_fact(fact(parent, vec![b.clone(), c.clone()]));
    w.add_rule(rule(
        ancestor,
        vec![var(&mut syms, "x"), var(&mut syms, "y")],
        vec![pred(parent, vec![var(&mut syms, "x"), var(&mut syms, "y")])],
    ));
    w.add_rule(rule(
        ancestor,
        vec![var(&mut syms, "x"), var(&mut syms, "z")],
        vec![
            pred(ancestor, vec![var(&mut syms, "x"), var(&mut syms, "y")]),
            pred(ancestor, vec![var(&mut syms, "y"), var(&mut syms, "z")]),
        ],
    ));

    w.run().unwrap();
    let len_after_first = w.facts.len();
    w.run().unwrap();
    assert_eq!(w.facts.len(), len_after_first);
}

/// Determinism: two worlds given the same facts and rules end with the
/// same fact set.
#[test]
fn equal_inputs_equal_outputs() {
    let mut results: Vec<HashSet<Fact>> = Vec::new();
    for _ in 0..2 {
        let mut w = World::new();
        let mut syms = SymbolTable::new();
        let a = syms.add("a");
        let b = syms.add("b");
        let c = syms.add("c");
        let edge = syms.insert("edge");
        let path = syms.insert("path");

        w.add_fact(fact(edge, vec![a.clone(), b.clone()]));
        w.add_fact(fact(edge, vec![b.clone(), c.clone()]));
        w.add_rule(rule(
            path,
            vec![var(&mut syms, "x"), var(&mut syms, "y")],
            vec![pred(edge, vec![var(&mut syms, "x"), var(&mut syms, "y")])],
        ));
        w.add_rule(rule(
            path,
            vec![var(&mut syms, "x"), var(&mut syms, "z")],
            vec![
                pred(path, vec![var(&mut syms, "x"), var(&mut syms, "y")]),
                pred(path, vec![var(&mut syms, "y"), var(&mut syms, "z")]),
            ],
        ));
        w.run().unwrap();
        results.push(w.facts.iter().cloned().collect());
    }
    assert_eq!(results[0], results[1]);
}

/// Query soundness: every returned fact matches the query predicate.
#[test]
fn query_returns_only_matches() {
    let mut w = World::new();
    let mut syms = SymbolTable::new();
    let a = syms.add("a");
    let b = syms.add("b");
    let p = syms.insert("p");
    let q = syms.insert("q");

    w.add_fact(fact(p, vec![a.clone(), integer(1)]));
    w.add_fact(fact(p, vec![b.clone(), integer(2)]));
    w.add_fact(fact(q, vec![a.clone(), integer(3)]));

    let query = pred(p, vec![var(&mut syms, "x"), var(&mut syms, "n")]);
    let res = w.query(query.clone());
    assert_eq!(res.len(), 2);
    for f in &res {
        assert!(match_preds(&f.predicate, &query));
        assert_eq!(f.predicate.name, p);
    }

    // a concrete slot must be equal
    let narrow = pred(p, vec![a.clone(), var(&mut syms, "n")]);
    let res = w.query(narrow);
    assert_eq!(res.len(), 1);
    assert_eq!(res[0].predicate.ids[1], integer(1));
}

/// Constraint soundness: no emitted fact carries a value that violates
/// an applicable constraint.
#[test]
fn constraints_prune_bindings() {
    let mut w = World::new();
    let mut syms = SymbolTable::new();
    let x = syms.insert("x");
    let small = syms.insert("small");
    for i in 0..10 {
        w.add_fact(fact(x, vec![integer(i)]));
    }
    let n = var(&mut syms, "n");
    let res = w.query_rule(constrained_rule(
        small,
        vec![n.clone()],
        vec![pred(x, vec![n.clone()])],
        vec![Constraint {
            id: syms.insert("n") as u32,
            kind: ConstraintKind::Int(IntConstraint::LessOrEqual(3)),
        }],
    ));
    assert_eq!(res.len(), 4);
    for f in &res {
        match &f.predicate.ids[0] {
            ID::Integer(i) => assert!(*i <= 3),
            other => panic!("unexpected value {:?}", other),
        }
    }
}

/// Expression soundness: only bindings whose expressions all yield
/// true produce facts.
#[test]
fn expressions_filter_bindings() {
    let mut w = World::new();
    let mut syms = SymbolTable::new();
    let x = syms.insert("x");
    let chosen = syms.insert("chosen");
    w.add_fact(fact(x, vec![integer(5)]));
    w.add_fact(fact(x, vec![integer(15)]));
    let n = var(&mut syms, "n");
    // 10 < n && n < 20
    let res = w.query_rule(expressed_rule(
        chosen,
        vec![n.clone()],
        vec![pred(x, vec![n.clone()])],
        vec![
            Expression {
                ops: vec![
                    Op::Value(ID::Integer(10)),
                    Op::Value(n.clone()),
                    Op::Binary(Binary::LessThan),
                ],
            },
            Expression {
                ops: vec![
                    Op::Value(n.clone()),
                    Op::Value(ID::Integer(20)),
                    Op::Binary(Binary::LessThan),
                ],
            },
        ],
    ));
    assert_eq!(res.len(), 1);
    assert_eq!(res[0].predicate.ids[0], integer(15));
}

/// Limit honesty: a run that stops on `TooManyFacts` has at least that
/// many facts; a successful run under the cap stays under it.
#[test]
fn too_many_facts_limit() {
    let mut w = World::new();
    let mut syms = SymbolTable::new();
    let a = syms.add("a");
    let b = syms.add("b");
    let c = syms.add("c");
    let edge = syms.insert("edge");
    let path = syms.insert("path");

    w.add_fact(fact(edge, vec![a.clone(), b.clone()]));
    w.add_fact(fact(edge, vec![b.clone(), c.clone()]));
    w.add_rule(rule(
        path,
        vec![var(&mut syms, "x"), var(&mut syms, "y")],
        vec![pred(edge, vec![var(&mut syms, "x"), var(&mut syms, "y")])],
    ));

    let limits = RunLimits {
        max_facts: 3,
        max_iterations: 100,
        max_time_millis: 10_000,
    };
    let res = w.run_with_limits(limits);
    assert_eq!(res, Err(RunLimit::TooManyFacts));
    assert!(w.facts.len() >= 3);

    // the same derivation under a roomier cap succeeds and stays under it
    let mut w2 = World::new();
    w2.add_fact(fact(edge, vec![a.clone(), b.clone()]));
    w2.add_fact(fact(edge, vec![b.clone(), c.clone()]));
    w2.add_rule(rule(
        path,
        vec![var(&mut syms, "x"), var(&mut syms, "y")],
        vec![pred(edge, vec![var(&mut syms, "x"), var(&mut syms, "y")])],
    ));
    let limits = RunLimits {
        max_facts: 100,
        max_iterations: 100,
        max_time_millis: 10_000,
    };
    w2.run_with_limits(limits).unwrap();
    assert!(w2.facts.len() <= 100);
    assert_eq!(w2.facts.len(), 4);
}

/// A run that exhausts its pass budget reports `TooManyIterations`.
#[test]
fn too_many_iterations_limit() {
    let mut w = World::new();
    let mut syms = SymbolTable::new();
    let x = syms.insert("x");
    let y = syms.insert("y");
    let z = syms.insert("z");
    let k = var(&mut syms, "k");

    // the chain x ==> y ==> z needs two passes; allow only one
    w.add_fact(fact(x, vec![integer(0)]));
    w.add_rule(rule(y, vec![k.clone()], vec![pred(x, vec![k.clone()])]));
    w.add_rule(rule(z, vec![k.clone()], vec![pred(y, vec![k.clone()])]));
    let limits = RunLimits {
        max_facts: 1000,
        max_iterations: 1,
        max_time_millis: 10_000,
    };
    let res = w.run_with_limits(limits);
    assert_eq!(res, Err(RunLimit::TooManyIterations));
}

/// A zero deadline times a growing run out.
#[test]
fn timeout_limit() {
    let mut w = World::new();
    let mut syms = SymbolTable::new();
    let x = syms.insert("x");
    let y = syms.insert("y");
    let k = var(&mut syms, "k");

    w.add_fact(fact(x, vec![integer(0)]));
    w.add_rule(rule(y, vec![k.clone()], vec![pred(x, vec![k.clone()])]));
    let limits = RunLimits {
        max_facts: 1000,
        max_iterations: 100,
        max_time_millis: 0,
    };
    let res = w.run_with_limits(limits);
    assert_eq!(res, Err(RunLimit::Timeout));
}

/// A world already at a fixed point runs successfully and unchanged.
#[test]
fn saturated_world_runs_ok() {
    let mut w = World::new();
    let mut syms = SymbolTable::new();
    let p = syms.insert("p");
    let a = syms.add("a");
    w.add_fact(fact(p, vec![a.clone()]));
    // no rules: already saturated
    w.run().unwrap();
    assert_eq!(w.facts.len(), 1);
}

/// Regex constraints match per the pattern; an invalid pattern never
/// matches.
#[test]
fn regex_constraint() {
    let c = Constraint {
        id: 0,
        kind: ConstraintKind::Str(StrConstraint::Regex("^ab+c$".to_string())),
    };
    assert!(c.check(0, &string("abbbc")));
    assert!(!c.check(0, &string("ac")));
    assert!(!c.check(0, &string("zabc")));
    // a constraint for another variable passes trivially
    assert!(c.check(1, &string("zzz")));
    // an unparseable pattern never matches
    let broken = Constraint {
        id: 0,
        kind: ConstraintKind::Str(StrConstraint::Regex("(".to_string())),
    };
    assert!(!broken.check(0, &string("anything")));
}

/// String prefix/equality constraints and type mismatches.
#[test]
fn string_constraints() {
    let c = Constraint {
        id: 0,
        kind: ConstraintKind::Str(StrConstraint::Prefix("app".to_string())),
    };
    assert!(c.check(0, &string("apple")));
    assert!(!c.check(0, &string("pple")));
    // a type mismatch fails the constraint
    assert!(!c.check(0, &integer(42)));

    let e = Constraint {
        id: 0,
        kind: ConstraintKind::Str(StrConstraint::Equal("x".to_string())),
    };
    assert!(e.check(0, &string("x")));
    assert!(!e.check(0, &string("y")));
}

/// Byte-vector constraints compare by content.
#[test]
fn bytes_constraints() {
    let c = Constraint {
        id: 0,
        kind: ConstraintKind::Bytes(BytesConstraint::Equal(vec![1, 2, 3])),
    };
    assert!(c.check(0, &ID::Bytes(vec![1, 2, 3])));
    assert!(!c.check(0, &ID::Bytes(vec![1, 2])));

    let m = Constraint {
        id: 0,
        kind: ConstraintKind::Bytes(BytesConstraint::In(vec![vec![7], vec![8, 9]])),
    };
    assert!(m.check(0, &ID::Bytes(vec![8, 9])));
    assert!(!m.check(0, &ID::Bytes(vec![9, 8])));
}

/// Integer addition in expressions wraps in two's complement.
#[test]
fn expression_add_wraps() {
    let e = Expression {
        ops: vec![
            Op::Value(ID::Integer(i64::MAX)),
            Op::Value(ID::Integer(1)),
            Op::Binary(Binary::Add),
        ],
    };
    let empty = Binding { pairs: vec![] };
    assert_eq!(e.evaluate(&empty), Some(ID::Integer(i64::MIN)));

    let n = Expression {
        ops: vec![Op::Value(ID::Integer(i64::MIN)), Op::Unary(Unary::Negate)],
    };
    assert_eq!(n.evaluate(&empty), Some(ID::Integer(i64::MIN)));
}

/// Malformed expressions fail without producing a value.
#[test]
fn expression_failures() {
    let empty = Binding { pairs: vec![] };
    // stack underflow
    let e = Expression {
        ops: vec![Op::Value(ID::Integer(1)), Op::Binary(Binary::Add)],
    };
    assert_eq!(e.evaluate(&empty), None);
    // leftover residue
    let e = Expression {
        ops: vec![Op::Value(ID::Integer(1)), Op::Value(ID::Integer(2))],
    };
    assert_eq!(e.evaluate(&empty), None);
    // type mismatch
    let e = Expression {
        ops: vec![
            Op::Value(ID::Bool(true)),
            Op::Value(ID::Integer(2)),
            Op::Binary(Binary::And),
        ],
    };
    assert_eq!(e.evaluate(&empty), None);
    // unbound variable
    let e = Expression {
        ops: vec![Op::Value(ID::Variable(7))],
    };
    assert_eq!(e.evaluate(&empty), None);
    // empty expression leaves nothing on the stack
    let e = Expression { ops: vec![] };
    assert_eq!(e.evaluate(&empty), None);
}

/// Binding insertion: set once, rebind equal, conflict, unknown key.
#[test]
fn matched_variables_insert() {
    let mut mv = MatchedVariables::new(vec![1, 2, 1]);
    assert!(!mv.is_complete());
    assert!(mv.insert(1, &integer(10)));
    // rebinding the same value succeeds
    assert!(mv.insert(1, &integer(10)));
    // a conflicting value fails
    assert!(!mv.insert(1, &integer(11)));
    // an unknown key fails
    assert!(!mv.insert(3, &integer(1)));
    assert!(!mv.is_complete());
    assert!(mv.insert(2, &string("v")));
    assert!(mv.is_complete());
    let binding = mv.complete().unwrap();
    assert_eq!(binding.get(1), Some(&integer(10)));
    assert_eq!(binding.get(2), Some(&string("v")));
    assert_eq!(binding.get(3), None);
}

/// Predicate matching: names, arity, wildcards, payload equality.
#[test]
fn match_preds_cases() {
    let p1 = pred(1, vec![integer(1), string("a")]);
    let p2 = pred(1, vec![ID::Variable(0), string("a")]);
    let p3 = pred(1, vec![integer(1)]);
    let p4 = pred(2, vec![integer(1), string("a")]);
    let p5 = pred(1, vec![integer(1), string("b")]);
    assert!(match_preds(&p1, &p2));
    assert!(match_preds(&p2, &p1));
    assert!(match_preds(&p1, &p1));
    assert!(!match_preds(&p1, &p3), "arity differs");
    assert!(!match_preds(&p1, &p4), "name differs");
    assert!(!match_preds(&p1, &p5), "payload differs");
    // dates and booleans compare by payload
    let d1 = pred(3, vec![date(100), ID::Bool(true)]);
    let d2 = pred(3, vec![date(100), ID::Bool(true)]);
    let d3 = pred(3, vec![date(101), ID::Bool(true)]);
    assert!(match_preds(&d1, &d2));
    assert!(!match_preds(&d1, &d3));
}

/// A head variable that the body does not bind produces no fact.
#[test]
fn unbound_head_variable_emits_nothing() {
    let mut w = World::new();
    let mut syms = SymbolTable::new();
    let x = syms.insert("x");
    let out = syms.insert("out");
    let a = syms.add("a");
    w.add_fact(fact(x, vec![a.clone()]));
    let bound = var(&mut syms, "bound");
    // head uses a variable id that never occurs in the body
    let res = w.query_rule(rule(
        out,
        vec![ID::Variable(999)],
        vec![pred(x, vec![bound.clone()])],
    ));
    assert!(res.is_empty());
}

/// A rule with an empty body and a ground head emits that head.
#[test]
fn empty_body_emits_ground_head() {
    let mut w = World::new();
    let mut syms = SymbolTable::new();
    let marker = syms.insert("marker");
    let a = syms.add("a");
    let res = w.query_rule(rule(marker, vec![a.clone()], vec![]));
    assert_eq!(res, vec![fact(marker, vec![a.clone()])]);
}

/// Adding the same fact twice stores it once.
#[test]
fn duplicate_facts_are_stored_once() {
    let mut w = World::new();
    let mut syms = SymbolTable::new();
    let p = syms.insert("p");
    let a = syms.add("a");
    w.add_fact(fact(p, vec![a.clone()]));
    w.add_fact(fact(p, vec![a.clone()]));
    assert_eq!(w.facts.len(), 1);
}

/// The symbol table interns each distinct name once.
#[test]
fn symbol_table_interning() {
    let mut syms = SymbolTable::new();
    let a = syms.insert("alpha");
    let b = syms.insert("beta");
    let a2 = syms.insert("alpha");
    assert_eq!(a, 0);
    assert_eq!(b, 1);
    assert_eq!(a, a2);
    assert_eq!(syms.symbols.len(), 2);
    assert_eq!(syms.add("beta"), ID::Symbol(1));
    assert_eq!(var(&mut syms, "beta"), ID::Variable(1));
}

/// The value builders produce the tagged values they name.
#[test]
fn value_builders() {
    assert_eq!(integer(-7), ID::Integer(-7));
    assert_eq!(string("hi"), ID::Str("hi".to_string()));
    assert_eq!(date(1_700_000_000), ID::Date(1_700_000_000));
}
