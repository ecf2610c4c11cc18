//! Rules and the join over the fact set.
//!
//! A [`Rule`] is a head predicate, a body of predicates, and two
//! filter layers: per-variable [`Constraint`]s checked as candidate
//! values are bound, and [`Expression`]s checked once a binding is
//! complete. The join enumerates, depth first and left to right over
//! the body, every assignment of body variables to fact values that
//! matches each body predicate against some stored fact and survives
//! both filters; [`combine_spec`] is its defining equation. Applying a
//! rule substitutes each emitted binding into the head; a binding that
//! leaves a head variable unbound produces no fact.

use vstd::prelude::*;

use crate::constraint::{Constraint, ConstraintV, check_spec};
use crate::expression::{Expression, ExpressionV, expr_true};
use crate::matching::{
    Binding, MatchedVariables, env_get, env_ground, mv_complete, mv_env, mv_get, mv_index,
    mv_init, mv_insert,
};
use crate::predicate::{
    Fact, Predicate, PredicateV, clone_ids, ground_pred, match_preds, match_spec, pred, views_of,
};
use crate::value::{ID, IdV, Symbol, ground};

verus! {

/// A Horn-clause-style implication: body conjunction, constraints and
/// expressions imply the head.
#[derive(Debug)]
pub struct Rule {
    pub head: Predicate,
    pub body: Vec<Predicate>,
    pub constraints: Vec<Constraint>,
    pub expressions: Vec<Expression>,
}

/// Mathematical view of a [`Rule`].
pub struct RuleV {
    pub head: PredicateV,
    pub body: Seq<PredicateV>,
    pub constraints: Seq<ConstraintV>,
    pub expressions: Seq<ExpressionV>,
}

/// The views of a sequence of predicates.
pub open spec fn preds_of(s: Seq<Predicate>) -> Seq<PredicateV> {
    s.map_values(|p: Predicate| p@)
}

/// The views of a sequence of facts.
pub open spec fn facts_of(s: Seq<Fact>) -> Seq<PredicateV> {
    s.map_values(|f: Fact| f@)
}

/// The views of a sequence of constraints.
pub open spec fn constraints_of(s: Seq<Constraint>) -> Seq<ConstraintV> {
    s.map_values(|c: Constraint| c@)
}

/// The views of a sequence of expressions.
pub open spec fn exprs_of(s: Seq<Expression>) -> Seq<ExpressionV> {
    s.map_values(|e: Expression| e@)
}

/// The views of a sequence of bindings.
pub open spec fn envs_of(s: Seq<Binding>) -> Seq<Seq<(u32, IdV)>> {
    s.map_values(|b: Binding| b@)
}

impl View for Rule {
    type V = RuleV;

    open spec fn view(&self) -> RuleV {
        RuleV {
            head: self.head@,
            body: preds_of(self.body@),
            constraints: constraints_of(self.constraints@),
            expressions: exprs_of(self.expressions@),
        }
    }
}

/// Every fact in the sequence is ground.
pub open spec fn facts_ground(facts: Seq<PredicateV>) -> bool {
    forall|i: int| 0 <= i < facts.len() ==> ground_pred(#[trigger] facts[i])
}

/// The value passes every constraint that targets the variable.
pub open spec fn constraints_pass(cs: Seq<ConstraintV>, k: u32, v: IdV) -> bool {
    forall|i: int| 0 <= i < cs.len() ==> check_spec(#[trigger] cs[i], k, v)
}

/// Every expression evaluates to the boolean true under the binding.
pub open spec fn exprs_true(es: Seq<ExpressionV>, env: Seq<(u32, IdV)>) -> bool {
    forall|i: int| 0 <= i < es.len() ==> expr_true(#[trigger] es[i], env)
}

/// Folds one body predicate's argument patterns over one fact's
/// argument values: each variable pattern must pass every constraint
/// and bind consistently; a constant pattern binds nothing.
pub open spec fn unify_args(
    vars: Seq<(u32, Option<IdV>)>,
    pids: Seq<IdV>,
    fids: Seq<IdV>,
    cs: Seq<ConstraintV>,
) -> Option<Seq<(u32, Option<IdV>)>>
    decreases pids.len(),
{
    if pids.len() == 0 {
        Some(vars)
    } else {
        match pids[0] {
            IdV::Variable(k) => if !constraints_pass(cs, k, fids[0]) {
                None
            } else {
                match mv_insert(vars, k, fids[0]) {
                    Some(v2) => unify_args(v2, pids.drop_first(), fids.drop_first(), cs),
                    None => None,
                }
            },
            _ => unify_args(vars, pids.drop_first(), fids.drop_first(), cs),
        }
    }
}

/// Matches one body predicate against one fact: a compatibility test
/// per [`match_spec`], then the argument fold.
pub open spec fn fact_match(
    vars: Seq<(u32, Option<IdV>)>,
    p: PredicateV,
    f: PredicateV,
    cs: Seq<ConstraintV>,
) -> Option<Seq<(u32, Option<IdV>)>> {
    if match_spec(f, p) {
        unify_args(vars, p.ids, f.ids, cs)
    } else {
        None
    }
}

/// The bindings the join emits, depth first and left to right: with an
/// empty body a complete assignment that satisfies every expression
/// yields its environment; otherwise each fact from index `fidx` on is
/// matched against the first body predicate and the rest of the body
/// is joined under the extended assignment.
pub open spec fn combine_spec(
    vars: Seq<(u32, Option<IdV>)>,
    body: Seq<PredicateV>,
    cs: Seq<ConstraintV>,
    es: Seq<ExpressionV>,
    facts: Seq<PredicateV>,
    fidx: int,
) -> Seq<Seq<(u32, IdV)>>
    decreases body.len(), facts.len() - fidx,
{
    if body.len() == 0 {
        if mv_complete(vars) && exprs_true(es, mv_env(vars)) {
            seq![mv_env(vars)]
        } else {
            Seq::empty()
        }
    } else if fidx < 0 || fidx >= facts.len() {
        Seq::empty()
    } else {
        let sub = match fact_match(vars, body[0], facts[fidx], cs) {
            Some(v2) => combine_spec(v2, body.drop_first(), cs, es, facts, 0),
            None => Seq::empty(),
        };
        sub + combine_spec(vars, body, cs, es, facts, fidx + 1)
    }
}

/// The variable ids occurring in one predicate's arguments, in order.
pub open spec fn pred_vars(ids: Seq<IdV>) -> Seq<u32>
    decreases ids.len(),
{
    if ids.len() == 0 {
        Seq::empty()
    } else {
        pred_vars(ids.drop_last()) + (match ids.last() {
            IdV::Variable(k) => seq![k],
            _ => Seq::empty(),
        })
    }
}

/// The variable ids occurring in a rule body, in order of occurrence.
pub open spec fn body_vars(body: Seq<PredicateV>) -> Seq<u32>
    decreases body.len(),
{
    if body.len() == 0 {
        Seq::empty()
    } else {
        body_vars(body.drop_last()) + pred_vars(body.last().ids)
    }
}

/// Whether every head variable is bound by the environment.
pub open spec fn head_ok(head: PredicateV, env: Seq<(u32, IdV)>) -> bool {
    forall|j: int|
        0 <= j < head.ids.len() ==> ((#[trigger] head.ids[j]) matches IdV::Variable(k)
            ==> env_get(env, k) is Some)
}

/// The head with each bound variable replaced by its value.
pub open spec fn subst_head(head: PredicateV, env: Seq<(u32, IdV)>) -> PredicateV {
    PredicateV {
        name: head.name,
        ids: Seq::new(
            head.ids.len(),
            |j: int|
                match head.ids[j] {
                    IdV::Variable(k) => match env_get(env, k) {
                        Some(v) => v,
                        None => head.ids[j],
                    },
                    _ => head.ids[j],
                },
        ),
    }
}

/// The facts one rule head produces from a sequence of environments; a
/// binding that leaves a head variable unbound produces no fact.
pub open spec fn emit_facts(head: PredicateV, envs: Seq<Seq<(u32, IdV)>>) -> Seq<PredicateV>
    decreases envs.len(),
{
    if envs.len() == 0 {
        Seq::empty()
    } else {
        emit_facts(head, envs.drop_last()) + (if head_ok(head, envs.last()) {
            seq![subst_head(head, envs.last())]
        } else {
            Seq::empty()
        })
    }
}

/// The environments one rule's join emits against a fact sequence,
/// starting from its body variables all unbound.
pub open spec fn rule_envs(r: RuleV, facts: Seq<PredicateV>) -> Seq<Seq<(u32, IdV)>> {
    combine_spec(mv_init(body_vars(r.body)), r.body, r.constraints, r.expressions, facts, 0)
}

/// The facts one rule produces against a fact sequence.
pub open spec fn apply_spec(r: RuleV, facts: Seq<PredicateV>) -> Seq<PredicateV> {
    emit_facts(r.head, rule_envs(r, facts))
}

/// Tests every expression against the environment; stops at the first
/// failure.
fn eval_expressions(expressions: &Vec<Expression>, env: &Binding) -> (r: bool)
    ensures
        r == exprs_true(exprs_of(expressions@), env@),
{
    let mut i: usize = 0;
    while i < expressions.len()
        invariant
            i <= expressions.len(),
            forall|j: int| 0 <= j < i ==> expr_true(#[trigger] exprs_of(expressions@)[j], env@),
        decreases expressions.len() - i,
    {
        proof {
            assert(exprs_of(expressions@)[i as int] == expressions@[i as int]@);
        }
        let res = expressions[i].evaluate(env);
        let good = match res {
            Some(ID::Bool(true)) => true,
            _ => false,
        };
        if !good {
            return false;
        }
        i = i + 1;
    }
    true
}

/// Tests a candidate value for variable `k` against every constraint;
/// stops at the first failure. The value must be ground.
fn eval_constraints(constraints: &Vec<Constraint>, k: u32, value: &ID) -> (r: bool)
    requires
        !(value@ is Variable),
    ensures
        r == constraints_pass(constraints_of(constraints@), k, value@),
{
    let mut i: usize = 0;
    while i < constraints.len()
        invariant
            i <= constraints.len(),
            !(value@ is Variable),
            forall|j: int|
                0 <= j < i ==> check_spec(#[trigger] constraints_of(constraints@)[j], k, value@),
        decreases constraints.len() - i,
    {
        proof {
            assert(constraints_of(constraints@)[i as int] == constraints@[i as int]@);
        }
        if !constraints[i].check(k, value) {
            return false;
        }
        i = i + 1;
    }
    true
}

/// The depth-first join from body position `pos` on, appending every
/// emitted binding to `out` in order, per [`combine_spec`].
fn combine_at(
    vars: &MatchedVariables,
    body: &Vec<Predicate>,
    pos: usize,
    constraints: &Vec<Constraint>,
    expressions: &Vec<Expression>,
    facts: &Vec<Fact>,
    out: &mut Vec<Binding>,
)
    requires
        pos <= body@.len(),
        facts_ground(facts_of(facts@)),
    ensures
        envs_of(final(out)@) == envs_of(old(out)@) + combine_spec(
            vars@,
            preds_of(body@).skip(pos as int),
            constraints_of(constraints@),
            exprs_of(expressions@),
            facts_of(facts@),
            0,
        ),
    decreases body@.len() - pos,
{
    let ghost bodyv = preds_of(body@).skip(pos as int);
    let ghost csv = constraints_of(constraints@);
    let ghost esv = exprs_of(expressions@);
    let ghost factsv = facts_of(facts@);
    if pos == body.len() {
        proof {
            assert(bodyv.len() == 0);
        }
        match vars.complete() {
            None => {
                proof {
                    assert(envs_of(out@) =~= envs_of(out@) + combine_spec(
                        vars@,
                        bodyv,
                        csv,
                        esv,
                        factsv,
                        0,
                    ));
                }
            },
            Some(env) => {
                if eval_expressions(expressions, &env) {
                    let ghost pre = out@;
                    out.push(env);
                    proof {
                        assert(envs_of(out@) =~= envs_of(pre) + combine_spec(
                            vars@,
                            bodyv,
                            csv,
                            esv,
                            factsv,
                            0,
                        ));
                    }
                } else {
                    proof {
                        assert(!exprs_true(esv, mv_env(vars@)));
                        assert(envs_of(out@) =~= envs_of(out@) + combine_spec(
                            vars@,
                            bodyv,
                            csv,
                            esv,
                            factsv,
                            0,
                        ));
                    }
                }
            },
        }
        return ;
    }
    let ghost out0 = out@;
    let mut fi: usize = 0;
    while fi < facts.len()
        invariant
            pos < body@.len(),
            fi <= facts.len(),
            facts_ground(factsv),
            bodyv == preds_of(body@).skip(pos as int),
            csv == constraints_of(constraints@),
            esv == exprs_of(expressions@),
            factsv == facts_of(facts@),
            bodyv.len() > 0,
            envs_of(out0) + combine_spec(vars@, bodyv, csv, esv, factsv, 0) == envs_of(out@)
                + combine_spec(vars@, bodyv, csv, esv, factsv, fi as int),
        decreases facts.len() - fi,
    {
        let ghost out_pre = out@;
        proof {
            assert(bodyv[0] == preds_of(body@)[pos as int]);
            assert(preds_of(body@)[pos as int] == body@[pos as int]@);
            assert(factsv[fi as int] == facts@[fi as int]@);
            assert(ground_pred(factsv[fi as int]));
        }
        if match_preds(&facts[fi].predicate, &body[pos]) {
            let mut ok = true;
            let mut vars2 = vars.clone();
            let n_args = body[pos].ids.len();
            proof {
                assert(match_spec(factsv[fi as int], bodyv[0]));
                assert(factsv[fi as int].ids.len() == n_args);
            }
            let ghost pids = bodyv[0].ids;
            let ghost fids = factsv[fi as int].ids;
            proof {
                assert(pids.skip(0) =~= pids);
                assert(fids.skip(0) =~= fids);
            }
            let mut j: usize = 0;
            while j < n_args
                invariant
                    j <= n_args,
                    n_args == body@[pos as int]@.ids.len(),
                    pos < body@.len(),
                    fi < facts@.len(),
                    pids == body@[pos as int]@.ids,
                    fids == facts@[fi as int]@.ids,
                    pids.len() == n_args,
                    fids.len() == n_args,
                    csv == constraints_of(constraints@),
                    facts_ground(factsv),
                    factsv == facts_of(facts@),
                    factsv[fi as int] == facts@[fi as int]@,
                    ok ==> unify_args(vars@, pids, fids, csv) == unify_args(
                        vars2@,
                        pids.skip(j as int),
                        fids.skip(j as int),
                        csv,
                    ),
                    !ok ==> unify_args(vars@, pids, fids, csv) is None,
                decreases n_args - j,
            {
                if ok {
                    let ghost prest = pids.skip(j as int);
                    let ghost frest = fids.skip(j as int);
                    proof {
                        assert(prest[0] == pids[j as int]);
                        assert(frest[0] == fids[j as int]);
                        assert(prest.drop_first() =~= pids.skip(j as int + 1));
                        assert(frest.drop_first() =~= fids.skip(j as int + 1));
                        assert(pids[j as int] == body@[pos as int].ids@[j as int]@);
                        assert(fids[j as int] == facts@[fi as int].predicate.ids@[j as int]@);
                        assert(ground_pred(factsv[fi as int]));
                        assert(ground(fids[j as int]));
                    }
                    match &body[pos].ids[j] {
                        ID::Variable(k) => {
                            let value = &facts[fi].predicate.ids[j];
                            if !eval_constraints(constraints, *k, value) {
                                ok = false;
                            } else {
                                if !vars2.insert(*k, value) {
                                    ok = false;
                                }
                            }
                        },
                        _ => {},
                    }
                }
                j = j + 1;
            }
            proof {
                assert(pids.skip(n_args as int) =~= Seq::<IdV>::empty());
                assert(fids.skip(n_args as int) =~= Seq::<IdV>::empty());
            }
            if ok {
                proof {
                    assert(pos < body.len());
                    assert(unify_args(vars@, pids, fids, csv) == Some(vars2@));
                    assert(fact_match(vars@, bodyv[0], factsv[fi as int], csv) == Some(vars2@));
                    assert(bodyv.drop_first() =~= preds_of(body@).skip(pos as int + 1));
                }
                combine_at(&vars2, body, pos + 1, constraints, expressions, facts, out);
                proof {
                    assert(envs_of(out@) == envs_of(out_pre) + combine_spec(
                        vars2@,
                        bodyv.drop_first(),
                        csv,
                        esv,
                        factsv,
                        0,
                    ));
                }
            } else {
                proof {
                    assert(fact_match(vars@, bodyv[0], factsv[fi as int], csv) is None);
                }
            }
        } else {
            proof {
                assert(fact_match(vars@, bodyv[0], factsv[fi as int], csv) is None);
            }
        }
        fi = fi + 1;
    }
    proof {
        assert(combine_spec(vars@, bodyv, csv, esv, factsv, facts@.len() as int)
            =~= Seq::<Seq<(u32, IdV)>>::empty());
        assert(envs_of(out@) =~= envs_of(out0) + combine_spec(vars@, bodyv, csv, esv, factsv, 0));
    }
}

/// The variable occurrences of a rule body, in order, as a vector.
fn collect_body_vars(body: &Vec<Predicate>) -> (r: Vec<u32>)
    ensures
        r@ == body_vars(preds_of(body@)),
{
    let mut out: Vec<u32> = Vec::new();
    let mut i: usize = 0;
    while i < body.len()
        invariant
            i <= body.len(),
            out@ == body_vars(preds_of(body@).take(i as int)),
        decreases body.len() - i,
    {
        let ghost upto = preds_of(body@).take(i as int + 1);
        proof {
            assert(upto.drop_last() =~= preds_of(body@).take(i as int));
            assert(upto.last() == body@[i as int]@);
        }
        let n_args = body[i].ids.len();
        let mut j: usize = 0;
        while j < n_args
            invariant
                j <= n_args,
                i < body.len(),
                n_args == body@[i as int]@.ids.len(),
                out@ == body_vars(preds_of(body@).take(i as int)) + pred_vars(
                    body@[i as int]@.ids.take(j as int),
                ),
            decreases n_args - j,
        {
            let ghost idsj = body@[i as int]@.ids.take(j as int + 1);
            proof {
                assert(idsj.drop_last() =~= body@[i as int]@.ids.take(j as int));
                assert(idsj.last() == body@[i as int]@.ids[j as int]);
                assert(body@[i as int]@.ids[j as int] == body@[i as int].ids@[j as int]@);
            }
            match &body[i].ids[j] {
                ID::Variable(k) => {
                    out.push(*k);
                    proof {
                        assert(out@ =~= body_vars(preds_of(body@).take(i as int)) + pred_vars(
                            idsj,
                        ));
                    }
                },
                _ => {
                    proof {
                        assert(out@ =~= body_vars(preds_of(body@).take(i as int)) + pred_vars(
                            idsj,
                        ));
                    }
                },
            }
            j = j + 1;
        }
        proof {
            assert(body@[i as int]@.ids.take(n_args as int) =~= body@[i as int]@.ids);
        }
        i = i + 1;
    }
    proof {
        assert(preds_of(body@).take(body@.len() as int) =~= preds_of(body@));
    }
    out
}

impl Rule {
    /// Applies the rule to the fact set, appending every produced fact
    /// to `new_facts` in join order, per [`apply_spec`]. Duplicates are
    /// the caller's concern.
    pub fn apply(&self, facts: &Vec<Fact>, new_facts: &mut Vec<Fact>)
        requires
            facts_ground(facts_of(facts@)),
        ensures
            facts_of(final(new_facts)@) == facts_of(old(new_facts)@) + apply_spec(
                self@,
                facts_of(facts@),
            ),
    {
        let keys = collect_body_vars(&self.body);
        let variables = MatchedVariables::new(keys);
        let mut bindings: Vec<Binding> = Vec::new();
        proof {
            assert(envs_of(bindings@) =~= Seq::<Seq<(u32, IdV)>>::empty());
            assert(preds_of(self.body@).skip(0) =~= preds_of(self.body@));
        }
        combine_at(&variables, &self.body, 0, &self.constraints, &self.expressions, facts,
            &mut bindings);
        proof {
            assert(envs_of(bindings@) == rule_envs(self@, facts_of(facts@)));
        }
        let ghost start = new_facts@;
        let mut bi: usize = 0;
        while bi < bindings.len()
            invariant
                bi <= bindings.len(),
                envs_of(bindings@) == rule_envs(self@, facts_of(facts@)),
                facts_of(new_facts@) == facts_of(start) + emit_facts(
                    self@.head,
                    envs_of(bindings@).take(bi as int),
                ),
                self@.head == self.head@,
            decreases bindings.len() - bi,
        {
            let ghost envs_upto = envs_of(bindings@).take(bi as int + 1);
            let ghost envv = envs_of(bindings@)[bi as int];
            proof {
                assert(envs_upto.drop_last() =~= envs_of(bindings@).take(bi as int));
                assert(envs_upto.last() == envv);
                assert(envv == bindings@[bi as int]@);
            }
            let ghost pre = new_facts@;
            let binding = &bindings[bi];
            let mut ids2 = clone_ids(&self.head.ids);
            let n = self.head.ids.len();
            let mut ok = true;
            let mut j: usize = 0;
            while j < n
                invariant
                    j <= n,
                    n == self.head@.ids.len(),
                    ids2@.len() == n,
                    envv == binding@,
                    ok ==> forall|t: int|
                        0 <= t < j ==> (#[trigger] ids2@[t])@ == subst_head(
                            self.head@,
                            envv,
                        ).ids[t],
                    ok ==> forall|t: int|
                        j <= t < n ==> (#[trigger] ids2@[t])@ == self.head@.ids[t],
                    ok ==> forall|t: int|
                        0 <= t < j ==> ((#[trigger] self.head@.ids[t]) matches IdV::Variable(k)
                            ==> env_get(envv, k) is Some),
                    !ok ==> !head_ok(self.head@, envv),
                decreases n - j,
            {
                if ok {
                    proof {
                        assert(self.head@.ids[j as int] == self.head.ids@[j as int]@);
                    }
                    match &self.head.ids[j] {
                        ID::Variable(k) => match binding.get(*k) {
                            Some(v) => {
                                ids2.set(j, v.clone());
                            },
                            None => {
                                ok = false;
                            },
                        },
                        _ => {},
                    }
                }
                j = j + 1;
            }
            if ok {
                new_facts.push(Fact { predicate: Predicate { name: self.head.name, ids: ids2 } });
                proof {
                    assert(head_ok(self.head@, envv));
                    assert(views_of(ids2@) =~= subst_head(self.head@, envv).ids);
                    assert(facts_of(new_facts@) =~= facts_of(pre) + (if head_ok(
                        self.head@,
                        envv,
                    ) {
                        seq![subst_head(self.head@, envv)]
                    } else {
                        Seq::<PredicateV>::empty()
                    }));
                }
            } else {
                proof {
                    assert(facts_of(new_facts@) =~= facts_of(pre) + (if head_ok(
                        self.head@,
                        envv,
                    ) {
                        seq![subst_head(self.head@, envv)]
                    } else {
                        Seq::<PredicateV>::empty()
                    }));
                }
            }
            bi = bi + 1;
        }
        proof {
            assert(envs_of(bindings@).take(bindings@.len() as int) =~= envs_of(bindings@));
        }
    }
}

/// A caveat: authorization proceeds only when at least one of its
/// queries yields a binding.
#[derive(Debug)]
pub struct Caveat {
    pub queries: Vec<Rule>,
}

/// The join as a stepping enumerator: the bindings of one rule body
/// against a fact set, handed out one at a time in join order.
pub struct CombineIt {
    pub bindings: Vec<Binding>,
    pub pos: usize,
}

impl CombineIt {
    /// The bindings not yet handed out.
    pub open spec fn remaining(&self) -> Seq<Seq<(u32, IdV)>> {
        if self.pos <= self.bindings@.len() {
            envs_of(self.bindings@).skip(self.pos as int)
        } else {
            Seq::empty()
        }
    }

    /// Builds the enumerator: its bindings are exactly the join of the
    /// body against the facts, starting from the given assignment.
    pub fn new(
        variables: MatchedVariables,
        predicates: &Vec<Predicate>,
        constraints: &Vec<Constraint>,
        expressions: &Vec<Expression>,
        facts: &Vec<Fact>,
    ) -> (r: CombineIt)
        requires
            facts_ground(facts_of(facts@)),
        ensures
            r.remaining() == combine_spec(
                variables@,
                preds_of(predicates@),
                constraints_of(constraints@),
                exprs_of(expressions@),
                facts_of(facts@),
                0,
            ),
    {
        let mut bindings: Vec<Binding> = Vec::new();
        proof {
            assert(envs_of(bindings@) =~= Seq::<Seq<(u32, IdV)>>::empty());
            assert(preds_of(predicates@).skip(0) =~= preds_of(predicates@));
        }
        combine_at(&variables, predicates, 0, constraints, expressions, facts, &mut bindings);
        let r = CombineIt { bindings, pos: 0 };
        proof {
            assert(r.remaining() =~= envs_of(r.bindings@));
        }
        r
    }

    /// Hands out the next binding, or `None` when the enumeration is
    /// done.
    pub fn next(&mut self) -> (r: Option<Binding>)
        ensures
            match r {
                Some(b) => old(self).remaining().len() > 0 && b@ == old(self).remaining()[0]
                    && final(self).remaining() == old(self).remaining().drop_first(),
                None => old(self).remaining().len() == 0 && final(self).remaining() == old(
                    self,
                ).remaining(),
            },
    {
        if self.pos < self.bindings.len() {
            let b = self.bindings[self.pos].clone();
            let ghost before = self.remaining();
            self.pos = self.pos + 1;
            proof {
                assert(b@ == envs_of(self.bindings@)[old(self).pos as int]);
                assert(before[0] == envs_of(self.bindings@)[old(self).pos as int]);
                assert(final(self).remaining() =~= before.drop_first());
            }
            Some(b)
        } else {
            None
        }
    }
}

/// Every value set in the assignment is ground and passes every
/// constraint targeting its variable.
pub open spec fn mv_sound(vars: Seq<(u32, Option<IdV>)>, cs: Seq<ConstraintV>) -> bool {
    forall|i: int|
        0 <= i < vars.len() ==> ((#[trigger] vars[i]).1 matches Some(v) ==> ground(v)
            && constraints_pass(cs, vars[i].0, v))
}

/// Every value of the environment is ground and passes every
/// constraint targeting its variable.
pub open spec fn env_meets(env: Seq<(u32, IdV)>, cs: Seq<ConstraintV>) -> bool {
    forall|i: int|
        0 <= i < env.len() ==> ground((#[trigger] env[i]).1) && constraints_pass(
            cs,
            env[i].0,
            env[i].1,
        )
}

/// Binding a ground, constraint-passing value preserves soundness of
/// the assignment.
proof fn lemma_mv_insert_sound(
    vars: Seq<(u32, Option<IdV>)>,
    cs: Seq<ConstraintV>,
    k: u32,
    v: IdV,
)
    requires
        mv_sound(vars, cs),
        ground(v),
        constraints_pass(cs, k, v),
        mv_insert(vars, k, v) is Some,
    ensures
        mv_sound(mv_insert(vars, k, v).unwrap(), cs),
{
    match mv_get(vars, k) {
        Some(None) => {
            crate::matching::lemma_mv_index_bounds(vars, k);
            let idx = mv_index(vars, k);
            let m2 = vars.update(idx, (k, Some(v)));
            assert forall|i: int|
                0 <= i < m2.len() implies ((#[trigger] m2[i]).1 matches Some(w) ==> ground(w)
                && constraints_pass(cs, m2[i].0, w)) by {
                if i != idx {
                    assert(m2[i] == vars[i]);
                }
            }
        },
        _ => {},
    }
}

/// The argument fold preserves soundness: it only binds fact values,
/// which are ground, after checking every constraint.
proof fn lemma_unify_sound(
    vars: Seq<(u32, Option<IdV>)>,
    pids: Seq<IdV>,
    fids: Seq<IdV>,
    cs: Seq<ConstraintV>,
)
    requires
        mv_sound(vars, cs),
        forall|i: int| 0 <= i < fids.len() ==> ground(#[trigger] fids[i]),
        pids.len() <= fids.len(),
    ensures
        unify_args(vars, pids, fids, cs) matches Some(v2) ==> mv_sound(v2, cs),
    decreases pids.len(),
{
    if pids.len() > 0 {
        assert(forall|i: int|
            0 <= i < fids.drop_first().len() ==> (#[trigger] fids.drop_first()[i]) == fids[i
                + 1]);
        match pids[0] {
            IdV::Variable(k) => {
                if constraints_pass(cs, k, fids[0]) {
                    match mv_insert(vars, k, fids[0]) {
                        Some(v2) => {
                            lemma_mv_insert_sound(vars, cs, k, fids[0]);
                            lemma_unify_sound(v2, pids.drop_first(), fids.drop_first(), cs);
                        },
                        None => {},
                    }
                }
            },
            _ => {
                lemma_unify_sound(vars, pids.drop_first(), fids.drop_first(), cs);
            },
        }
    }
}

/// Soundness of the join: every emitted environment consists of
/// ground, constraint-passing values and satisfies every expression.
proof fn lemma_combine_sound(
    vars: Seq<(u32, Option<IdV>)>,
    body: Seq<PredicateV>,
    cs: Seq<ConstraintV>,
    es: Seq<ExpressionV>,
    facts: Seq<PredicateV>,
    fidx: int,
)
    requires
        mv_sound(vars, cs),
        facts_ground(facts),
    ensures
        forall|e: Seq<(u32, IdV)>|
            #[trigger] combine_spec(vars, body, cs, es, facts, fidx).contains(e) ==> env_meets(
                e,
                cs,
            ) && exprs_true(es, e),
    decreases body.len(), facts.len() - fidx,
{
    let emitted = combine_spec(vars, body, cs, es, facts, fidx);
    if body.len() == 0 {
        if mv_complete(vars) && exprs_true(es, mv_env(vars)) {
            let e = mv_env(vars);
            assert forall|i: int|
                0 <= i < e.len() implies ground((#[trigger] e[i]).1) && constraints_pass(
                cs,
                e[i].0,
                e[i].1,
            ) by {
                assert(e[i] == (vars[i].0, vars[i].1.unwrap()));
                assert(vars[i].1 is Some);
            }
            assert forall|x: Seq<(u32, IdV)>| #[trigger] emitted.contains(x) implies env_meets(
                x,
                cs,
            ) && exprs_true(es, x) by {
                assert(x == e);
            }
        }
    } else if fidx < 0 || fidx >= facts.len() {
    } else {
        let sub = match fact_match(vars, body[0], facts[fidx], cs) {
            Some(v2) => combine_spec(v2, body.drop_first(), cs, es, facts, 0),
            None => Seq::empty(),
        };
        let rest = combine_spec(vars, body, cs, es, facts, fidx + 1);
        match fact_match(vars, body[0], facts[fidx], cs) {
            Some(v2) => {
                assert(ground_pred(facts[fidx]));
                assert(match_spec(facts[fidx], body[0]));
                lemma_unify_sound(vars, body[0].ids, facts[fidx].ids, cs);
                lemma_combine_sound(v2, body.drop_first(), cs, es, facts, 0);
            },
            None => {},
        }
        lemma_combine_sound(vars, body, cs, es, facts, fidx + 1);
        assert forall|e: Seq<(u32, IdV)>| #[trigger] emitted.contains(e) implies env_meets(e, cs)
            && exprs_true(es, e) by {
            let i = choose|i: int| 0 <= i < emitted.len() && emitted[i] == e;
            if i < sub.len() {
                assert(sub[i] == e);
                assert(sub.contains(e));
            } else {
                assert(rest[i - sub.len()] == e);
                assert(rest.contains(e));
            }
        }
    }
}

/// The initial assignment of a rule's body variables is trivially
/// sound: nothing is bound yet.
proof fn lemma_init_sound(keys: Seq<u32>, cs: Seq<ConstraintV>)
    ensures
        mv_sound(mv_init(keys), cs),
{
    crate::matching::lemma_mv_init_unbound(keys);
}

/// Constraint soundness: in every binding the join emits for a rule,
/// each bound value is ground and passes each of the rule's
/// constraints for the variable it is bound to.
pub proof fn lemma_constraint_soundness(
    r: RuleV,
    facts: Seq<PredicateV>,
    env: Seq<(u32, IdV)>,
    i: int,
    j: int,
)
    requires
        facts_ground(facts),
        rule_envs(r, facts).contains(env),
        0 <= i < env.len(),
        0 <= j < r.constraints.len(),
    ensures
        check_spec(r.constraints[j], env[i].0, env[i].1),
        ground(env[i].1),
{
    lemma_init_sound(body_vars(r.body), r.constraints);
    lemma_combine_sound(
        mv_init(body_vars(r.body)),
        r.body,
        r.constraints,
        r.expressions,
        facts,
        0,
    );
}

/// Expression soundness: every binding the join emits for a rule makes
/// each of the rule's expressions evaluate to the boolean true.
pub proof fn lemma_expression_soundness(
    r: RuleV,
    facts: Seq<PredicateV>,
    env: Seq<(u32, IdV)>,
    j: int,
)
    requires
        facts_ground(facts),
        rule_envs(r, facts).contains(env),
        0 <= j < r.expressions.len(),
    ensures
        expr_true(r.expressions[j], env),
{
    lemma_init_sound(body_vars(r.body), r.constraints);
    lemma_combine_sound(
        mv_init(body_vars(r.body)),
        r.body,
        r.constraints,
        r.expressions,
        facts,
        0,
    );
}

/// Facts substituted from a ground environment are ground.
proof fn lemma_emit_ground(head: PredicateV, envs: Seq<Seq<(u32, IdV)>>)
    requires
        forall|i: int| 0 <= i < envs.len() ==> env_ground(#[trigger] envs[i]),
    ensures
        facts_ground(emit_facts(head, envs)),
    decreases envs.len(),
{
    if envs.len() > 0 {
        lemma_emit_ground(head, envs.drop_last());
        let prev = emit_facts(head, envs.drop_last());
        let whole = emit_facts(head, envs);
        if head_ok(head, envs.last()) {
            let f = subst_head(head, envs.last());
            assert forall|j: int| 0 <= j < f.ids.len() implies ground(#[trigger] f.ids[j]) by {
                match head.ids[j] {
                    IdV::Variable(k) => {
                        assert(env_get(envs.last(), k) is Some);
                        crate::matching::lemma_env_get_ground(envs.last(), k);
                    },
                    _ => {},
                }
            }
            assert forall|i: int| 0 <= i < whole.len() implies ground_pred(
                #[trigger] whole[i],
            ) by {
                if i < prev.len() {
                    assert(whole[i] == prev[i]);
                } else {
                    assert(whole[i] == f);
                }
            }
        } else {
            assert(whole =~= prev);
        }
    }
}

/// Applying a rule to ground facts produces ground facts.
pub proof fn lemma_apply_ground(r: RuleV, facts: Seq<PredicateV>)
    requires
        facts_ground(facts),
    ensures
        facts_ground(apply_spec(r, facts)),
{
    lemma_init_sound(body_vars(r.body), r.constraints);
    lemma_combine_sound(
        mv_init(body_vars(r.body)),
        r.body,
        r.constraints,
        r.expressions,
        facts,
        0,
    );
    let envs = rule_envs(r, facts);
    assert forall|i: int| 0 <= i < envs.len() implies env_ground(#[trigger] envs[i]) by {
        assert(envs.contains(envs[i]));
        assert(env_meets(envs[i], r.constraints));
        assert forall|t: int| 0 <= t < envs[i].len() implies ground(
            (#[trigger] envs[i][t]).1,
        ) by {}
    }
    lemma_emit_ground(r.head, envs);
}

/// Builds a rule with neither constraints nor expressions.
pub fn rule(head_name: Symbol, head_ids: Vec<ID>, predicates: Vec<Predicate>) -> (r: Rule)
    ensures
        r@ == (RuleV {
            head: PredicateV { name: head_name, ids: views_of(head_ids@) },
            body: preds_of(predicates@),
            constraints: Seq::empty(),
            expressions: Seq::empty(),
        }),
{
    let r = Rule {
        head: pred(head_name, head_ids),
        body: predicates,
        constraints: Vec::new(),
        expressions: Vec::new(),
    };
    proof {
        assert(constraints_of(r.constraints@) =~= Seq::<ConstraintV>::empty());
        assert(exprs_of(r.expressions@) =~= Seq::<ExpressionV>::empty());
    }
    r
}

/// Builds a rule with constraints.
pub fn constrained_rule(
    head_name: Symbol,
    head_ids: Vec<ID>,
    predicates: Vec<Predicate>,
    constraints: Vec<Constraint>,
) -> (r: Rule)
    ensures
        r@ == (RuleV {
            head: PredicateV { name: head_name, ids: views_of(head_ids@) },
            body: preds_of(predicates@),
            constraints: constraints_of(constraints@),
            expressions: Seq::empty(),
        }),
{
    let r = Rule { head: pred(head_name, head_ids), body: predicates, constraints, expressions: Vec::new() };
    proof {
        assert(exprs_of(r.expressions@) =~= Seq::<ExpressionV>::empty());
    }
    r
}

/// Builds a rule with expressions.
pub fn expressed_rule(
    head_name: Symbol,
    head_ids: Vec<ID>,
    predicates: Vec<Predicate>,
    expressions: Vec<Expression>,
) -> (r: Rule)
    ensures
        r@ == (RuleV {
            head: PredicateV { name: head_name, ids: views_of(head_ids@) },
            body: preds_of(predicates@),
            constraints: Seq::empty(),
            expressions: exprs_of(expressions@),
        }),
{
    let r = Rule { head: pred(head_name, head_ids), body: predicates, constraints: Vec::new(), expressions };
    proof {
        assert(constraints_of(r.constraints@) =~= Seq::<ConstraintV>::empty());
    }
    r
}

} // verus!
