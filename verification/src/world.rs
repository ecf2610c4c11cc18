//! The fact store and the saturation driver.
//!
//! A [`World`] holds a duplicate-free set of ground facts and an
//! ordered list of rules. [`World::run_with_limits`] applies every
//! rule, unions the produced facts in, and repeats until a pass adds
//! nothing new — or a resource limit trips. One pass is
//! [`world_step`]; the whole run is [`iterate`], so the facts a
//! successful run ends with are a function of the starting facts and
//! rules alone. Facts only ever grow.

use vstd::prelude::*;

use crate::error::RunLimit;
use crate::predicate::{Fact, Predicate, PredicateV, ground_pred, match_preds, match_spec, pred_eq};
use crate::rule::{
    Rule, RuleV, apply_spec, facts_ground, facts_of, lemma_apply_ground,
};

verus! {

/// The views of a sequence of rules.
pub open spec fn rules_of(s: Seq<Rule>) -> Seq<RuleV> {
    s.map_values(|r: Rule| r@)
}

/// The facts every rule derives against one fact sequence, in rule
/// order.
pub open spec fn derived_all(rules: Seq<RuleV>, facts: Seq<PredicateV>) -> Seq<PredicateV>
    decreases rules.len(),
{
    if rules.len() == 0 {
        Seq::empty()
    } else {
        derived_all(rules.drop_last(), facts) + apply_spec(rules.last(), facts)
    }
}

/// Unions candidate facts into the sequence in order, skipping any
/// already present.
pub open spec fn insert_new(facts: Seq<PredicateV>, xs: Seq<PredicateV>) -> Seq<PredicateV>
    decreases xs.len(),
{
    if xs.len() == 0 {
        facts
    } else {
        let prev = insert_new(facts, xs.drop_last());
        if prev.contains(xs.last()) {
            prev
        } else {
            prev.push(xs.last())
        }
    }
}

/// One saturation pass: every rule applied against the same facts, the
/// results unioned in.
pub open spec fn world_step(rules: Seq<RuleV>, facts: Seq<PredicateV>) -> Seq<PredicateV> {
    insert_new(facts, derived_all(rules, facts))
}

/// `n` saturation passes.
pub open spec fn iterate(rules: Seq<RuleV>, facts: Seq<PredicateV>, n: nat) -> Seq<PredicateV>
    decreases n,
{
    if n == 0 {
        facts
    } else {
        world_step(rules, iterate(rules, facts, (n - 1) as nat))
    }
}

/// A fixed point: one more pass adds nothing.
pub open spec fn saturated(rules: Seq<RuleV>, facts: Seq<PredicateV>) -> bool {
    world_step(rules, facts) == facts
}

/// The facts matching a query predicate, in store order.
pub open spec fn query_spec(facts: Seq<PredicateV>, q: PredicateV) -> Seq<PredicateV>
    decreases facts.len(),
{
    if facts.len() == 0 {
        Seq::empty()
    } else {
        let prev = query_spec(facts.drop_last(), q);
        if match_spec(facts.last(), q) {
            prev.push(facts.last())
        } else {
            prev
        }
    }
}

/// Query soundness: every fact a query returns matches the query
/// predicate.
pub proof fn lemma_query_sound(facts: Seq<PredicateV>, q: PredicateV, i: int)
    requires
        0 <= i < query_spec(facts, q).len(),
    ensures
        match_spec(query_spec(facts, q)[i], q),
        facts.contains(query_spec(facts, q)[i]),
    decreases facts.len(),
{
    if facts.len() > 0 {
        let prev = query_spec(facts.drop_last(), q);
        if i < prev.len() {
            lemma_query_sound(facts.drop_last(), q, i);
            assert(facts.drop_last().contains(prev[i]));
            let w = choose|w: int|
                0 <= w < facts.drop_last().len() && facts.drop_last()[w] == prev[i];
            assert(facts[w] == prev[i]);
        } else {
            assert(query_spec(facts, q)[i] == facts.last());
            assert(facts[facts.len() - 1] == facts.last());
        }
    }
}

/// The union keeps the original facts as a prefix.
proof fn lemma_insert_new_prefix(facts: Seq<PredicateV>, xs: Seq<PredicateV>)
    ensures
        facts.is_prefix_of(insert_new(facts, xs)),
        insert_new(facts, xs).len() >= facts.len(),
    decreases xs.len(),
{
    if xs.len() > 0 {
        lemma_insert_new_prefix(facts, xs.drop_last());
        let prev = insert_new(facts, xs.drop_last());
        if !prev.contains(xs.last()) {
            assert(facts =~= prev.push(xs.last()).subrange(0, facts.len() as int));
        }
    }
}

/// A union that did not grow added nothing.
proof fn lemma_insert_new_same_len(facts: Seq<PredicateV>, xs: Seq<PredicateV>)
    requires
        insert_new(facts, xs).len() == facts.len(),
    ensures
        insert_new(facts, xs) == facts,
    decreases xs.len(),
{
    if xs.len() > 0 {
        let prev = insert_new(facts, xs.drop_last());
        lemma_insert_new_prefix(facts, xs.drop_last());
        if prev.contains(xs.last()) {
            lemma_insert_new_same_len(facts, xs.drop_last());
        } else {
            assert(insert_new(facts, xs).len() == prev.len() + 1);
        }
    }
}

/// Unioning ground facts into ground facts stays ground.
proof fn lemma_insert_new_ground(facts: Seq<PredicateV>, xs: Seq<PredicateV>)
    requires
        facts_ground(facts),
        facts_ground(xs),
    ensures
        facts_ground(insert_new(facts, xs)),
    decreases xs.len(),
{
    if xs.len() > 0 {
        assert(forall|i: int|
            0 <= i < xs.drop_last().len() ==> (#[trigger] xs.drop_last()[i]) == xs[i]);
        lemma_insert_new_ground(facts, xs.drop_last());
        let prev = insert_new(facts, xs.drop_last());
        if !prev.contains(xs.last()) {
            let whole = prev.push(xs.last());
            assert forall|i: int| 0 <= i < whole.len() implies ground_pred(
                #[trigger] whole[i],
            ) by {
                if i < prev.len() {
                    assert(whole[i] == prev[i]);
                } else {
                    assert(whole[i] == xs.last());
                    assert(xs[xs.len() - 1] == xs.last());
                }
            }
        }
    }
}

/// Rules applied to ground facts derive ground facts.
proof fn lemma_derived_all_ground(rules: Seq<RuleV>, facts: Seq<PredicateV>)
    requires
        facts_ground(facts),
    ensures
        facts_ground(derived_all(rules, facts)),
    decreases rules.len(),
{
    if rules.len() > 0 {
        lemma_derived_all_ground(rules.drop_last(), facts);
        lemma_apply_ground(rules.last(), facts);
        let a = derived_all(rules.drop_last(), facts);
        let b = apply_spec(rules.last(), facts);
        assert forall|i: int| 0 <= i < (a + b).len() implies ground_pred(
            #[trigger] (a + b)[i],
        ) by {
            if i < a.len() {
                assert((a + b)[i] == a[i]);
            } else {
                assert((a + b)[i] == b[i - a.len()]);
            }
        }
    }
}

/// One pass keeps ground facts ground.
proof fn lemma_step_ground(rules: Seq<RuleV>, facts: Seq<PredicateV>)
    requires
        facts_ground(facts),
    ensures
        facts_ground(world_step(rules, facts)),
{
    lemma_derived_all_ground(rules, facts);
    lemma_insert_new_ground(facts, derived_all(rules, facts));
}

/// Once a fixed point is reached, further passes change nothing.
pub proof fn lemma_iterate_stable(rules: Seq<RuleV>, facts: Seq<PredicateV>, n: nat, m: nat)
    requires
        saturated(rules, iterate(rules, facts, n)),
        n <= m,
    ensures
        iterate(rules, facts, m) == iterate(rules, facts, n),
    decreases m,
{
    if m > n {
        lemma_iterate_stable(rules, facts, n, (m - 1) as nat);
    }
}

/// Determinism of saturation: from the same facts and rules, any two
/// runs that reach a fixed point reach the same fact sequence.
pub proof fn lemma_run_deterministic(
    rules: Seq<RuleV>,
    facts: Seq<PredicateV>,
    n1: nat,
    n2: nat,
)
    requires
        saturated(rules, iterate(rules, facts, n1)),
        saturated(rules, iterate(rules, facts, n2)),
    ensures
        iterate(rules, facts, n1) == iterate(rules, facts, n2),
{
    if n1 <= n2 {
        lemma_iterate_stable(rules, facts, n1, n2);
    } else {
        lemma_iterate_stable(rules, facts, n2, n1);
    }
}

/// Whether the store already holds the fact, by content.
fn contains_fact(facts: &Vec<Fact>, f: &Fact) -> (r: bool)
    ensures
        r == facts_of(facts@).contains(f@),
{
    let mut i: usize = 0;
    while i < facts.len()
        invariant
            i <= facts.len(),
            forall|j: int| 0 <= j < i ==> (#[trigger] facts@[j])@ != f@,
        decreases facts.len() - i,
    {
        if pred_eq(&facts[i].predicate, &f.predicate) {
            proof {
                assert(facts_of(facts@)[i as int] == facts@[i as int]@);
            }
            return true;
        }
        i = i + 1;
    }
    proof {
        let m = facts_of(facts@);
        assert forall|j: int| 0 <= j < m.len() implies m[j] != f@ by {
            assert(m[j] == facts@[j]@);
        }
    }
    false
}

/// Resource limits for one saturation run.
#[derive(Debug, Clone, Copy)]
pub struct RunLimits {
    pub max_facts: u32,
    pub max_iterations: u32,
    pub max_time_millis: u64,
}

/// The default limits: at most 1000 facts, 100 passes, one
/// millisecond.
pub open spec fn default_limits() -> RunLimits {
    RunLimits { max_facts: 1000, max_iterations: 100, max_time_millis: 1 }
}

impl Default for RunLimits {
    fn default() -> (r: RunLimits)
        ensures
            r == default_limits(),
    {
        RunLimits { max_facts: 1000, max_iterations: 100, max_time_millis: 1 }
    }
}

#[verifier::external_type_specification]
#[verifier::external_body]
pub struct ExInstant(std::time::Instant);

/// Relies on `std::time::Instant::now`: an opaque reading of the
/// monotonic clock. Nothing is assumed of it.
#[verifier::external_body]
fn instant_now() -> std::time::Instant {
    std::time::Instant::now()
}

/// Relies on `std::time::Instant::elapsed`: the time since the reading
/// was taken, converted to whole milliseconds (truncated to 64 bits).
/// Nothing is assumed of it.
#[verifier::external_body]
fn millis_since(start: &std::time::Instant) -> u64 {
    start.elapsed().as_millis() as u64
}

/// The fact set and rule list, with the saturation driver.
#[derive(Debug)]
pub struct World {
    pub facts: Vec<Fact>,
    pub rules: Vec<Rule>,
}

impl World {
    /// Every stored fact is ground.
    pub open spec fn wf(self) -> bool {
        facts_ground(facts_of(self.facts@))
    }

    /// What a finished run guarantees. Success means a fixed point was
    /// reached; the result is then a pure function of the starting
    /// facts and rules, and a world already at a fixed point comes
    /// back unchanged. On success the store sits under the fact cap
    /// unless the run never grew it; `TooManyFacts` certifies the cap
    /// was hit, and `TooManyIterations` that exactly the allowed
    /// number of passes ran.
    pub open spec fn run_post(
        pre: World,
        post: World,
        limits: RunLimits,
        r: Result<(), RunLimit>,
    ) -> bool {
        let rules = rules_of(pre.rules@);
        let init = facts_of(pre.facts@);
        let fin = facts_of(post.facts@);
        &&& post.wf()
        &&& post.rules@ == pre.rules@
        &&& init.is_prefix_of(fin)
        &&& exists|n: nat| fin == iterate(rules, init, n)
        &&& (r is Ok ==> saturated(rules, fin))
        &&& (saturated(rules, init) ==> r is Ok && fin == init)
        &&& (r is Ok ==> fin.len() < limits.max_facts as int || fin.len() == init.len())
        &&& (r == Err::<(), RunLimit>(RunLimit::TooManyFacts) ==> fin.len()
            >= limits.max_facts as int)
        &&& (r == Err::<(), RunLimit>(RunLimit::TooManyIterations) ==> limits.max_iterations > 0
            && fin == iterate(rules, init, limits.max_iterations as nat) && fin.len()
            >= init.len() + limits.max_iterations)
        &&& (r == Err::<(), RunLimit>(RunLimit::Timeout) ==> fin.len() > init.len())
    }

    /// An empty world.
    pub fn new() -> (r: World)
        ensures
            r.wf(),
            r.facts@.len() == 0,
            r.rules@.len() == 0,
    {
        World { facts: Vec::new(), rules: Vec::new() }
    }

    /// Adds a ground fact to the store, unless an equal fact is
    /// already there.
    pub fn add_fact(&mut self, fact: Fact)
        requires
            old(self).wf(),
            ground_pred(fact@),
        ensures
            final(self).wf(),
            final(self).rules@ == old(self).rules@,
            facts_of(final(self).facts@) == (if facts_of(old(self).facts@).contains(fact@) {
                facts_of(old(self).facts@)
            } else {
                facts_of(old(self).facts@).push(fact@)
            }),
            facts_of(old(self).facts@).is_prefix_of(facts_of(final(self).facts@)),
    {
        let present = contains_fact(&self.facts, &fact);
        if !present {
            let ghost pre = facts_of(self.facts@);
            self.facts.push(fact);
            proof {
                assert(facts_of(self.facts@) =~= pre.push(self.facts@.last()@));
                assert(pre =~= facts_of(self.facts@).subrange(0, pre.len() as int));
            }
        } else {
            proof {
                assert(facts_of(old(self).facts@).is_prefix_of(facts_of(self.facts@)));
            }
        }
    }

    /// Appends a rule to the list.
    pub fn add_rule(&mut self, rule: Rule)
        ensures
            final(self).wf() == old(self).wf(),
            final(self).facts@ == old(self).facts@,
            final(self).rules@ == old(self).rules@.push(rule),
    {
        self.rules.push(rule);
    }

    /// Saturates under the default limits, per [`World::run_post`].
    pub fn run(&mut self) -> (r: Result<(), RunLimit>)
        requires
            old(self).wf(),
        ensures
            World::run_post(*old(self), *final(self), default_limits(), r),
    {
        self.run_with_limits(RunLimits::default())
    }

    /// Applies every rule and unions the results in, repeating until a
    /// pass adds nothing, per [`World::run_post`]. A pass that grows
    /// the store counts against `max_iterations` and `max_facts`, and
    /// the deadline is checked after each such pass; the deadline
    /// depends on the clock, so `Timeout` may end any run whose first
    /// pass grew the store.
    pub fn run_with_limits(&mut self, limits: RunLimits) -> (r: Result<(), RunLimit>)
        requires
            old(self).wf(),
        ensures
            World::run_post(*old(self), *final(self), limits, r),
    {
        let start = instant_now();
        let ghost rulesv = rules_of(self.rules@);
        let ghost init = facts_of(self.facts@);
        let mut index: u64 = 0;
        loop
            invariant
                self.wf(),
                self.rules@ == old(self).rules@,
                rulesv == rules_of(self.rules@),
                init == facts_of(old(self).facts@),
                facts_of(self.facts@) == iterate(rulesv, init, index as nat),
                init.is_prefix_of(facts_of(self.facts@)),
                index as int <= facts_of(self.facts@).len() - init.len(),
                index > 0 ==> facts_of(self.facts@).len() < limits.max_facts as int,
                saturated(rulesv, init) ==> index == 0,
                limits.max_iterations > 0 ==> index < limits.max_iterations as u64,
            decreases (if facts_of(self.facts@).len() <= limits.max_facts as int {
                limits.max_facts as int - facts_of(self.facts@).len()
            } else {
                0
            }),
        {
            let ghost facts_pre = facts_of(self.facts@);
            let mut new_facts: Vec<Fact> = Vec::new();
            proof {
                assert(facts_of(new_facts@) =~= Seq::<PredicateV>::empty());
                assert(derived_all(rules_of(self.rules@).take(0), facts_pre)
                    =~= Seq::<PredicateV>::empty());
            }
            let n_rules = self.rules.len();
            let mut ri: usize = 0;
            while ri < n_rules
                invariant
                    ri <= n_rules,
                    n_rules == self.rules@.len(),
                    self.rules@ == old(self).rules@,
                    rulesv == rules_of(self.rules@),
                    self.wf(),
                    facts_pre == facts_of(self.facts@),
                    facts_of(new_facts@) == derived_all(rulesv.take(ri as int), facts_pre),
                decreases n_rules - ri,
            {
                let ghost upto = rulesv.take(ri as int + 1);
                proof {
                    assert(upto.drop_last() =~= rulesv.take(ri as int));
                    assert(upto.last() == rulesv[ri as int]);
                    assert(rulesv[ri as int] == self.rules@[ri as int]@);
                }
                self.rules[ri].apply(&self.facts, &mut new_facts);
                ri = ri + 1;
            }
            let ghost derived = derived_all(rulesv, facts_pre);
            proof {
                assert(rulesv.take(rulesv.len() as int) =~= rulesv);
                assert(facts_of(new_facts@) == derived);
                lemma_derived_all_ground(rulesv, facts_pre);
            }
            let len_before = self.facts.len();
            let mut ni: usize = 0;
            proof {
                assert(insert_new(facts_pre, facts_of(new_facts@).take(0)) =~= facts_pre);
                assert(facts_of(new_facts@).take(0) =~= Seq::<PredicateV>::empty());
            }
            while ni < new_facts.len()
                invariant
                    ni <= new_facts.len(),
                    self.rules@ == old(self).rules@,
                    rulesv == rules_of(self.rules@),
                    facts_of(new_facts@) == derived,
                    facts_ground(derived),
                    facts_ground(facts_pre),
                    facts_of(self.facts@) == insert_new(
                        facts_pre,
                        facts_of(new_facts@).take(ni as int),
                    ),
                    self.wf(),
                decreases new_facts.len() - ni,
            {
                let ghost upto = facts_of(new_facts@).take(ni as int + 1);
                proof {
                    assert(upto.drop_last() =~= facts_of(new_facts@).take(ni as int));
                    assert(upto.last() == facts_of(new_facts@)[ni as int]);
                    assert(facts_of(new_facts@)[ni as int] == new_facts@[ni as int]@);
                    assert(derived.contains(derived[ni as int]));
                }
                let present = contains_fact(&self.facts, &new_facts[ni]);
                if !present {
                    let ghost pre = facts_of(self.facts@);
                    let f = new_facts[ni].clone();
                    self.facts.push(f);
                    proof {
                        assert(facts_of(self.facts@) =~= pre.push(new_facts@[ni as int]@));
                    }
                }
                ni = ni + 1;
            }
            proof {
                assert(facts_of(new_facts@).take(new_facts@.len() as int)
                    =~= facts_of(new_facts@));
                assert(facts_of(self.facts@) == world_step(rulesv, facts_pre));
                assert(facts_of(self.facts@) == iterate(rulesv, init, (index + 1) as nat));
                lemma_insert_new_prefix(facts_pre, derived);
            }
            if self.facts.len() == len_before {
                proof {
                    lemma_insert_new_same_len(facts_pre, derived);
                    assert(world_step(rulesv, facts_pre) == facts_pre);
                    assert(saturated(rulesv, facts_of(self.facts@)));
                }
                return Ok(());
            }
            proof {
                assert(facts_of(self.facts@).len() > facts_pre.len());
                if saturated(rulesv, init) {
                    lemma_iterate_stable(rulesv, init, 0, index as nat);
                    assert(facts_pre == init);
                    assert(world_step(rulesv, facts_pre) == facts_pre);
                    assert(false);
                }
                assert(index as int + 1 <= facts_of(self.facts@).len() - init.len());
                if index > 0 {
                    assert(index as int <= facts_pre.len());
                    assert(facts_pre.len() < limits.max_facts as int);
                }
            }
            index = index + 1;
            if index == limits.max_iterations as u64 {
                return Err(RunLimit::TooManyIterations);
            }
            if self.facts.len() >= limits.max_facts as usize {
                return Err(RunLimit::TooManyFacts);
            }
            if millis_since(&start) >= limits.max_time_millis {
                return Err(RunLimit::Timeout);
            }
        }
    }

    /// The stored facts matching the query predicate, in store order:
    /// variable slots of the query are wildcards, concrete slots must
    /// be equal, per [`query_spec`].
    pub fn query(&self, pred: Predicate) -> (r: Vec<&Fact>)
        ensures
            r@.map_values(|f: &Fact| f@) == query_spec(facts_of(self.facts@), pred@),
    {
        let mut out: Vec<&Fact> = Vec::new();
        let mut i: usize = 0;
        proof {
            assert(out@.map_values(|f: &Fact| f@) =~= Seq::<PredicateV>::empty());
            assert(facts_of(self.facts@).take(0) =~= Seq::<PredicateV>::empty());
            assert(query_spec(facts_of(self.facts@).take(0), pred@)
                =~= Seq::<PredicateV>::empty());
        }
        while i < self.facts.len()
            invariant
                i <= self.facts.len(),
                out@.map_values(|f: &Fact| f@) == query_spec(
                    facts_of(self.facts@).take(i as int),
                    pred@,
                ),
            decreases self.facts.len() - i,
        {
            let ghost upto = facts_of(self.facts@).take(i as int + 1);
            proof {
                assert(upto.drop_last() =~= facts_of(self.facts@).take(i as int));
                assert(upto.last() == facts_of(self.facts@)[i as int]);
                assert(facts_of(self.facts@)[i as int] == self.facts@[i as int]@);
            }
            if match_preds(&self.facts[i].predicate, &pred) {
                let ghost pre = out@;
                out.push(&self.facts[i]);
                proof {
                    assert(out@.map_values(|f: &Fact| f@) =~= pre.map_values(
                        |f: &Fact| f@,
                    ).push(self.facts@[i as int]@));
                }
            }
            i = i + 1;
        }
        proof {
            assert(facts_of(self.facts@).take(self.facts@.len() as int)
                =~= facts_of(self.facts@));
        }
        out
    }

    /// Applies one rule against the current facts without storing the
    /// results, per [`apply_spec`].
    pub fn query_rule(&self, rule: Rule) -> (r: Vec<Fact>)
        requires
            self.wf(),
        ensures
            facts_of(r@) == apply_spec(rule@, facts_of(self.facts@)),
    {
        let mut new_facts: Vec<Fact> = Vec::new();
        proof {
            assert(facts_of(new_facts@) =~= Seq::<PredicateV>::empty());
        }
        rule.apply(&self.facts, &mut new_facts);
        new_facts
    }
}

impl Default for World {
    /// An empty world.
    fn default() -> (r: World)
        ensures
            r.wf(),
            r.facts@.len() == 0,
            r.rules@.len() == 0,
    {
        World { facts: Vec::new(), rules: Vec::new() }
    }
}

} // verus!
