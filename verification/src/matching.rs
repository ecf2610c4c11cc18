//! Partial assignments of variables to values.
//!
//! [`MatchedVariables`] keys the variables of a rule body and assigns
//! each an optional value. An assignment is *complete* when every
//! variable is set; a complete assignment yields a [`Binding`], the
//! environment handed to expressions and head substitution. Entries
//! are kept in first-occurrence order, so every operation is a
//! deterministic function of its inputs.

use vstd::prelude::*;

use crate::value::{ID, IdV, ground, id_eq};

verus! {

/// The view of an optional value.
pub open spec fn opt_id_view(o: Option<ID>) -> Option<IdV> {
    match o {
        Some(id) => Some(id@),
        None => None,
    }
}

/// Partial assignment from variable id to value, over a fixed key set.
#[derive(Debug)]
pub struct MatchedVariables {
    pub entries: Vec<(u32, Option<ID>)>,
}

impl View for MatchedVariables {
    type V = Seq<(u32, Option<IdV>)>;

    open spec fn view(&self) -> Seq<(u32, Option<IdV>)> {
        self.entries@.map_values(|e: (u32, Option<ID>)| (e.0, opt_id_view(e.1)))
    }
}

/// A complete assignment: each listed variable with its value.
#[derive(Debug)]
pub struct Binding {
    pub pairs: Vec<(u32, ID)>,
}

impl View for Binding {
    type V = Seq<(u32, IdV)>;

    open spec fn view(&self) -> Seq<(u32, IdV)> {
        self.pairs@.map_values(|e: (u32, ID)| (e.0, e.1@))
    }
}

/// Looks a key up in an assignment: `None` when the key is not listed,
/// otherwise the (possibly unset) value of its first entry.
pub open spec fn mv_get(m: Seq<(u32, Option<IdV>)>, k: u32) -> Option<Option<IdV>>
    decreases m.len(),
{
    if m.len() == 0 {
        None
    } else if m[0].0 == k {
        Some(m[0].1)
    } else {
        mv_get(m.drop_first(), k)
    }
}

/// The index of the first entry with the given key.
pub open spec fn mv_index(m: Seq<(u32, Option<IdV>)>, k: u32) -> int
    decreases m.len(),
{
    if m.len() == 0 {
        0
    } else if m[0].0 == k {
        0
    } else {
        1 + mv_index(m.drop_first(), k)
    }
}

/// Every listed variable has a value.
pub open spec fn mv_complete(m: Seq<(u32, Option<IdV>)>) -> bool {
    forall|i: int| 0 <= i < m.len() ==> (#[trigger] m[i]).1 is Some
}

/// The environment of a complete assignment, in entry order.
pub open spec fn mv_env(m: Seq<(u32, Option<IdV>)>) -> Seq<(u32, IdV)> {
    m.map_values(|e: (u32, Option<IdV>)| (e.0, e.1.unwrap()))
}

/// Binding a key to a value: fails when the key is not listed or is
/// already bound to a different value; binding an unset key sets it;
/// rebinding an equal value leaves the assignment unchanged.
pub open spec fn mv_insert(m: Seq<(u32, Option<IdV>)>, k: u32, v: IdV) -> Option<
    Seq<(u32, Option<IdV>)>,
> {
    match mv_get(m, k) {
        None => None,
        Some(Some(w)) => if w == v {
            Some(m)
        } else {
            None
        },
        Some(None) => Some(m.update(mv_index(m, k), (k, Some(v)))),
    }
}

/// Looks a key up in an environment.
pub open spec fn env_get(env: Seq<(u32, IdV)>, k: u32) -> Option<IdV>
    decreases env.len(),
{
    if env.len() == 0 {
        None
    } else if env[0].0 == k {
        Some(env[0].1)
    } else {
        env_get(env.drop_first(), k)
    }
}

/// Every value of an environment is ground.
pub open spec fn env_ground(env: Seq<(u32, IdV)>) -> bool {
    forall|i: int| 0 <= i < env.len() ==> ground((#[trigger] env[i]).1)
}

/// When the first `i` entries miss the key, the lookup result and
/// first-hit index are decided by the rest.
pub proof fn lemma_mv_skip(m: Seq<(u32, Option<IdV>)>, k: u32, i: int)
    requires
        0 <= i <= m.len(),
        forall|j: int| 0 <= j < i ==> (#[trigger] m[j]).0 != k,
    ensures
        mv_get(m, k) == mv_get(m.skip(i), k),
        mv_index(m, k) == i + mv_index(m.skip(i), k),
    decreases i,
{
    if i > 0 {
        assert(m.drop_first() =~= m.skip(1));
        lemma_mv_skip(m.skip(1), k, i - 1);
        assert(m.skip(1).skip(i - 1) =~= m.skip(i));
    } else {
        assert(m.skip(0) =~= m);
    }
}

/// A first hit at index `i` decides the lookup and the index.
pub proof fn lemma_mv_first_hit(m: Seq<(u32, Option<IdV>)>, k: u32, i: int)
    requires
        0 <= i < m.len(),
        m[i].0 == k,
        forall|j: int| 0 <= j < i ==> (#[trigger] m[j]).0 != k,
    ensures
        mv_get(m, k) == Some(m[i].1),
        mv_index(m, k) == i,
{
    lemma_mv_skip(m, k, i);
    assert(m.skip(i)[0] == m[i]);
}

/// A key missing from every entry is missing from the lookup.
pub proof fn lemma_mv_absent(m: Seq<(u32, Option<IdV>)>, k: u32)
    requires
        forall|j: int| 0 <= j < m.len() ==> (#[trigger] m[j]).0 != k,
    ensures
        mv_get(m, k) is None,
{
    lemma_mv_skip(m, k, m.len() as int);
    assert(m.skip(m.len() as int) =~= Seq::<(u32, Option<IdV>)>::empty());
}

/// A successful lookup pins the first-hit index inside the assignment.
pub proof fn lemma_mv_index_bounds(m: Seq<(u32, Option<IdV>)>, k: u32)
    requires
        mv_get(m, k) is Some,
    ensures
        0 <= mv_index(m, k) < m.len(),
        m[mv_index(m, k)].0 == k,
        Some(m[mv_index(m, k)].1) == mv_get(m, k),
    decreases m.len(),
{
    if m.len() > 0 && m[0].0 != k {
        lemma_mv_index_bounds(m.drop_first(), k);
        assert(m.drop_first()[mv_index(m.drop_first(), k)] == m[1 + mv_index(m.drop_first(), k)]);
    }
}

/// The initial assignment leaves every variable unset.
pub proof fn lemma_mv_init_unbound(keys: Seq<u32>)
    ensures
        forall|i: int| 0 <= i < mv_init(keys).len() ==> (#[trigger] mv_init(keys)[i]).1 is None,
    decreases keys.len(),
{
    if keys.len() > 0 {
        lemma_mv_init_unbound(keys.drop_last());
        let prev = mv_init(keys.drop_last());
        if !(mv_get(prev, keys.last()) is Some) {
            assert forall|i: int| 0 <= i < mv_init(keys).len() implies (#[trigger] mv_init(
                keys,
            )[i]).1 is None by {
                if i < prev.len() {
                    assert(mv_init(keys)[i] == prev[i]);
                }
            }
        }
    }
}

/// A value found in a ground environment is ground.
pub proof fn lemma_env_get_ground(env: Seq<(u32, IdV)>, k: u32)
    requires
        env_ground(env),
        env_get(env, k) is Some,
    ensures
        ground(env_get(env, k).unwrap()),
    decreases env.len(),
{
    if env.len() > 0 && env[0].0 != k {
        assert(forall|i: int|
            0 <= i < env.drop_first().len() ==> (#[trigger] env.drop_first()[i]) == env[i + 1]);
        lemma_env_get_ground(env.drop_first(), k);
    }
}

/// Initial assignment over a key list: first occurrence of each key,
/// in order, all unset.
pub open spec fn mv_init(keys: Seq<u32>) -> Seq<(u32, Option<IdV>)>
    decreases keys.len(),
{
    if keys.len() == 0 {
        Seq::empty()
    } else {
        let prev = mv_init(keys.drop_last());
        if mv_get(prev, keys.last()) is Some {
            prev
        } else {
            prev.push((keys.last(), None))
        }
    }
}

impl MatchedVariables {
    /// Whether the assignment lists the key.
    fn has_key(&self, k: u32) -> (r: bool)
        ensures
            r == (mv_get(self@, k) is Some),
    {
        let mut i: usize = 0;
        while i < self.entries.len()
            invariant
                i <= self.entries.len(),
                forall|j: int| 0 <= j < i ==> (#[trigger] self@[j]).0 != k,
            decreases self.entries.len() - i,
        {
            proof {
                assert(self@[i as int].0 == self.entries@[i as int].0);
            }
            if self.entries[i].0 == k {
                proof {
                    lemma_mv_first_hit(self@, k, i as int);
                }
                return true;
            }
            i = i + 1;
        }
        proof {
            lemma_mv_absent(self@, k);
        }
        false
    }

    /// Builds the initial assignment over the given keys: duplicates
    /// collapse to their first occurrence, every variable unset.
    pub fn new(import: Vec<u32>) -> (r: MatchedVariables)
        ensures
            r@ == mv_init(import@),
    {
        let mut out = MatchedVariables { entries: Vec::new() };
        let mut i: usize = 0;
        while i < import.len()
            invariant
                i <= import.len(),
                out@ == mv_init(import@.subrange(0, i as int)),
            decreases import.len() - i,
        {
            let ghost pre = import@.subrange(0, i as int);
            let ghost post = import@.subrange(0, i as int + 1);
            proof {
                assert(post.drop_last() =~= pre);
                assert(post.last() == import@[i as int]);
            }
            if !out.has_key(import[i]) {
                let k = import[i];
                out.entries.push((k, None));
                proof {
                    assert(out@ =~= mv_init(pre).push((import@[i as int], None)));
                }
            }
            i = i + 1;
        }
        proof {
            assert(import@.subrange(0, import@.len() as int) =~= import@);
        }
        out
    }

    /// Binds `key` to `value`, per [`mv_insert`]: true when the key was
    /// unset (now set) or already bound to an equal value; false, with
    /// the assignment unchanged, on an unknown key or a conflict.
    pub fn insert(&mut self, key: u32, value: &ID) -> (r: bool)
        ensures
            match mv_insert(old(self)@, key, value@) {
                Some(m2) => r == true && final(self)@ == m2,
                None => r == false && final(self)@ == old(self)@,
            },
    {
        let n = self.entries.len();
        let mut i: usize = 0;
        while i < n
            invariant
                n == self.entries.len(),
                i <= n,
                *self == *old(self),
                forall|j: int| 0 <= j < i ==> (#[trigger] self@[j]).0 != key,
            decreases n - i,
        {
            proof {
                assert(self@[i as int].0 == self.entries@[i as int].0);
                assert(self@[i as int].1 == opt_id_view(self.entries@[i as int].1));
            }
            if self.entries[i].0 == key {
                proof {
                    lemma_mv_first_hit(self@, key, i as int);
                }
                let bound = self.entries[i].1.is_some();
                if bound {
                    let r = match &self.entries[i].1 {
                        Some(v) => id_eq(v, value),
                        None => false,
                    };
                    return r;
                } else {
                    self.entries.set(i, (key, Some(value.clone())));
                    proof {
                        assert(final(self)@ =~= old(self)@.update(
                            i as int,
                            (key, Some(value@)),
                        ));
                    }
                    return true;
                }
            }
            i = i + 1;
        }
        proof {
            lemma_mv_absent(self@, key);
        }
        false
    }

    /// Whether every variable of the assignment is set.
    pub fn is_complete(&self) -> (r: bool)
        ensures
            r == mv_complete(self@),
    {
        let mut i: usize = 0;
        while i < self.entries.len()
            invariant
                i <= self.entries.len(),
                forall|j: int| 0 <= j < i ==> (#[trigger] self@[j]).1 is Some,
            decreases self.entries.len() - i,
        {
            proof {
                assert(self@[i as int].1 == opt_id_view(self.entries@[i as int].1));
            }
            if self.entries[i].1.is_none() {
                return false;
            }
            i = i + 1;
        }
        true
    }

    /// The environment of a complete assignment, or `None` when some
    /// variable is unset.
    pub fn complete(&self) -> (r: Option<Binding>)
        ensures
            match r {
                Some(b) => mv_complete(self@) && b@ == mv_env(self@),
                None => !mv_complete(self@),
            },
    {
        let mut pairs: Vec<(u32, ID)> = Vec::new();
        let mut i: usize = 0;
        while i < self.entries.len()
            invariant
                i <= self.entries.len(),
                pairs@.len() == i,
                forall|j: int| 0 <= j < i ==> (#[trigger] self@[j]).1 is Some,
                forall|j: int|
                    0 <= j < i ==> (#[trigger] pairs@[j]).0 == self@[j].0 && pairs@[j].1@
                        == self@[j].1.unwrap(),
            decreases self.entries.len() - i,
        {
            proof {
                assert(self@[i as int].0 == self.entries@[i as int].0);
                assert(self@[i as int].1 == opt_id_view(self.entries@[i as int].1));
            }
            match &self.entries[i].1 {
                Some(v) => {
                    let k = self.entries[i].0;
                    pairs.push((k, v.clone()));
                },
                None => {
                    return None;
                },
            }
            i = i + 1;
        }
        let out = Binding { pairs };
        proof {
            assert(out@ =~= mv_env(self@));
        }
        Some(out)
    }
}

impl Clone for MatchedVariables {
    /// Deep copy; the view is preserved.
    fn clone(&self) -> (r: MatchedVariables)
        ensures
            r@ == self@,
    {
        let mut entries: Vec<(u32, Option<ID>)> = Vec::new();
        let mut i: usize = 0;
        while i < self.entries.len()
            invariant
                i <= self.entries.len(),
                entries@.len() == i,
                forall|j: int|
                    0 <= j < i ==> (#[trigger] entries@[j]).0 == self.entries@[j].0
                        && opt_id_view(entries@[j].1) == opt_id_view(self.entries@[j].1),
            decreases self.entries.len() - i,
        {
            let k = self.entries[i].0;
            let v = match &self.entries[i].1 {
                Some(id) => Some(id.clone()),
                None => None,
            };
            entries.push((k, v));
            i = i + 1;
        }
        let out = MatchedVariables { entries };
        proof {
            assert(out@ =~= self@);
        }
        out
    }
}

impl Binding {
    /// The value bound to a variable, per [`env_get`].
    pub fn get(&self, k: u32) -> (r: Option<&ID>)
        ensures
            match r {
                Some(v) => env_get(self@, k) == Some(v@),
                None => env_get(self@, k) is None,
            },
    {
        let mut i: usize = 0;
        while i < self.pairs.len()
            invariant
                i <= self.pairs.len(),
                forall|j: int| 0 <= j < i ==> (#[trigger] self@[j]).0 != k,
            decreases self.pairs.len() - i,
        {
            proof {
                assert(self@[i as int].0 == self.pairs@[i as int].0);
                assert(self@[i as int].1 == self.pairs@[i as int].1@);
            }
            if self.pairs[i].0 == k {
                proof {
                    lemma_env_first_hit(self@, k, i as int);
                }
                return Some(&self.pairs[i].1);
            }
            i = i + 1;
        }
        proof {
            lemma_env_absent(self@, k);
        }
        None
    }
}

impl Clone for Binding {
    /// Deep copy; the view is preserved.
    fn clone(&self) -> (r: Binding)
        ensures
            r@ == self@,
    {
        let mut pairs: Vec<(u32, ID)> = Vec::new();
        let mut i: usize = 0;
        while i < self.pairs.len()
            invariant
                i <= self.pairs.len(),
                pairs@.len() == i,
                forall|j: int|
                    0 <= j < i ==> (#[trigger] pairs@[j]).0 == self.pairs@[j].0 && pairs@[j].1@
                        == self.pairs@[j].1@,
            decreases self.pairs.len() - i,
        {
            let k = self.pairs[i].0;
            pairs.push((k, self.pairs[i].1.clone()));
            i = i + 1;
        }
        let out = Binding { pairs };
        proof {
            assert(out@ =~= self@);
        }
        out
    }
}

/// When the first `i` pairs miss the key, the lookup is decided by the
/// rest.
pub proof fn lemma_env_skip(env: Seq<(u32, IdV)>, k: u32, i: int)
    requires
        0 <= i <= env.len(),
        forall|j: int| 0 <= j < i ==> (#[trigger] env[j]).0 != k,
    ensures
        env_get(env, k) == env_get(env.skip(i), k),
    decreases i,
{
    if i > 0 {
        assert(env.drop_first() =~= env.skip(1));
        lemma_env_skip(env.skip(1), k, i - 1);
        assert(env.skip(1).skip(i - 1) =~= env.skip(i));
    } else {
        assert(env.skip(0) =~= env);
    }
}

/// A first hit at index `i` decides the lookup.
pub proof fn lemma_env_first_hit(env: Seq<(u32, IdV)>, k: u32, i: int)
    requires
        0 <= i < env.len(),
        env[i].0 == k,
        forall|j: int| 0 <= j < i ==> (#[trigger] env[j]).0 != k,
    ensures
        env_get(env, k) == Some(env[i].1),
{
    lemma_env_skip(env, k, i);
    assert(env.skip(i)[0] == env[i]);
}

/// A key missing from every pair is missing from the lookup.
pub proof fn lemma_env_absent(env: Seq<(u32, IdV)>, k: u32)
    requires
        forall|j: int| 0 <= j < env.len() ==> (#[trigger] env[j]).0 != k,
    ensures
        env_get(env, k) is None,
{
    lemma_env_skip(env, k, env.len() as int);
    assert(env.skip(env.len() as int) =~= Seq::<(u32, IdV)>::empty());
}

} // verus!
