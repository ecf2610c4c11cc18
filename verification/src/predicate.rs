//! Named tuples of values.
//!
//! A [`Predicate`] is a symbol name applied to an ordered sequence of
//! values; arity is part of its identity. A [`Fact`] is a predicate
//! whose arguments are all ground (no variables); facts are what the
//! world stores.

use vstd::prelude::*;

use crate::value::{ID, IdV, Symbol, ground, id_eq};

verus! {

/// Named tuple of values; may contain variables when used in rule
/// heads and bodies.
#[derive(Debug, PartialEq, Eq, Hash)]
pub struct Predicate {
    pub name: Symbol,
    pub ids: Vec<ID>,
}

/// Mathematical view of a [`Predicate`].
pub struct PredicateV {
    pub name: u64,
    pub ids: Seq<IdV>,
}

/// The views of a sequence of values.
pub open spec fn views_of(s: Seq<ID>) -> Seq<IdV> {
    s.map_values(|x: ID| x@)
}

impl View for Predicate {
    type V = PredicateV;

    open spec fn view(&self) -> PredicateV {
        PredicateV { name: self.name, ids: views_of(self.ids@) }
    }
}

/// A predicate is ground when none of its arguments is a variable.
pub open spec fn ground_pred(p: PredicateV) -> bool {
    forall|j: int| 0 <= j < p.ids.len() ==> ground(#[trigger] p.ids[j])
}

/// Deep copy of a value vector; the element views are preserved.
pub fn clone_ids(v: &Vec<ID>) -> (r: Vec<ID>)
    ensures
        views_of(r@) == views_of(v@),
{
    let mut out: Vec<ID> = Vec::new();
    let mut i: usize = 0;
    while i < v.len()
        invariant
            i <= v.len(),
            out@.len() == i,
            forall|j: int| 0 <= j < i ==> out@[j]@ == v@[j]@,
        decreases v.len() - i,
    {
        out.push(v[i].clone());
        i = i + 1;
    }
    proof {
        assert(views_of(out@) =~= views_of(v@));
    }
    out
}

impl Clone for Predicate {
    /// Deep copy; the view is preserved.
    fn clone(&self) -> (r: Predicate)
        ensures
            r@ == self@,
    {
        Predicate { name: self.name, ids: clone_ids(&self.ids) }
    }
}

impl Predicate {
    pub fn new(name: Symbol, ids: Vec<ID>) -> (r: Predicate)
        ensures
            r@ == (PredicateV { name: name, ids: views_of(ids@) }),
    {
        Predicate { name, ids }
    }
}

/// A ground predicate stored in the world. The view of a fact is the
/// view of its predicate.
#[derive(Debug, PartialEq, Eq, Hash)]
pub struct Fact {
    pub predicate: Predicate,
}

impl View for Fact {
    type V = PredicateV;

    open spec fn view(&self) -> PredicateV {
        self.predicate@
    }
}

impl Clone for Fact {
    /// Deep copy; the view is preserved.
    fn clone(&self) -> (r: Fact)
        ensures
            r@ == self@,
    {
        Fact { predicate: self.predicate.clone() }
    }
}

impl Fact {
    pub fn new(name: Symbol, ids: Vec<ID>) -> (r: Fact)
        ensures
            r@ == (PredicateV { name: name, ids: views_of(ids@) }),
    {
        Fact { predicate: Predicate::new(name, ids) }
    }
}

/// Builds a fact from a name and arguments.
pub fn fact(name: Symbol, ids: Vec<ID>) -> (r: Fact)
    ensures
        r@ == (PredicateV { name: name, ids: views_of(ids@) }),
{
    Fact::new(name, ids)
}

/// Builds a predicate from a name and arguments.
pub fn pred(name: Symbol, ids: Vec<ID>) -> (r: Predicate)
    ensures
        r@ == (PredicateV { name: name, ids: views_of(ids@) }),
{
    Predicate::new(name, ids)
}

/// Structural equality of two predicates, decided at the view level.
pub fn pred_eq(a: &Predicate, b: &Predicate) -> (r: bool)
    ensures
        r == (a@ == b@),
{
    if a.name != b.name {
        return false;
    }
    if a.ids.len() != b.ids.len() {
        proof {
            assert(a@.ids.len() == a.ids@.len());
            assert(b@.ids.len() == b.ids@.len());
        }
        return false;
    }
    let mut j: usize = 0;
    while j < a.ids.len()
        invariant
            j <= a.ids.len(),
            a.ids.len() == b.ids.len(),
            a.name == b.name,
            forall|i: int| 0 <= i < j ==> (#[trigger] a.ids@[i])@ == b.ids@[i]@,
        decreases a.ids.len() - j,
    {
        if !id_eq(&a.ids[j], &b.ids[j]) {
            proof {
                assert(a@.ids[j as int] == a.ids@[j as int]@);
                assert(b@.ids[j as int] == b.ids@[j as int]@);
            }
            return false;
        }
        j = j + 1;
    }
    proof {
        assert(views_of(a.ids@) =~= views_of(b.ids@));
    }
    true
}

/// One-step compatibility of two argument values: a variable on either
/// side matches anything; otherwise the values must be equal on tag and
/// payload.
pub open spec fn id_match(fid: IdV, pid: IdV) -> bool {
    ||| fid is Variable
    ||| pid is Variable
    ||| fid == pid
}

/// Compatibility of two predicates: equal names, equal arities, and
/// pairwise compatible arguments.
pub open spec fn match_spec(p1: PredicateV, p2: PredicateV) -> bool {
    &&& p1.name == p2.name
    &&& p1.ids.len() == p2.ids.len()
    &&& forall|j: int| 0 <= j < p1.ids.len() ==> id_match(#[trigger] p1.ids[j], p2.ids[j])
}

/// One-step compatibility test on two values.
pub fn id_match_exec(f: &ID, p: &ID) -> (r: bool)
    ensures
        r == id_match(f@, p@),
{
    match f {
        ID::Variable(_) => true,
        _ => match p {
            ID::Variable(_) => true,
            _ => id_eq(f, p),
        },
    }
}

/// Compatibility test of two predicates, per the spec
/// [`match_spec`]: a one-step test, not a binding.
pub fn match_preds(pred1: &Predicate, pred2: &Predicate) -> (r: bool)
    ensures
        r == match_spec(pred1@, pred2@),
{
    if pred1.name != pred2.name {
        return false;
    }
    if pred1.ids.len() != pred2.ids.len() {
        return false;
    }
    let mut j: usize = 0;
    while j < pred1.ids.len()
        invariant
            j <= pred1.ids.len(),
            pred1.ids.len() == pred2.ids.len(),
            forall|i: int| 0 <= i < j ==> id_match(#[trigger] pred1@.ids[i], pred2@.ids[i]),
        decreases pred1.ids.len() - j,
    {
        proof {
            assert(pred1@.ids[j as int] == pred1.ids@[j as int]@);
            assert(pred2@.ids[j as int] == pred2.ids@[j as int]@);
        }
        if !id_match_exec(&pred1.ids[j], &pred2.ids[j]) {
            return false;
        }
        j = j + 1;
    }
    true
}

} // verus!
