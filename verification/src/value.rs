//! Atomic values of the logic language.
//!
//! An [`ID`] is a tagged atomic value: an interned symbol, a variable
//! placeholder, an integer, a string, a date (seconds since the epoch),
//! a byte vector or a boolean. Contracts speak of values through the
//! mathematical view [`IdV`], where strings and byte vectors become
//! sequences.

use vstd::prelude::*;

verus! {

/// Interned symbol identifier; the engine never interprets symbol bytes.
pub type Symbol = u64;

/// Tagged atomic value. `Variable` is legal only inside rule heads,
/// bodies and expressions, never in stored facts.
#[derive(Debug, PartialEq, Eq, Hash)]
pub enum ID {
    Symbol(Symbol),
    Variable(u32),
    Integer(i64),
    Str(String),
    Date(u64),
    Bytes(Vec<u8>),
    Bool(bool),
}

/// Mathematical view of an [`ID`]: the same tags over abstract sequences.
pub enum IdV {
    Symbol(u64),
    Variable(u32),
    Integer(i64),
    Str(Seq<char>),
    Date(u64),
    Bytes(Seq<u8>),
    Bool(bool),
}

impl View for ID {
    type V = IdV;

    open spec fn view(&self) -> IdV {
        match self {
            ID::Symbol(s) => IdV::Symbol(*s),
            ID::Variable(v) => IdV::Variable(*v),
            ID::Integer(i) => IdV::Integer(*i),
            ID::Str(s) => IdV::Str(s@),
            ID::Date(d) => IdV::Date(*d),
            ID::Bytes(b) => IdV::Bytes(b@),
            ID::Bool(b) => IdV::Bool(*b),
        }
    }
}

/// A value is ground when it is not a variable placeholder.
pub open spec fn ground(v: IdV) -> bool {
    !(v is Variable)
}

impl Clone for ID {
    /// Deep copy; the view is preserved.
    fn clone(&self) -> (r: ID)
        ensures
            r@ == self@,
    {
        match self {
            ID::Symbol(s) => ID::Symbol(*s),
            ID::Variable(v) => ID::Variable(*v),
            ID::Integer(i) => ID::Integer(*i),
            ID::Str(s) => ID::Str(s.clone()),
            ID::Date(d) => ID::Date(*d),
            ID::Bytes(b) => ID::Bytes(clone_bytes(b)),
            ID::Bool(b) => ID::Bool(*b),
        }
    }
}

/// Structural equality on tag and payload, decided at the view level.
pub fn id_eq(a: &ID, b: &ID) -> (r: bool)
    ensures
        r == (a@ == b@),
{
    match (a, b) {
        (ID::Symbol(x), ID::Symbol(y)) => *x == *y,
        (ID::Variable(x), ID::Variable(y)) => *x == *y,
        (ID::Integer(x), ID::Integer(y)) => *x == *y,
        (ID::Str(x), ID::Str(y)) => x.eq(y),
        (ID::Date(x), ID::Date(y)) => *x == *y,
        (ID::Bytes(x), ID::Bytes(y)) => bytes_eq(x, y),
        (ID::Bool(x), ID::Bool(y)) => *x == *y,
        _ => false,
    }
}

/// Element-wise copy of a byte vector.
pub fn clone_bytes(b: &Vec<u8>) -> (r: Vec<u8>)
    ensures
        r@ == b@,
{
    let mut out: Vec<u8> = Vec::new();
    let mut i: usize = 0;
    while i < b.len()
        invariant
            i <= b.len(),
            out@ == b@.subrange(0, i as int),
        decreases b.len() - i,
    {
        out.push(b[i]);
        i = i + 1;
    }
    proof {
        assert(out@ =~= b@);
    }
    out
}

/// Element-wise equality of two byte vectors.
pub fn bytes_eq(a: &Vec<u8>, b: &Vec<u8>) -> (r: bool)
    ensures
        r == (a@ == b@),
{
    if a.len() != b.len() {
        return false;
    }
    let mut i: usize = 0;
    while i < a.len()
        invariant
            i <= a.len(),
            a@.len() == b@.len(),
            forall|j: int| 0 <= j < i ==> a@[j] == b@[j],
        decreases a.len() - i,
    {
        if a[i] != b[i] {
            return false;
        }
        i = i + 1;
    }
    proof {
        assert(a@ =~= b@);
    }
    true
}

/// Builds an integer value.
pub fn integer(i: i64) -> (r: ID)
    ensures
        r@ == IdV::Integer(i),
{
    ID::Integer(i)
}

/// Builds a string value.
pub fn string(s: &str) -> (r: ID)
    ensures
        r@ == IdV::Str(s@),
{
    ID::Str(s.to_owned())
}

/// Builds a date value from seconds since the Unix epoch.
pub fn date(epoch_seconds: u64) -> (r: ID)
    ensures
        r@ == IdV::Date(epoch_seconds),
{
    ID::Date(epoch_seconds)
}

} // verus!
