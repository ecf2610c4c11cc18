//! String interning for symbols and variable names.
//!
//! The engine itself never interprets symbol bytes: a [`SymbolTable`]
//! maps each distinct name to its index, handed out in insertion
//! order, and the engine carries only the indices.

use vstd::prelude::*;
use vstd::string::StrSliceExecFns;

use crate::value::{ID, IdV};

verus! {

/// Interning table: the name of symbol `i` sits at index `i`.
#[derive(Debug)]
pub struct SymbolTable {
    pub symbols: Vec<String>,
}

/// The views of the interned names.
pub open spec fn table_of(s: Seq<String>) -> Seq<Seq<char>> {
    s.map_values(|x: String| x@)
}

impl SymbolTable {
    /// An empty table.
    pub fn new() -> (r: SymbolTable)
        ensures
            r.symbols@.len() == 0,
    {
        SymbolTable { symbols: Vec::new() }
    }

    /// Interns a name: the index of its first occurrence, appending it
    /// when it is new.
    pub fn insert(&mut self, s: &str) -> (r: u64)
        requires
            old(self).symbols@.len() < 0xffff_ffff_ffff_ffff,
        ensures
            ({
                let t0 = table_of(old(self).symbols@);
                let t1 = table_of(final(self).symbols@);
                if t0.contains(s@) {
                    &&& t1 == t0
                    &&& 0 <= r < t0.len()
                    &&& t0[r as int] == s@
                    &&& forall|j: int| 0 <= j < r ==> t0[j] != s@
                } else {
                    &&& r == t0.len()
                    &&& t1 == t0.push(s@)
                }
            }),
    {
        let owned = s.to_owned();
        let mut i: usize = 0;
        while i < self.symbols.len()
            invariant
                i <= self.symbols.len(),
                owned@ == s@,
                *self == *old(self),
                forall|j: int| 0 <= j < i ==> (#[trigger] self.symbols@[j])@ != s@,
            decreases self.symbols.len() - i,
        {
            if self.symbols[i].eq(&owned) {
                proof {
                    assert(table_of(self.symbols@)[i as int] == self.symbols@[i as int]@);
                    assert forall|j: int| 0 <= j < i implies table_of(self.symbols@)[j] != s@ by {
                        assert(table_of(self.symbols@)[j] == self.symbols@[j]@);
                    }
                }
                return i as u64;
            }
            i = i + 1;
        }
        proof {
            let t0 = table_of(self.symbols@);
            assert forall|j: int| 0 <= j < t0.len() implies t0[j] != s@ by {
                assert(t0[j] == self.symbols@[j]@);
            }
        }
        let r = self.symbols.len() as u64;
        self.symbols.push(owned);
        proof {
            assert(table_of(self.symbols@) =~= table_of(old(self).symbols@).push(s@));
        }
        r
    }

    /// Interns a name and wraps the index as a symbol value.
    pub fn add(&mut self, s: &str) -> (r: ID)
        requires
            old(self).symbols@.len() < 0xffff_ffff_ffff_ffff,
        ensures
            ({
                let t0 = table_of(old(self).symbols@);
                let t1 = table_of(final(self).symbols@);
                if t0.contains(s@) {
                    &&& t1 == t0
                    &&& exists|k: int|
                        0 <= k < t0.len() && t0[k] == s@ && r@ == IdV::Symbol(k as u64)
                } else {
                    &&& t1 == t0.push(s@)
                    &&& r@ == IdV::Symbol(t0.len() as u64)
                }
            }),
    {
        let id = self.insert(s);
        proof {
            let t0 = table_of(old(self).symbols@);
            if t0.contains(s@) {
                assert(0 <= id < t0.len() && t0[id as int] == s@ && ID::Symbol(id)@ == IdV::Symbol(
                    id,
                ));
            }
        }
        ID::Symbol(id)
    }
}

/// Builds a symbol value by interning its name.
pub fn sym(syms: &mut SymbolTable, name: &str) -> (r: ID)
    requires
        old(syms).symbols@.len() < 0xffff_ffff_ffff_ffff,
    ensures
        r@ is Symbol,
        ({
            let t0 = table_of(old(syms).symbols@);
            let t1 = table_of(final(syms).symbols@);
            if t0.contains(name@) {
                t1 == t0 && exists|k: int|
                    0 <= k < t0.len() && t0[k] == name@ && r@ == IdV::Symbol(k as u64)
            } else {
                t1 == t0.push(name@) && r@ == IdV::Symbol(t0.len() as u64)
            }
        }),
{
    syms.add(name)
}

/// Builds a variable value by interning its name; the variable id is
/// the name's index in the table.
pub fn var(syms: &mut SymbolTable, name: &str) -> (r: ID)
    requires
        old(syms).symbols@.len() < 0xffff_ffff,
    ensures
        r@ is Variable,
        ({
            let t0 = table_of(old(syms).symbols@);
            let t1 = table_of(final(syms).symbols@);
            if t0.contains(name@) {
                t1 == t0 && exists|k: int|
                    0 <= k < t0.len() && t0[k] == name@ && r@ == IdV::Variable(k as u32)
            } else {
                t1 == t0.push(name@) && r@ == IdV::Variable(t0.len() as u32)
            }
        }),
{
    let id = syms.insert(name);
    proof {
        let t0 = table_of(old(syms).symbols@);
        if t0.contains(name@) {
            assert(0 <= id < t0.len() && t0[id as int] == name@);
        }
    }
    ID::Variable(id as u32)
}

} // verus!
