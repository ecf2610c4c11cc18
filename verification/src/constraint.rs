//! Per-variable typed constraints.
//!
//! A [`Constraint`] names a target variable and a typed test. During
//! the join, whenever a candidate value is about to be bound to that
//! variable, every constraint targeting it must accept the value. A
//! constraint targeting another variable passes trivially; a type
//! mismatch between the test and the value fails.

use vstd::prelude::*;
use vstd::string::StrSliceExecFns;

use crate::value::{ID, IdV, bytes_eq, clone_bytes};

verus! {

/// Typed test on an integer value.
#[derive(Debug)]
pub enum IntConstraint {
    LessThan(i64),
    GreaterThan(i64),
    LessOrEqual(i64),
    GreaterOrEqual(i64),
    Equal(i64),
    In(Vec<i64>),
    NotIn(Vec<i64>),
}

/// Typed test on a string value.
#[derive(Debug)]
pub enum StrConstraint {
    Prefix(String),
    Suffix(String),
    Equal(String),
    In(Vec<String>),
    NotIn(Vec<String>),
    Regex(String),
}

/// Typed test on a date value: `Before` is inclusive below, `After`
/// inclusive above.
#[derive(Debug, Clone, Copy)]
pub enum DateConstraint {
    Before(u64),
    After(u64),
}

/// Typed test on a symbol value.
#[derive(Debug)]
pub enum SymbolConstraint {
    In(Vec<u64>),
    NotIn(Vec<u64>),
}

/// Typed test on a byte-vector value.
#[derive(Debug)]
pub enum BytesConstraint {
    Equal(Vec<u8>),
    In(Vec<Vec<u8>>),
    NotIn(Vec<Vec<u8>>),
}

/// The test part of a constraint, dispatched on the value's tag.
#[derive(Debug)]
pub enum ConstraintKind {
    Int(IntConstraint),
    Str(StrConstraint),
    Date(DateConstraint),
    Symbol(SymbolConstraint),
    Bytes(BytesConstraint),
}

/// A typed test bound to a target variable id.
#[derive(Debug)]
pub struct Constraint {
    pub id: u32,
    pub kind: ConstraintKind,
}

/// Mathematical view of [`IntConstraint`].
pub enum IntConstraintV {
    LessThan(i64),
    GreaterThan(i64),
    LessOrEqual(i64),
    GreaterOrEqual(i64),
    Equal(i64),
    In(Seq<i64>),
    NotIn(Seq<i64>),
}

/// Mathematical view of [`StrConstraint`].
pub enum StrConstraintV {
    Prefix(Seq<char>),
    Suffix(Seq<char>),
    Equal(Seq<char>),
    In(Seq<Seq<char>>),
    NotIn(Seq<Seq<char>>),
    Regex(Seq<char>),
}

/// Mathematical view of [`SymbolConstraint`].
pub enum SymbolConstraintV {
    In(Seq<u64>),
    NotIn(Seq<u64>),
}

/// Mathematical view of [`BytesConstraint`].
pub enum BytesConstraintV {
    Equal(Seq<u8>),
    In(Seq<Seq<u8>>),
    NotIn(Seq<Seq<u8>>),
}

/// Mathematical view of [`ConstraintKind`].
pub enum ConstraintKindV {
    Int(IntConstraintV),
    Str(StrConstraintV),
    Date(DateConstraint),
    Symbol(SymbolConstraintV),
    Bytes(BytesConstraintV),
}

/// Mathematical view of [`Constraint`].
pub struct ConstraintV {
    pub id: u32,
    pub kind: ConstraintKindV,
}

impl View for IntConstraint {
    type V = IntConstraintV;

    open spec fn view(&self) -> IntConstraintV {
        match self {
            IntConstraint::LessThan(j) => IntConstraintV::LessThan(*j),
            IntConstraint::GreaterThan(j) => IntConstraintV::GreaterThan(*j),
            IntConstraint::LessOrEqual(j) => IntConstraintV::LessOrEqual(*j),
            IntConstraint::GreaterOrEqual(j) => IntConstraintV::GreaterOrEqual(*j),
            IntConstraint::Equal(j) => IntConstraintV::Equal(*j),
            IntConstraint::In(h) => IntConstraintV::In(h@),
            IntConstraint::NotIn(h) => IntConstraintV::NotIn(h@),
        }
    }
}

impl View for StrConstraint {
    type V = StrConstraintV;

    open spec fn view(&self) -> StrConstraintV {
        match self {
            StrConstraint::Prefix(s) => StrConstraintV::Prefix(s@),
            StrConstraint::Suffix(s) => StrConstraintV::Suffix(s@),
            StrConstraint::Equal(s) => StrConstraintV::Equal(s@),
            StrConstraint::In(h) => StrConstraintV::In(h@.map_values(|s: String| s@)),
            StrConstraint::NotIn(h) => StrConstraintV::NotIn(h@.map_values(|s: String| s@)),
            StrConstraint::Regex(s) => StrConstraintV::Regex(s@),
        }
    }
}

impl View for SymbolConstraint {
    type V = SymbolConstraintV;

    open spec fn view(&self) -> SymbolConstraintV {
        match self {
            SymbolConstraint::In(h) => SymbolConstraintV::In(h@),
            SymbolConstraint::NotIn(h) => SymbolConstraintV::NotIn(h@),
        }
    }
}

impl View for BytesConstraint {
    type V = BytesConstraintV;

    open spec fn view(&self) -> BytesConstraintV {
        match self {
            BytesConstraint::Equal(b) => BytesConstraintV::Equal(b@),
            BytesConstraint::In(h) => BytesConstraintV::In(h@.map_values(|b: Vec<u8>| b@)),
            BytesConstraint::NotIn(h) => BytesConstraintV::NotIn(h@.map_values(|b: Vec<u8>| b@)),
        }
    }
}

impl View for ConstraintKind {
    type V = ConstraintKindV;

    open spec fn view(&self) -> ConstraintKindV {
        match self {
            ConstraintKind::Int(c) => ConstraintKindV::Int(c@),
            ConstraintKind::Str(c) => ConstraintKindV::Str(c@),
            ConstraintKind::Date(c) => ConstraintKindV::Date(*c),
            ConstraintKind::Symbol(c) => ConstraintKindV::Symbol(c@),
            ConstraintKind::Bytes(c) => ConstraintKindV::Bytes(c@),
        }
    }
}

impl View for Constraint {
    type V = ConstraintV;

    open spec fn view(&self) -> ConstraintV {
        ConstraintV { id: self.id, kind: self.kind@ }
    }
}

/// Whether the pattern is a well-formed regular expression that the
/// engine accepts; a function of the pattern characters alone.
pub uninterp spec fn regex_compiles(pattern: Seq<char>) -> bool;

/// Whether the compiled pattern matches anywhere in the haystack; a
/// function of the pattern and haystack characters alone.
pub uninterp spec fn regex_accepts(pattern: Seq<char>, haystack: Seq<char>) -> bool;

/// Relies on `regex::Regex::new` (compiles a pattern, returning an
/// error on an invalid one) and `regex::Regex::is_match` (true iff the
/// regex matches anywhere in the haystack); both results depend on the
/// characters of pattern and haystack alone. An invalid pattern never
/// matches.
#[verifier::external_body]
fn regex_check(pattern: &str, haystack: &str) -> (r: bool)
    ensures
        r == (regex_compiles(pattern@) && regex_accepts(pattern@, haystack@)),
{
    match regex::Regex::new(pattern) {
        Ok(re) => re.is_match(haystack),
        Err(_) => false,
    }
}

/// The result of one constraint test: a constraint aimed at another
/// variable passes; otherwise the test is dispatched on the value's
/// tag, and a tag mismatch fails. A variable value is outside this
/// spec's domain (callers test only ground values).
pub open spec fn check_spec(c: ConstraintV, name: u32, v: IdV) -> bool {
    if name != c.id {
        true
    } else {
        match (v, c.kind) {
            (IdV::Integer(i), ConstraintKindV::Int(ic)) => match ic {
                IntConstraintV::LessThan(j) => i < j,
                IntConstraintV::GreaterThan(j) => i > j,
                IntConstraintV::LessOrEqual(j) => i <= j,
                IntConstraintV::GreaterOrEqual(j) => i >= j,
                IntConstraintV::Equal(j) => i == j,
                IntConstraintV::In(h) => h.contains(i),
                IntConstraintV::NotIn(h) => !h.contains(i),
            },
            (IdV::Str(s), ConstraintKindV::Str(sc)) => match sc {
                StrConstraintV::Prefix(p) => p.is_prefix_of(s),
                StrConstraintV::Suffix(p) => p.is_suffix_of(s),
                StrConstraintV::Equal(s2) => s == s2,
                StrConstraintV::In(h) => h.contains(s),
                StrConstraintV::NotIn(h) => !h.contains(s),
                StrConstraintV::Regex(p) => regex_compiles(p) && regex_accepts(p, s),
            },
            (IdV::Date(d), ConstraintKindV::Date(dc)) => match dc {
                DateConstraint::Before(b) => d <= b,
                DateConstraint::After(b) => d >= b,
            },
            (IdV::Symbol(s), ConstraintKindV::Symbol(sc)) => match sc {
                SymbolConstraintV::In(h) => h.contains(s),
                SymbolConstraintV::NotIn(h) => !h.contains(s),
            },
            (IdV::Bytes(b), ConstraintKindV::Bytes(bc)) => match bc {
                BytesConstraintV::Equal(b2) => b == b2,
                BytesConstraintV::In(h) => h.contains(b),
                BytesConstraintV::NotIn(h) => !h.contains(b),
            },
            _ => false,
        }
    }
}

/// Whether the string `p` is a prefix of `s`, by characters.
pub fn str_starts_with(s: &String, p: &String) -> (r: bool)
    ensures
        r == p@.is_prefix_of(s@),
{
    let slen = s.as_str().unicode_len();
    let plen = p.as_str().unicode_len();
    if plen > slen {
        return false;
    }
    let mut i: usize = 0;
    while i < plen
        invariant
            i <= plen,
            plen == p@.len(),
            slen == s@.len(),
            plen <= slen,
            forall|j: int| 0 <= j < i ==> p@[j] == s@[j],
        decreases plen - i,
    {
        if s.as_str().get_char(i) != p.as_str().get_char(i) {
            return false;
        }
        i = i + 1;
    }
    proof {
        assert(p@ =~= s@.subrange(0, p@.len() as int));
    }
    true
}

/// Whether the string `p` is a suffix of `s`, by characters.
pub fn str_ends_with(s: &String, p: &String) -> (r: bool)
    ensures
        r == p@.is_suffix_of(s@),
{
    let slen = s.as_str().unicode_len();
    let plen = p.as_str().unicode_len();
    if plen > slen {
        return false;
    }
    let off = slen - plen;
    let mut i: usize = 0;
    while i < plen
        invariant
            i <= plen,
            plen == p@.len(),
            slen == s@.len(),
            plen <= slen,
            off == slen - plen,
            forall|j: int| 0 <= j < i ==> p@[j] == s@[off + j],
        decreases plen - i,
    {
        if s.as_str().get_char(off + i) != p.as_str().get_char(i) {
            return false;
        }
        i = i + 1;
    }
    proof {
        assert(p@ =~= s@.subrange(s@.len() - p@.len(), s@.len() as int));
    }
    true
}

/// Membership of an integer in a vector, by value.
pub fn contains_i64(h: &Vec<i64>, x: i64) -> (r: bool)
    ensures
        r == h@.contains(x),
{
    let mut i: usize = 0;
    while i < h.len()
        invariant
            i <= h.len(),
            forall|j: int| 0 <= j < i ==> h@[j] != x,
        decreases h.len() - i,
    {
        if h[i] == x {
            return true;
        }
        i = i + 1;
    }
    false
}

/// Membership of a symbol id in a vector, by value.
pub fn contains_u64(h: &Vec<u64>, x: u64) -> (r: bool)
    ensures
        r == h@.contains(x),
{
    let mut i: usize = 0;
    while i < h.len()
        invariant
            i <= h.len(),
            forall|j: int| 0 <= j < i ==> h@[j] != x,
        decreases h.len() - i,
    {
        if h[i] == x {
            return true;
        }
        i = i + 1;
    }
    false
}

/// Membership of a string in a vector, by content.
pub fn contains_string(h: &Vec<String>, x: &String) -> (r: bool)
    ensures
        r == h@.map_values(|s: String| s@).contains(x@),
{
    let mut i: usize = 0;
    while i < h.len()
        invariant
            i <= h.len(),
            forall|j: int| 0 <= j < i ==> (#[trigger] h@[j])@ != x@,
        decreases h.len() - i,
    {
        if h[i].eq(x) {
            proof {
                assert(h@.map_values(|s: String| s@)[i as int] == h@[i as int]@);
            }
            return true;
        }
        i = i + 1;
    }
    proof {
        let m = h@.map_values(|s: String| s@);
        assert forall|j: int| 0 <= j < m.len() implies m[j] != x@ by {
            assert(m[j] == h@[j]@);
        }
    }
    false
}

/// Membership of a byte vector in a vector of byte vectors, by content.
pub fn contains_bytes(h: &Vec<Vec<u8>>, x: &Vec<u8>) -> (r: bool)
    ensures
        r == h@.map_values(|b: Vec<u8>| b@).contains(x@),
{
    let mut i: usize = 0;
    while i < h.len()
        invariant
            i <= h.len(),
            forall|j: int| 0 <= j < i ==> (#[trigger] h@[j])@ != x@,
        decreases h.len() - i,
    {
        if bytes_eq(&h[i], x) {
            proof {
                assert(h@.map_values(|b: Vec<u8>| b@)[i as int] == h@[i as int]@);
            }
            return true;
        }
        i = i + 1;
    }
    proof {
        let m = h@.map_values(|b: Vec<u8>| b@);
        assert forall|j: int| 0 <= j < m.len() implies m[j] != x@ by {
            assert(m[j] == h@[j]@);
        }
    }
    false
}

impl Constraint {
    /// Tests a candidate binding of `id` to the variable `name`, per
    /// [`check_spec`]. The value must be ground when the constraint
    /// targets `name`: a variable reaching this test is a programmer
    /// error.
    pub fn check(&self, name: u32, id: &ID) -> (r: bool)
        requires
            id@ is Variable ==> name != self.id,
        ensures
            r == check_spec(self@, name, id@),
    {
        if name != self.id {
            return true;
        }

        match (id, &self.kind) {
            (ID::Integer(i), ConstraintKind::Int(c)) => match c {
                IntConstraint::LessThan(j) => *i < *j,
                IntConstraint::GreaterThan(j) => *i > *j,
                IntConstraint::LessOrEqual(j) => *i <= *j,
                IntConstraint::GreaterOrEqual(j) => *i >= *j,
                IntConstraint::Equal(j) => *i == *j,
                IntConstraint::In(h) => contains_i64(h, *i),
                IntConstraint::NotIn(h) => !contains_i64(h, *i),
            },
            (ID::Str(s), ConstraintKind::Str(c)) => match c {
                StrConstraint::Prefix(pref) => str_starts_with(s, pref),
                StrConstraint::Suffix(suff) => str_ends_with(s, suff),
                StrConstraint::Equal(s2) => s.eq(s2),
                StrConstraint::In(h) => contains_string(h, s),
                StrConstraint::NotIn(h) => !contains_string(h, s),
                StrConstraint::Regex(p) => regex_check(p.as_str(), s.as_str()),
            },
            (ID::Date(d), ConstraintKind::Date(c)) => match c {
                DateConstraint::Before(b) => *d <= *b,
                DateConstraint::After(b) => *d >= *b,
            },
            (ID::Symbol(s), ConstraintKind::Symbol(c)) => match c {
                SymbolConstraint::In(h) => contains_u64(h, *s),
                SymbolConstraint::NotIn(h) => !contains_u64(h, *s),
            },
            (ID::Bytes(b), ConstraintKind::Bytes(c)) => match c {
                BytesConstraint::Equal(b2) => bytes_eq(b, b2),
                BytesConstraint::In(h) => contains_bytes(h, b),
                BytesConstraint::NotIn(h) => !contains_bytes(h, b),
            },
            _ => false,
        }
    }
}

/// Element-wise copy of an integer vector.
fn clone_i64s(v: &Vec<i64>) -> (r: Vec<i64>)
    ensures
        r@ == v@,
{
    let mut out: Vec<i64> = Vec::new();
    let mut i: usize = 0;
    while i < v.len()
        invariant
            i <= v.len(),
            out@ == v@.subrange(0, i as int),
        decreases v.len() - i,
    {
        out.push(v[i]);
        i = i + 1;
    }
    proof {
        assert(out@ =~= v@);
    }
    out
}

/// Element-wise copy of a symbol-id vector.
fn clone_u64s(v: &Vec<u64>) -> (r: Vec<u64>)
    ensures
        r@ == v@,
{
    let mut out: Vec<u64> = Vec::new();
    let mut i: usize = 0;
    while i < v.len()
        invariant
            i <= v.len(),
            out@ == v@.subrange(0, i as int),
        decreases v.len() - i,
    {
        out.push(v[i]);
        i = i + 1;
    }
    proof {
        assert(out@ =~= v@);
    }
    out
}

/// Deep copy of a string vector; the content views are preserved.
fn clone_strings(v: &Vec<String>) -> (r: Vec<String>)
    ensures
        r@.map_values(|s: String| s@) == v@.map_values(|s: String| s@),
{
    let mut out: Vec<String> = Vec::new();
    let mut i: usize = 0;
    while i < v.len()
        invariant
            i <= v.len(),
            out@.len() == i,
            forall|j: int| 0 <= j < i ==> out@[j]@ == v@[j]@,
        decreases v.len() - i,
    {
        out.push(v[i].clone());
        i = i + 1;
    }
    proof {
        assert(out@.map_values(|s: String| s@) =~= v@.map_values(|s: String| s@));
    }
    out
}

/// Deep copy of a vector of byte vectors; the content views are
/// preserved.
fn clone_bytes_vecs(v: &Vec<Vec<u8>>) -> (r: Vec<Vec<u8>>)
    ensures
        r@.map_values(|b: Vec<u8>| b@) == v@.map_values(|b: Vec<u8>| b@),
{
    let mut out: Vec<Vec<u8>> = Vec::new();
    let mut i: usize = 0;
    while i < v.len()
        invariant
            i <= v.len(),
            out@.len() == i,
            forall|j: int| 0 <= j < i ==> out@[j]@ == v@[j]@,
        decreases v.len() - i,
    {
        out.push(clone_bytes(&v[i]));
        i = i + 1;
    }
    proof {
        assert(out@.map_values(|b: Vec<u8>| b@) =~= v@.map_values(|b: Vec<u8>| b@));
    }
    out
}

impl Clone for IntConstraint {
    /// Deep copy; the view is preserved.
    fn clone(&self) -> (r: IntConstraint)
        ensures
            r@ == self@,
    {
        match self {
            IntConstraint::LessThan(j) => IntConstraint::LessThan(*j),
            IntConstraint::GreaterThan(j) => IntConstraint::GreaterThan(*j),
            IntConstraint::LessOrEqual(j) => IntConstraint::LessOrEqual(*j),
            IntConstraint::GreaterOrEqual(j) => IntConstraint::GreaterOrEqual(*j),
            IntConstraint::Equal(j) => IntConstraint::Equal(*j),
            IntConstraint::In(h) => IntConstraint::In(clone_i64s(h)),
            IntConstraint::NotIn(h) => IntConstraint::NotIn(clone_i64s(h)),
        }
    }
}

impl Clone for StrConstraint {
    /// Deep copy; the view is preserved.
    fn clone(&self) -> (r: StrConstraint)
        ensures
            r@ == self@,
    {
        match self {
            StrConstraint::Prefix(s) => StrConstraint::Prefix(s.clone()),
            StrConstraint::Suffix(s) => StrConstraint::Suffix(s.clone()),
            StrConstraint::Equal(s) => StrConstraint::Equal(s.clone()),
            StrConstraint::In(h) => StrConstraint::In(clone_strings(h)),
            StrConstraint::NotIn(h) => StrConstraint::NotIn(clone_strings(h)),
            StrConstraint::Regex(s) => StrConstraint::Regex(s.clone()),
        }
    }
}

impl Clone for SymbolConstraint {
    /// Deep copy; the view is preserved.
    fn clone(&self) -> (r: SymbolConstraint)
        ensures
            r@ == self@,
    {
        match self {
            SymbolConstraint::In(h) => SymbolConstraint::In(clone_u64s(h)),
            SymbolConstraint::NotIn(h) => SymbolConstraint::NotIn(clone_u64s(h)),
        }
    }
}

impl Clone for BytesConstraint {
    /// Deep copy; the view is preserved.
    fn clone(&self) -> (r: BytesConstraint)
        ensures
            r@ == self@,
    {
        match self {
            BytesConstraint::Equal(b) => BytesConstraint::Equal(clone_bytes(b)),
            BytesConstraint::In(h) => BytesConstraint::In(clone_bytes_vecs(h)),
            BytesConstraint::NotIn(h) => BytesConstraint::NotIn(clone_bytes_vecs(h)),
        }
    }
}

impl Clone for ConstraintKind {
    /// Deep copy; the view is preserved.
    fn clone(&self) -> (r: ConstraintKind)
        ensures
            r@ == self@,
    {
        match self {
            ConstraintKind::Int(c) => ConstraintKind::Int(c.clone()),
            ConstraintKind::Str(c) => ConstraintKind::Str(c.clone()),
            ConstraintKind::Date(c) => ConstraintKind::Date(c.clone()),
            ConstraintKind::Symbol(c) => ConstraintKind::Symbol(c.clone()),
            ConstraintKind::Bytes(c) => ConstraintKind::Bytes(c.clone()),
        }
    }
}

impl Clone for Constraint {
    /// Deep copy; the view is preserved.
    fn clone(&self) -> (r: Constraint)
        ensures
            r@ == self@,
    {
        Constraint { id: self.id, kind: self.kind.clone() }
    }
}

} // verus!
