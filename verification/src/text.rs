//! Small operations on text and on vectors that the rest of the crate
//! shares.

use vstd::prelude::*;
use std::sync::Arc;
use indexmap::IndexSet;
use ahash::RandomState;

verus! {

/// Whether `s` ends with `suffix`.
pub open spec fn is_suffix(s: Seq<char>, suffix: Seq<char>) -> bool {
    suffix.len() <= s.len() && s.subrange(s.len() - suffix.len(), s.len() as int) == suffix
}

/// Whether `part` occurs somewhere in `s`.
pub open spec fn is_infix(s: Seq<char>, part: Seq<char>) -> bool {
    exists|i: int|
        0 <= i && i + part.len() <= s.len() && #[trigger] s.subrange(i, i + part.len()) == part
}

/// Whether `s` starts with `prefix`.
pub open spec fn is_prefix(s: Seq<char>, prefix: Seq<char>) -> bool {
    prefix.len() <= s.len() && s.subrange(0, prefix.len() as int) == prefix
}

/// `str::starts_with` with a string as the pattern: whether the pattern is
/// a prefix of the string.
#[verifier::external_body]
pub(crate) fn str_starts_with(s: &str, prefix: &str) -> (b: bool)
    ensures
        b == is_prefix(s@, prefix@),
{
    s.starts_with(prefix)
}

/// `str::ends_with` with a string as the pattern: whether the pattern is a
/// suffix of the string.
#[verifier::external_body]
pub(crate) fn str_ends_with(s: &str, suffix: &str) -> (b: bool)
    ensures
        b == is_suffix(s@, suffix@),
{
    s.ends_with(suffix)
}

/// `str::contains` with a string as the pattern: whether the pattern occurs
/// in the string.
#[verifier::external_body]
pub(crate) fn str_contains(s: &str, part: &str) -> (b: bool)
    ensures
        b == is_infix(s@, part@),
{
    s.contains(part)
}

/// `==` on `str`: whether the two strings hold the same text.
#[verifier::external_body]
pub(crate) fn str_eq(a: &str, b: &str) -> (r: bool)
    ensures
        r == (a@ == b@),
{
    a == b
}

/// `Arc::clone`: another handle to the same value.
#[verifier::external_body]
pub(crate) fn share<T>(handle: &Arc<T>) -> (r: Arc<T>)
    ensures
        r == *handle,
{
    Arc::clone(handle)
}

/// The items of `v` in reverse order.
pub fn reversed<T>(v: Vec<T>) -> (r: Vec<T>)
    ensures
        r@ == v@.reverse(),
{
    let mut v = v;
    let ghost v0 = v@;
    let mut r: Vec<T> = Vec::new();
    while v.len() > 0
        invariant
            v@.len() + r@.len() == v0.len(),
            v@ == v0.take(v@.len() as int),
            forall|j: int| 0 <= j < r@.len() ==> r@[j] == v0[v0.len() - 1 - j],
        decreases v@.len(),
    {
        let x = v.pop().unwrap();
        r.push(x);
    }
    assert(r@ =~= v0.reverse());
    r
}

/// Appends the bytes of `src` to `dst`.
pub fn append_bytes(dst: &mut Vec<u8>, src: &[u8])
    ensures
        final(dst)@ == old(dst)@ + src@,
{
    let mut i: usize = 0;
    while i < src.len()
        invariant
            i <= src@.len(),
            dst@ == old(dst)@ + src@.take(i as int),
        decreases src@.len() - i,
    {
        dst.push(src[i]);
        assert(dst@ =~= old(dst)@ + src@.take(i + 1));
        i += 1;
    }
    assert(src@.take(src@.len() as int) =~= src@);
}

/// The decimal digits of a number, as ASCII.
pub open spec fn decimal(n: nat) -> Seq<u8>
    decreases n,
{
    if n < 10 {
        seq![(48 + n) as u8]
    } else {
        decimal(n / 10).push((48 + n % 10) as u8)
    }
}

/// The decimal digits of a number, as ASCII.
pub fn decimal_bytes(n: usize) -> (r: Vec<u8>)
    ensures
        r@ == decimal(n as nat),
{
    let mut digits: Vec<u8> = Vec::new();
    let mut rest = n;
    while rest >= 10
        invariant
            decimal(n as nat) == decimal(rest as nat) + digits@.reverse(),
        decreases rest,
    {
        let d = (rest % 10) as u8 + 48;
        let ghost before = digits@;
        digits.push(d);
        proof {
            assert(decimal(rest as nat) == decimal(rest as nat / 10).push(d));
            assert(digits@.reverse() =~= seq![d] + before.reverse());
            assert(decimal(rest as nat) + before.reverse() =~= decimal(rest as nat / 10)
                + digits@.reverse());
        }
        rest = rest / 10;
    }
    let mut r: Vec<u8> = Vec::new();
    r.push(rest as u8 + 48);
    let mut i = digits.len();
    while i > 0
        invariant
            i <= digits@.len(),
            rest < 10,
            r@ == seq![(48 + rest) as u8] + digits@.reverse().take(digits@.len() - i),
        decreases i,
    {
        i -= 1;
        r.push(digits[i]);
        assert(r@ =~= seq![(48 + rest) as u8] + digits@.reverse().take(digits@.len() - i));
    }
    assert(digits@.reverse().take(digits@.len() as int) =~= digits@.reverse());
    r
}

/// A set of texts in the order of their first appearance. The set is an
/// `indexmap::IndexSet`; what is stated about it is taken on trust from
/// that crate.
pub type TextSet = IndexSet<String, RandomState>;

/// The texts held by a table, in insertion order.
pub uninterp spec fn text_set_items(set: IndexSet<String, RandomState>) -> Seq<Seq<char>>;

/// `IndexSet::default`: the new set holds nothing.
#[verifier::external_body]
pub(crate) fn text_set_new() -> (set: TextSet)
    ensures
        text_set_items(set) == Seq::<Seq<char>>::empty(),
{
    IndexSet::default()
}

/// `IndexSet::len`: the number of texts held.
#[verifier::external_body]
pub(crate) fn text_set_len(set: &TextSet) -> (n: usize)
    ensures
        n == text_set_items(*set).len(),
{
    set.len()
}

/// The views of a list of texts.
pub open spec fn texts(list: Seq<String>) -> Seq<Seq<char>> {
    Seq::new(list.len(), |i: int| list[i]@)
}

/// `IndexSet::iter`, each text copied: the texts in insertion order.
#[verifier::external_body]
pub(crate) fn text_set_to_vec(set: &TextSet) -> (items: Vec<String>)
    ensures
        texts(items@) == text_set_items(*set),
{
    set.iter().cloned().collect()
}

/// `IndexSet::insert_full`: a text already held keeps its place and the
/// set is unchanged; a new one is appended. Either way the index returned
/// is a place at which the text now stands, and the flag says whether it is
/// new.
#[verifier::external_body]
pub(crate) fn text_set_insert_full(set: &mut TextSet, text: String) -> (r: (usize, bool))
    ensures
        r.1 == !text_set_items(*old(set)).contains(text@),
        r.1 ==> text_set_items(*final(set)) == text_set_items(*old(set)).push(text@),
        !r.1 ==> text_set_items(*final(set)) == text_set_items(*old(set)),
        r.0 < text_set_items(*final(set)).len(),
        text_set_items(*final(set))[r.0 as int] == text@,
{
    set.insert_full(text)
}

} // verus!
