//! The insertion-ordered set of vertices behind the geometry collector.
//!
//! A vertex is a triple of raw IEEE-754 bit patterns, so two vertices are the
//! same exactly when their bits are. The set itself is `indexmap::IndexSet`;
//! what is stated about it here is taken on trust from that crate.

use vstd::prelude::*;
use indexmap::IndexSet;
use ahash::RandomState;

verus! {

/// The bit patterns of the three coordinates of a vertex.
pub type VertexBits = (u64, u64, u64);

/// `indexmap::IndexSet`, opaque to the verifier.
#[verifier::external_type_specification]
#[verifier::external_body]
#[verifier::reject_recursive_types(T)]
#[verifier::reject_recursive_types(S)]
pub struct ExIndexSet<T, S>(IndexSet<T, S>);

/// `ahash::RandomState`, opaque to the verifier.
#[verifier::external_type_specification]
#[verifier::external_body]
pub struct ExAhashRandomState(RandomState);

/// The vertices held by a set, in insertion order.
pub uninterp spec fn vertex_set_items(set: IndexSet<VertexBits, RandomState>) -> Seq<VertexBits>;

/// `IndexSet::default`: the new set holds nothing.
#[verifier::external_body]
pub(crate) fn vertex_set_new() -> (set: IndexSet<VertexBits, RandomState>)
    ensures
        vertex_set_items(set) == Seq::<VertexBits>::empty(),
{
    IndexSet::default()
}

/// `IndexSet::insert_full`: a vertex already held keeps its place and the set
/// is unchanged; a new one is appended. Either way the index returned is a
/// place at which the vertex now stands, and the flag says whether it is new.
#[verifier::external_body]
pub(crate) fn vertex_set_insert_full(set: &mut IndexSet<VertexBits, RandomState>, v: VertexBits) -> (r: (usize, bool))
    ensures
        r.1 == !vertex_set_items(*old(set)).contains(v),
        r.1 ==> vertex_set_items(*final(set)) == vertex_set_items(*old(set)).push(v),
        !r.1 ==> vertex_set_items(*final(set)) == vertex_set_items(*old(set)),
        r.0 < vertex_set_items(*final(set)).len(),
        vertex_set_items(*final(set))[r.0 as int] == v,
{
    set.insert_full(v)
}

/// `IndexSet::len`: the number of vertices held.
#[verifier::external_body]
pub(crate) fn vertex_set_len(set: &IndexSet<VertexBits, RandomState>) -> (n: usize)
    ensures
        n == vertex_set_items(*set).len(),
{
    set.len()
}

/// `IndexSet::truncate`: the first `len` vertices stay, in their order, and
/// the rest is dropped; a `len` beyond the number held changes nothing.
#[verifier::external_body]
pub(crate) fn vertex_set_truncate(set: &mut IndexSet<VertexBits, RandomState>, len: usize)
    ensures
        len < vertex_set_items(*old(set)).len() ==> vertex_set_items(*final(set))
            == vertex_set_items(*old(set)).take(len as int),
        len >= vertex_set_items(*old(set)).len() ==> vertex_set_items(*final(set))
            == vertex_set_items(*old(set)),
{
    set.truncate(len)
}

/// `IndexSet::iter`, collected: the vertices in insertion order.
#[verifier::external_body]
pub(crate) fn vertex_set_to_vec(set: &IndexSet<VertexBits, RandomState>) -> (items: Vec<VertexBits>)
    ensures
        items@ == vertex_set_items(*set),
{
    set.iter().copied().collect()
}


} // verus!
