//! The geometry blob of a GeoPackage feature: the GeoPackage header
//! followed by the polygons as a well-known-binary multi-polygon with
//! heights, in little-endian byte order.

use vstd::prelude::*;
use crate::geometry::{
    closed_positions, closed_ring, ring_below, ring_vertices, GeometryStore, IndexedPolygon,
};
use crate::text::append_bytes;
use crate::sink::ply::{le_u32s, le_u64s, vertices_bytes, write_u32s_le, write_u64s_le};
use crate::vertex_set::VertexBits;

verus! {

/// The well-known-binary code of a polygon with heights.
pub const WKB_POLYGON_Z: u32 = 1003;

/// The well-known-binary code of a multi-polygon with heights.
pub const WKB_MULTIPOLYGON_Z: u32 = 1006;

/// The header of a geometry blob: the magic `GP`, version 0, the flags
/// for little-endian byte order without an envelope, and the id of the
/// reference system.
pub open spec fn blob_header(srs_id: u32) -> Seq<u8> {
    seq![0x47u8, 0x50u8, 0x00u8, 0x01u8] + le_u32s(seq![srs_id])
}

/// A ring: the number of its points and the points, the ring closed.
pub open spec fn ring_blob(vertices: Seq<VertexBits>, ring: Seq<u32>) -> Seq<u8> {
    le_u32s(seq![closed_ring(ring).len() as u32]) + vertices_bytes(
        ring_vertices(vertices, closed_ring(ring)),
    )
}

/// The first `count` interior rings of a polygon.
pub open spec fn interior_blobs(vertices: Seq<VertexBits>, poly: IndexedPolygon, count: int) -> Seq<
    u8,
>
    decreases count,
{
    if count <= 0 {
        Seq::empty()
    } else {
        interior_blobs(vertices, poly, count - 1) + ring_blob(
            vertices,
            poly.interiors@[count - 1]@,
        )
    }
}

/// A polygon: the byte order, the code of a polygon with heights, the
/// number of its rings, and the rings, the exterior first.
pub open spec fn polygon_blob(vertices: Seq<VertexBits>, poly: IndexedPolygon) -> Seq<u8> {
    seq![0x01u8] + le_u32s(seq![WKB_POLYGON_Z]) + le_u32s(
        seq![(poly.interiors@.len() + 1) as u32],
    ) + ring_blob(vertices, poly.exterior@) + interior_blobs(
        vertices,
        poly,
        poly.interiors@.len() as int,
    )
}

/// The polygons at the first `count` of the places given.
pub open spec fn polygon_blobs(store: GeometryStore, places: Seq<usize>, count: int) -> Seq<u8>
    decreases count,
{
    if count <= 0 {
        Seq::empty()
    } else {
        polygon_blobs(store, places, count - 1) + polygon_blob(
            store.vertices@,
            store.multipolygon.polygons@[places[count - 1] as int],
        )
    }
}

/// The geometry blob for the polygons of the store at the places given:
/// the header, the byte order, the code of a multi-polygon with heights,
/// the number of polygons, and the polygons.
pub open spec fn multipolygon_blob(store: GeometryStore, places: Seq<usize>, srs_id: u32) -> Seq<
    u8,
> {
    blob_header(srs_id) + seq![0x01u8] + le_u32s(seq![WKB_MULTIPOLYGON_Z]) + le_u32s(
        seq![places.len() as u32],
    ) + polygon_blobs(store, places, places.len() as int)
}

/// Appends a 32-bit number in little-endian byte order.
fn push_u32(out: &mut Vec<u8>, value: u32)
    ensures
        final(out)@ == old(out)@ + le_u32s(seq![value]),
{
    let mut numbers: Vec<u32> = Vec::new();
    numbers.push(value);
    assert(numbers@ =~= seq![value]);
    let bytes = write_u32s_le(&numbers);
    append_bytes(out, bytes.as_slice());
}

/// Appends a ring: the number of its points and the points, the ring
/// closed.
fn push_ring(out: &mut Vec<u8>, vertices: &Vec<VertexBits>, ring: &Vec<u32>)
    requires
        ring_below(ring@, vertices@.len() as int),
        ring@.len() < u32::MAX,
    ensures
        final(out)@ == old(out)@ + ring_blob(vertices@, ring@),
{
    let points = closed_positions(vertices, ring);
    push_u32(out, points.len() as u32);
    let ghost head = out@;
    let mut i: usize = 0;
    assert(points@.take(0) =~= Seq::empty());
    assert(out@ =~= head + vertices_bytes(points@.take(0)));
    while i < points.len()
        invariant
            i <= points@.len(),
            out@ == head + vertices_bytes(points@.take(i as int)),
        decreases points@.len() - i,
    {
        let v = points[i];
        let mut numbers: Vec<u64> = Vec::new();
        numbers.push(v.0);
        numbers.push(v.1);
        numbers.push(v.2);
        let bytes = write_u64s_le(&numbers);
        proof {
            assert(numbers@ =~= seq![v.0, v.1, v.2]);
            assert(points@.take(i + 1).drop_last() =~= points@.take(i as int));
            assert(points@.take(i + 1).last() == v);
        }
        append_bytes(out, bytes.as_slice());
        assert(out@ =~= head + vertices_bytes(points@.take(i + 1)));
        i += 1;
    }
    assert(points@.take(points@.len() as int) =~= points@);
    assert(out@ =~= old(out)@ + ring_blob(vertices@, ring@));
}

/// Whether every ring of the polygon has fewer points, and the polygon
/// fewer rings, than 32 bits count.
pub open spec fn countable(poly: IndexedPolygon) -> bool {
    &&& poly.interiors@.len() < u32::MAX
    &&& poly.exterior@.len() < u32::MAX
    &&& forall|j: int|
        0 <= j < poly.interiors@.len() ==> (#[trigger] poly.interiors@[j])@.len() < u32::MAX
}

/// Appends a polygon.
fn push_polygon(out: &mut Vec<u8>, vertices: &Vec<VertexBits>, poly: &IndexedPolygon)
    requires
        poly.below(vertices@.len() as int),
        countable(*poly),
    ensures
        final(out)@ == old(out)@ + polygon_blob(vertices@, *poly),
{
    out.push(0x01);
    assert(out@ =~= old(out)@ + seq![0x01u8]);
    push_u32(out, WKB_POLYGON_Z);
    push_u32(out, (poly.interiors.len() + 1) as u32);
    push_ring(out, vertices, &poly.exterior);
    let ghost head = out@;
    let mut j: usize = 0;
    assert(out@ =~= head + interior_blobs(vertices@, *poly, 0));
    while j < poly.interiors.len()
        invariant
            j <= poly.interiors@.len(),
            poly.below(vertices@.len() as int),
            countable(*poly),
            out@ == head + interior_blobs(vertices@, *poly, j as int),
        decreases poly.interiors@.len() - j,
    {
        assert(ring_below(poly.interiors@[j as int]@, vertices@.len() as int));
        push_ring(out, vertices, &poly.interiors[j]);
        assert(out@ =~= head + interior_blobs(vertices@, *poly, j + 1));
        j += 1;
    }
    assert(out@ =~= old(out)@ + polygon_blob(vertices@, *poly));
}

/// The geometry blob for the polygons of the store at the places given,
/// in the order given, tagged with the reference system `srs_id`.
pub fn write_indexed_multipolygon(store: &GeometryStore, places: &Vec<usize>, srs_id: u32) -> (out:
    Vec<u8>)
    requires
        store.wf(),
        places@.len() <= u32::MAX,
        forall|k: int|
            0 <= k < places@.len() ==> (#[trigger] places@[k]) < store.multipolygon.polygons@.len()
                && countable(store.multipolygon.polygons@[places@[k] as int]),
    ensures
        out@ == multipolygon_blob(*store, places@, srs_id),
{
    let mut out: Vec<u8> = Vec::new();
    out.push(0x47);
    out.push(0x50);
    out.push(0x00);
    out.push(0x01);
    assert(out@ =~= seq![0x47u8, 0x50u8, 0x00u8, 0x01u8]);
    push_u32(&mut out, srs_id);
    out.push(0x01);
    assert(out@ =~= blob_header(srs_id) + seq![0x01u8]);
    push_u32(&mut out, WKB_MULTIPOLYGON_Z);
    push_u32(&mut out, places.len() as u32);
    let ghost head = out@;
    let mut k: usize = 0;
    assert(out@ =~= head + polygon_blobs(*store, places@, 0));
    while k < places.len()
        invariant
            k <= places@.len(),
            store.wf(),
            forall|i: int|
                0 <= i < places@.len() ==> (#[trigger] places@[i])
                    < store.multipolygon.polygons@.len() && countable(
                    store.multipolygon.polygons@[places@[i] as int],
                ),
            out@ == head + polygon_blobs(*store, places@, k as int),
        decreases places@.len() - k,
    {
        let at = places[k];
        assert(store.multipolygon.polygons@[at as int].below(store.vertices@.len() as int));
        push_polygon(&mut out, &store.vertices, &store.multipolygon.polygons[at]);
        assert(out@ =~= head + polygon_blobs(*store, places@, k + 1));
        k += 1;
    }
    assert(out@ =~= multipolygon_blob(*store, places@, srs_id));
    out
}

/// Whether a polygon can be written: its rings have fewer points, and it
/// has fewer rings, than 32 bits count.
pub fn is_countable(poly: &IndexedPolygon) -> (b: bool)
    ensures
        b == countable(*poly),
{
    if poly.interiors.len() >= u32::MAX as usize || poly.exterior.len() >= u32::MAX as usize {
        return false;
    }
    let mut j: usize = 0;
    while j < poly.interiors.len()
        invariant
            j <= poly.interiors@.len(),
            forall|i: int| 0 <= i < j ==> (#[trigger] poly.interiors@[i])@.len() < u32::MAX,
        decreases poly.interiors@.len() - j,
    {
        if poly.interiors[j].len() >= u32::MAX as usize {
            return false;
        }
        j += 1;
    }
    true
}

} // verus!
