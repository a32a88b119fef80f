//! The geometry store: a shared vertex buffer, the indexed collections that
//! refer into it, and the collector that fills both while deduplicating
//! vertices.

use vstd::prelude::*;
use indexmap::IndexSet;
use ahash::RandomState;
use crate::crs::{EpsgCode, EPSG_JGD2011_GEOGRAPHIC_3D};
use crate::vertex_set::{
    VertexBits, vertex_set_items, vertex_set_new, vertex_set_insert_full, vertex_set_to_vec, vertex_set_len,
    vertex_set_truncate,
};

verus! {

/// What kind of geometry element the parser is reading.
#[derive(Debug, Clone, Copy)]
pub enum GeometryParseType {
    Geometry,
    Solid,
    MultiSurface,
    MultiCurve,
    MultiPoint,
    Surface,
    Point,
    Triangulated,
}

/// The kind of a stored geometry, which also names the collection it lives in.
#[derive(Debug, Clone, Copy, Hash, PartialEq, Eq, Structural)]
pub enum GeometryType {
    /// Polygons (solids)
    Solid,
    /// Polygons (surfaces)
    Surface,
    /// Polygons (triangles)
    Triangle,
    /// Line-strings
    Curve,
    /// Points
    Point,
}

/// A slice of one collection of a geometry store: `len` items from `pos`.
#[derive(Debug, Clone, Copy, Hash, PartialEq, Eq, Structural)]
pub struct GeometryRef {
    pub ty: GeometryType,
    pub lod: u8,
    pub pos: u32,
    pub len: u32,
}

/// The geometry references of one feature.
pub type GeometryRefs = Vec<GeometryRef>;

/// An identifier that is local to one document.
#[derive(Debug, Clone)]
pub struct LocalId(pub String);

/// The polygons `start..end` of the store that make up the surface `id`.
#[derive(Debug)]
pub struct SurfaceSpan {
    pub id: LocalId,
    pub start: u32,
    pub end: u32,
}

/// A polygon whose rings are sequences of indices into a vertex buffer.
#[derive(Debug)]
pub struct IndexedPolygon {
    pub exterior: Vec<u32>,
    pub interiors: Vec<Vec<u32>>,
}

/// An ordered sequence of indexed polygons.
#[derive(Debug)]
pub struct IndexedMultiPolygon {
    pub polygons: Vec<IndexedPolygon>,
}

/// An ordered sequence of indexed line-strings.
#[derive(Debug)]
pub struct IndexedMultiLineString {
    pub lines: Vec<Vec<u32>>,
}

/// An ordered sequence of indexed points.
#[derive(Debug)]
pub struct IndexedMultiPoint {
    pub points: Vec<u32>,
}

/// Every index of `ring` is below `n`.
pub open spec fn ring_below(ring: Seq<u32>, n: int) -> bool {
    forall|i: int| 0 <= i < ring.len() ==> #[trigger] ring[i] < n
}

/// `ring` with its first index appended, unless it is empty or ends with
/// that index already.
pub open spec fn closed_ring(ring: Seq<u32>) -> Seq<u32> {
    if ring.len() > 0 && ring.last() != ring.first() {
        ring.push(ring.first())
    } else {
        ring
    }
}

/// The vertices that the indices of `ring` name, in order.
pub open spec fn ring_vertices(vertices: Seq<VertexBits>, ring: Seq<u32>) -> Seq<VertexBits> {
    Seq::new(ring.len(), |i: int| vertices[ring[i] as int])
}

/// The views of a list of rings.
pub open spec fn rings_view(rings: Seq<Vec<VertexBits>>) -> Seq<Seq<VertexBits>> {
    Seq::new(rings.len(), |i: int| rings[i]@)
}

/// The views of a list of polygons, each a list of rings.
pub open spec fn polygons_view(polygons: Seq<Vec<Vec<VertexBits>>>) -> Seq<Seq<Seq<VertexBits>>> {
    Seq::new(polygons.len(), |i: int| rings_view(polygons[i]@))
}

/// The vertices that the indices of `ring` name, in order.
pub fn positions(vertices: &Vec<VertexBits>, ring: &Vec<u32>) -> (r: Vec<VertexBits>)
    requires
        ring_below(ring@, vertices@.len() as int),
    ensures
        r@ == ring_vertices(vertices@, ring@),
{
    let mut r: Vec<VertexBits> = Vec::new();
    let mut i: usize = 0;
    while i < ring.len()
        invariant
            i <= ring@.len(),
            ring_below(ring@, vertices@.len() as int),
            r@.len() == i,
            forall|k: int| 0 <= k < i ==> r@[k] == vertices@[ring@[k] as int],
        decreases ring@.len() - i,
    {
        assert(ring@[i as int] < vertices@.len());
        r.push(vertices[ring[i] as usize]);
        i += 1;
    }
    assert(r@ =~= ring_vertices(vertices@, ring@));
    r
}

/// The vertices that the indices of `ring` name, in order, as a closed
/// ring: the first vertex is appended unless the ring is empty or ends with
/// the index of its first vertex already.
pub fn closed_positions(vertices: &Vec<VertexBits>, ring: &Vec<u32>) -> (r: Vec<VertexBits>)
    requires
        ring_below(ring@, vertices@.len() as int),
    ensures
        r@ == ring_vertices(vertices@, closed_ring(ring@)),
{
    let mut r = positions(vertices, ring);
    let n = ring.len();
    if n > 0 && ring[n - 1] != ring[0] {
        assert(ring@[0] < vertices@.len());
        r.push(vertices[ring[0] as usize]);
    }
    assert(r@ =~= ring_vertices(vertices@, closed_ring(ring@)));
    r
}

impl IndexedPolygon {
    /// Whether every index of every ring is below `n`.
    pub fn is_below(&self, n: usize) -> (b: bool)
        ensures
            b == self.below(n as int),
    {
        if !is_ring_below(&self.exterior, n) {
            return false;
        }
        let mut j: usize = 0;
        while j < self.interiors.len()
            invariant
                j <= self.interiors@.len(),
                forall|k: int| 0 <= k < j ==> ring_below(#[trigger] self.interiors@[k]@, n as int),
            decreases self.interiors@.len() - j,
        {
            if !is_ring_below(&self.interiors[j], n) {
                return false;
            }
            j += 1;
        }
        true
    }

    /// The rings of the polygon as closed rings of vertices, the exterior
    /// first.
    pub open spec fn spec_closed_rings(&self, vertices: Seq<VertexBits>) -> Seq<Seq<VertexBits>> {
        Seq::new(
            self.interiors@.len() + 1,
            |j: int|
                if j == 0 {
                    ring_vertices(vertices, closed_ring(self.exterior@))
                } else {
                    ring_vertices(vertices, closed_ring(self.interiors@[j - 1]@))
                },
        )
    }

    /// The rings of the polygon as closed rings of vertices, the exterior
    /// first.
    pub fn closed_rings(&self, vertices: &Vec<VertexBits>) -> (r: Vec<Vec<VertexBits>>)
        requires
            self.below(vertices@.len() as int),
        ensures
            rings_view(r@) == self.spec_closed_rings(vertices@),
    {
        let mut r: Vec<Vec<VertexBits>> = Vec::new();
        r.push(closed_positions(vertices, &self.exterior));
        let mut j: usize = 0;
        while j < self.interiors.len()
            invariant
                j <= self.interiors@.len(),
                self.below(vertices@.len() as int),
                r@.len() == j + 1,
                r@[0]@ == ring_vertices(vertices@, closed_ring(self.exterior@)),
                forall|k: int|
                    1 <= k < j + 1 ==> (#[trigger] r@[k])@ == ring_vertices(
                        vertices@,
                        closed_ring(self.interiors@[k - 1]@),
                    ),
            decreases self.interiors@.len() - j,
        {
            assert(ring_below(self.interiors@[j as int]@, vertices@.len() as int));
            r.push(closed_positions(vertices, &self.interiors[j]));
            j += 1;
        }
        assert(rings_view(r@) =~= self.spec_closed_rings(vertices@));
        r
    }

    /// Every index of every ring is below `n`.
    pub open spec fn below(&self, n: int) -> bool {
        &&& ring_below(self.exterior@, n)
        &&& forall|j: int|
            0 <= j < self.interiors@.len() ==> ring_below(#[trigger] self.interiors@[j]@, n)
    }

    /// The rings of the polygon, the exterior first.
    pub open spec fn rings(&self) -> Seq<Seq<u32>> {
        seq![self.exterior@] + Seq::new(self.interiors@.len(), |j: int| self.interiors@[j]@)
    }
}

/// Whether every index of `ring` is below `n`.
pub fn is_ring_below(ring: &Vec<u32>, n: usize) -> (b: bool)
    ensures
        b == ring_below(ring@, n as int),
{
    let mut i: usize = 0;
    while i < ring.len()
        invariant
            i <= ring@.len(),
            forall|k: int| 0 <= k < i ==> #[trigger] ring@[k] < n,
        decreases ring@.len() - i,
    {
        if ring[i] as usize >= n {
            return false;
        }
        i += 1;
    }
    true
}

impl IndexedMultiPolygon {
    /// An empty collection.
    pub fn new() -> (r: Self)
        ensures
            r.polygons@.len() == 0,
    {
        IndexedMultiPolygon { polygons: Vec::new() }
    }

    /// Every index of every polygon is below `n`.
    pub open spec fn below(&self, n: int) -> bool {
        forall|k: int| 0 <= k < self.polygons@.len() ==> (#[trigger] self.polygons@[k]).below(n)
    }

    /// The number of polygons.
    pub fn len(&self) -> (n: usize)
        ensures
            n == self.polygons@.len(),
    {
        self.polygons.len()
    }

    /// Whether there is no polygon.
    pub fn is_empty(&self) -> (b: bool)
        ensures
            b == (self.polygons@.len() == 0),
    {
        self.polygons.len() == 0
    }

    /// Starts a new polygon with the given exterior ring.
    pub fn add_exterior(&mut self, ring: Vec<u32>)
        ensures
            final(self).polygons@.len() == old(self).polygons@.len() + 1,
            final(self).polygons@.drop_last() == old(self).polygons@,
            final(self).polygons@.last().exterior == ring,
            final(self).polygons@.last().interiors@.len() == 0,
    {
        self.polygons.push(IndexedPolygon { exterior: ring, interiors: Vec::new() });
        assert(self.polygons@.drop_last() =~= old(self).polygons@);
    }

    /// Adds an interior ring to the polygon started last.
    pub fn add_interior(&mut self, ring: Vec<u32>)
        requires
            old(self).polygons@.len() > 0,
        ensures
            final(self).polygons@.len() == old(self).polygons@.len(),
            final(self).polygons@.drop_last() == old(self).polygons@.drop_last(),
            final(self).polygons@.last().exterior == old(self).polygons@.last().exterior,
            final(self).polygons@.last().interiors@ == old(self).polygons@.last().interiors@.push(
                ring,
            ),
    {
        let mut last = self.polygons.pop().unwrap();
        last.interiors.push(ring);
        self.polygons.push(last);
        assert(self.polygons@.drop_last() =~= old(self).polygons@.drop_last());
    }
}

impl IndexedMultiLineString {
    /// An empty collection.
    pub fn new() -> (r: Self)
        ensures
            r.lines@.len() == 0,
    {
        IndexedMultiLineString { lines: Vec::new() }
    }

    /// Every index of every line-string is below `n`.
    pub open spec fn below(&self, n: int) -> bool {
        forall|k: int| 0 <= k < self.lines@.len() ==> ring_below(#[trigger] self.lines@[k]@, n)
    }

    /// The number of line-strings.
    pub fn len(&self) -> (n: usize)
        ensures
            n == self.lines@.len(),
    {
        self.lines.len()
    }
}

impl IndexedMultiPoint {
    /// An empty collection.
    pub fn new() -> (r: Self)
        ensures
            r.points@.len() == 0,
    {
        IndexedMultiPoint { points: Vec::new() }
    }

    /// Every index is below `n`.
    pub open spec fn below(&self, n: int) -> bool {
        ring_below(self.points@, n)
    }

    /// The number of points.
    pub fn len(&self) -> (n: usize)
        ensures
            n == self.points@.len(),
    {
        self.points.len()
    }
}

/// The geometries of one top-level city object and all its children.
#[derive(Debug)]
pub struct GeometryStore {
    /// EPSG code of the coordinate reference system of the vertices
    pub epsg: EpsgCode,
    /// Shared vertex buffer for all geometries
    pub vertices: Vec<VertexBits>,
    /// All polygons, referenced by geometry references
    pub multipolygon: IndexedMultiPolygon,
    /// All line-strings, referenced by geometry references
    pub multilinestring: IndexedMultiLineString,
    /// All points, referenced by geometry references
    pub multipoint: IndexedMultiPoint,
    /// Ring ids of all the polygons' rings
    pub ring_ids: Vec<Option<LocalId>>,
    /// Surface ids and their spans in `multipolygon`
    pub surface_spans: Vec<SurfaceSpan>,
    /// For each ring of `ring_ids`, the material resolved for it, once
    /// appearances were applied
    pub ring_materials: Vec<Option<u32>>,
}

impl GeometryStore {
    /// Every index stored in a collection names a vertex of the buffer.
    pub open spec fn wf(&self) -> bool {
        &&& self.multipolygon.below(self.vertices@.len() as int)
        &&& self.multilinestring.below(self.vertices@.len() as int)
        &&& self.multipoint.below(self.vertices@.len() as int)
    }

    /// No two places of the vertex buffer hold the same bits.
    pub open spec fn is_deduplicated(&self) -> bool {
        self.vertices@.no_duplicates()
    }

    /// Whether every index stored in a collection names a vertex of the
    /// buffer.
    pub fn is_wf(&self) -> (b: bool)
        ensures
            b == self.wf(),
    {
        let n = self.vertices.len();
        let mut k: usize = 0;
        while k < self.multipolygon.polygons.len()
            invariant
                k <= self.multipolygon.polygons@.len(),
                n == self.vertices@.len(),
                forall|i: int|
                    0 <= i < k ==> (#[trigger] self.multipolygon.polygons@[i]).below(n as int),
            decreases self.multipolygon.polygons@.len() - k,
        {
            if !self.multipolygon.polygons[k].is_below(n) {
                return false;
            }
            k += 1;
        }
        let mut l: usize = 0;
        while l < self.multilinestring.lines.len()
            invariant
                l <= self.multilinestring.lines@.len(),
                n == self.vertices@.len(),
                self.multipolygon.below(n as int),
                forall|i: int|
                    0 <= i < l ==> ring_below(#[trigger] self.multilinestring.lines@[i]@, n as int),
            decreases self.multilinestring.lines@.len() - l,
        {
            if !is_ring_below(&self.multilinestring.lines[l], n) {
                return false;
            }
            l += 1;
        }
        is_ring_below(&self.multipoint.points, n)
    }

    /// Whether every reference of `refs` lies within the collection it
    /// refers to.
    pub fn holds_all(&self, refs: &Vec<GeometryRef>) -> (b: bool)
        ensures
            b == (forall|k: int| 0 <= k < refs@.len() ==> self.spec_holds(#[trigger] refs@[k])),
    {
        let mut i: usize = 0;
        while i < refs.len()
            invariant
                i <= refs@.len(),
                forall|k: int| 0 <= k < i ==> self.spec_holds(#[trigger] refs@[k]),
            decreases refs@.len() - i,
        {
            if !self.holds(&refs[i]) {
                return false;
            }
            i += 1;
        }
        true
    }

    /// The length of the collection that geometries of kind `ty` live in.
    pub open spec fn spec_collection_len(&self, ty: GeometryType) -> nat {
        match ty {
            GeometryType::Solid | GeometryType::Surface | GeometryType::Triangle => {
                self.multipolygon.polygons@.len()
            },
            GeometryType::Curve => self.multilinestring.lines@.len(),
            GeometryType::Point => self.multipoint.points@.len(),
        }
    }

    /// The length of the collection that geometries of kind `ty` live in.
    pub fn collection_len(&self, ty: GeometryType) -> (n: usize)
        ensures
            n == self.spec_collection_len(ty),
    {
        match ty {
            GeometryType::Solid | GeometryType::Surface | GeometryType::Triangle => {
                self.multipolygon.len()
            },
            GeometryType::Curve => self.multilinestring.len(),
            GeometryType::Point => self.multipoint.len(),
        }
    }

    /// Whether `r` lies within the collection it refers to.
    pub open spec fn spec_holds(&self, r: GeometryRef) -> bool {
        r.pos + r.len <= self.spec_collection_len(r.ty)
    }

    /// Whether `r` lies within the collection it refers to.
    pub fn holds(&self, r: &GeometryRef) -> (b: bool)
        ensures
            b == self.spec_holds(*r),
    {
        let n = self.collection_len(r.ty);
        r.pos as u64 + r.len as u64 <= n as u64
    }
}

impl Default for GeometryStore {
    /// An empty store with no reference system set.
    fn default() -> (r: Self)
        ensures
            r.epsg == 0,
            r.vertices@.len() == 0,
            r.multipolygon.polygons@.len() == 0,
            r.multilinestring.lines@.len() == 0,
            r.multipoint.points@.len() == 0,
            r.ring_ids@.len() == 0,
            r.surface_spans@.len() == 0,
            r.ring_materials@.len() == 0,
            r.wf(),
            r.is_deduplicated(),
    {
        GeometryStore {
            epsg: 0,
            vertices: Vec::new(),
            multipolygon: IndexedMultiPolygon::new(),
            multilinestring: IndexedMultiLineString::new(),
            multipoint: IndexedMultiPoint::new(),
            ring_ids: Vec::new(),
            surface_spans: Vec::new(),
            ring_materials: Vec::new(),
        }
    }
}

/// `items` after `v` was offered to it: unchanged if it holds `v`, else with
/// `v` appended.
pub open spec fn interned_one(items: Seq<VertexBits>, v: VertexBits) -> Seq<VertexBits> {
    if items.contains(v) {
        items
    } else {
        items.push(v)
    }
}

/// `items` after every vertex of `ring` was offered to it, in order.
pub open spec fn interned(items: Seq<VertexBits>, ring: Seq<VertexBits>) -> Seq<VertexBits>
    decreases ring.len(),
{
    if ring.len() == 0 {
        items
    } else {
        interned_one(interned(items, ring.drop_last()), ring.last())
    }
}

/// Offering vertices that the buffer holds already changes nothing: each
/// is found where it stands, and the buffer does not grow.
pub proof fn lemma_interned_held(items: Seq<VertexBits>, ring: Seq<VertexBits>)
    requires
        forall|i: int| 0 <= i < ring.len() ==> items.contains(#[trigger] ring[i]),
    ensures
        interned(items, ring) == items,
    decreases ring.len(),
{
    if ring.len() > 0 {
        assert forall|i: int| 0 <= i < ring.drop_last().len() implies items.contains(
            #[trigger] ring.drop_last()[i],
        ) by {
            assert(ring.drop_last()[i] == ring[i]);
        }
        lemma_interned_held(items, ring.drop_last());
        assert(items.contains(ring[ring.len() - 1]));
    }
}

/// In a buffer without duplicates a vertex has one index: two places that
/// hold vertices equal bit for bit are one place.
pub proof fn lemma_one_index_per_vertex(items: Seq<VertexBits>, ring: Seq<VertexBits>, i: int, j: int)
    requires
        items.no_duplicates(),
        0 <= i < interned(items, ring).len(),
        0 <= j < interned(items, ring).len(),
        interned(items, ring)[i] == interned(items, ring)[j],
    ensures
        i == j,
{
    lemma_interned(items, ring);
}

/// Offering vertices to a buffer without duplicates keeps what it held in
/// place, adds no duplicate, adds at most one vertex per vertex offered, and
/// leaves every vertex offered in the buffer.
pub proof fn lemma_interned(items: Seq<VertexBits>, ring: Seq<VertexBits>)
    requires
        items.no_duplicates(),
    ensures
        interned(items, ring).no_duplicates(),
        items.is_prefix_of(interned(items, ring)),
        interned(items, ring).len() <= items.len() + ring.len(),
        forall|i: int| 0 <= i < ring.len() ==> interned(items, ring).contains(#[trigger] ring[i]),
    decreases ring.len(),
{
    if ring.len() > 0 {
        let before = interned(items, ring.drop_last());
        lemma_interned(items, ring.drop_last());
        let after = interned(items, ring);
        assert(before.is_prefix_of(after));
        assert forall|i: int| 0 <= i < ring.len() implies after.contains(#[trigger] ring[i]) by {
            if i < ring.len() - 1 {
                assert(ring[i] == ring.drop_last()[i]);
                let k = choose|k: int| 0 <= k < before.len() && before[k] == ring[i];
                assert(after[k] == ring[i]);
            } else {
                if before.contains(ring.last()) {
                } else {
                    assert(after[before.len() as int] == ring.last());
                }
            }
        }
    }
}

/// Temporary storage in which the parser collects geometries.
pub struct GeometryCollector {
    pub vertices: IndexSet<VertexBits, RandomState>,
    pub multipolygon: IndexedMultiPolygon,
    pub multilinestring: IndexedMultiLineString,
    pub multipoint: IndexedMultiPoint,
    /// ring ids of all the polygons' rings
    pub ring_ids: Vec<Option<LocalId>>,
    /// surface polygon spans in `multipolygon`
    pub surface_spans: Vec<SurfaceSpan>,
}

impl GeometryCollector {
    /// The vertices collected so far, in the order of their first appearance.
    pub open spec fn spec_vertices(&self) -> Seq<VertexBits> {
        vertex_set_items(self.vertices)
    }

    /// No vertex is held twice, every vertex has a 32-bit index, and every
    /// index stored names a vertex.
    pub open spec fn wf(&self) -> bool {
        &&& self.spec_vertices().no_duplicates()
        &&& self.spec_vertices().len() <= u32::MAX
        &&& self.multipolygon.below(self.spec_vertices().len() as int)
        &&& self.multilinestring.below(self.spec_vertices().len() as int)
        &&& self.multipoint.below(self.spec_vertices().len() as int)
    }

    /// An empty collector.
    pub fn new() -> (r: Self)
        ensures
            r.wf(),
            r.spec_vertices().len() == 0,
            r.multipolygon.polygons@.len() == 0,
            r.multilinestring.lines@.len() == 0,
            r.multipoint.points@.len() == 0,
            r.ring_ids@.len() == 0,
            r.surface_spans@.len() == 0,
    {
        GeometryCollector {
            vertices: vertex_set_new(),
            multipolygon: IndexedMultiPolygon::new(),
            multilinestring: IndexedMultiLineString::new(),
            multipoint: IndexedMultiPoint::new(),
            ring_ids: Vec::new(),
            surface_spans: Vec::new(),
        }
    }

    /// Offers every vertex of `ring` to the vertex set and returns the index
    /// at which each now stands.
    fn intern_ring(&mut self, ring: &Vec<VertexBits>) -> (indices: Vec<u32>)
        requires
            old(self).wf(),
            old(self).spec_vertices().len() + ring@.len() <= u32::MAX,
        ensures
            final(self).wf(),
            final(self).spec_vertices() == interned(old(self).spec_vertices(), ring@),
            final(self).multipolygon == old(self).multipolygon,
            final(self).multilinestring == old(self).multilinestring,
            final(self).multipoint == old(self).multipoint,
            final(self).ring_ids == old(self).ring_ids,
            final(self).surface_spans == old(self).surface_spans,
            ring_below(indices@, final(self).spec_vertices().len() as int),
            ring_vertices(final(self).spec_vertices(), indices@) == ring@,
    {
        let mut indices: Vec<u32> = Vec::new();
        let mut i: usize = 0;
        assert(ring@.take(0) =~= Seq::<VertexBits>::empty());
        while i < ring.len()
            invariant
                i <= ring@.len(),
                old(self).wf(),
                old(self).spec_vertices().len() + ring@.len() <= u32::MAX,
                self.spec_vertices() == interned(old(self).spec_vertices(), ring@.take(i as int)),
                self.multipolygon == old(self).multipolygon,
                self.multilinestring == old(self).multilinestring,
                self.multipoint == old(self).multipoint,
                self.ring_ids == old(self).ring_ids,
                self.surface_spans == old(self).surface_spans,
                indices@.len() == i,
                ring_below(indices@, self.spec_vertices().len() as int),
                forall|k: int|
                    0 <= k < i ==> self.spec_vertices()[(#[trigger] indices@[k]) as int] == ring@[k],
            decreases ring@.len() - i,
        {
            let ghost before = self.spec_vertices();
            let v = ring[i];
            let r = vertex_set_insert_full(&mut self.vertices, v);
            proof {
                lemma_interned(old(self).spec_vertices(), ring@.take(i as int));
                assert(ring@.take(i + 1).drop_last() =~= ring@.take(i as int));
                assert(ring@.take(i + 1).last() == v);
                lemma_interned(old(self).spec_vertices(), ring@.take(i + 1));
                assert(before.is_prefix_of(self.spec_vertices()));
            }
            indices.push(r.0 as u32);
            i += 1;
        }
        proof {
            assert(ring@.take(ring@.len() as int) =~= ring@);
            lemma_interned(old(self).spec_vertices(), ring@);
            assert(ring_vertices(self.spec_vertices(), indices@) =~= ring@);
            let n = self.spec_vertices().len() as int;
            let m = old(self).spec_vertices().len() as int;
            assert(old(self).spec_vertices().is_prefix_of(self.spec_vertices()));
            assert(m <= n);
        }
        indices
    }

    /// Starts a new polygon whose exterior ring is `ring`, and returns the
    /// position of that polygon. Each vertex is stored once, however often
    /// it is offered.
    pub fn add_exterior_ring(&mut self, ring: &Vec<VertexBits>, ring_id: Option<LocalId>) -> (pos:
        usize)
        requires
            old(self).wf(),
            old(self).spec_vertices().len() + ring@.len() <= u32::MAX,
        ensures
            final(self).wf(),
            final(self).spec_vertices() == interned(old(self).spec_vertices(), ring@),
            old(self).spec_vertices().is_prefix_of(final(self).spec_vertices()),
            pos == old(self).multipolygon.polygons@.len(),
            final(self).multipolygon.polygons@.len() == pos + 1,
            final(self).multipolygon.polygons@.drop_last() == old(self).multipolygon.polygons@,
            ring_vertices(
                final(self).spec_vertices(),
                final(self).multipolygon.polygons@.last().exterior@,
            ) == ring@,
            final(self).multipolygon.polygons@.last().interiors@.len() == 0,
            final(self).ring_ids@ == old(self).ring_ids@.push(ring_id),
            final(self).multilinestring == old(self).multilinestring,
            final(self).multipoint == old(self).multipoint,
            final(self).surface_spans == old(self).surface_spans,
    {
        self.ring_ids.push(ring_id);
        let indices = self.intern_ring(ring);
        proof {
            lemma_interned(old(self).spec_vertices(), ring@);
        }
        self.multipolygon.add_exterior(indices);
        proof {
            let n = self.spec_vertices().len() as int;
            assert forall|k: int| 0 <= k < self.multipolygon.polygons@.len() implies (
            #[trigger] self.multipolygon.polygons@[k]).below(n) by {
                if k < self.multipolygon.polygons@.len() - 1 {
                    assert(self.multipolygon.polygons@[k]
                        == self.multipolygon.polygons@.drop_last()[k]);
                    lemma_polygon_below_grows(
                        old(self).multipolygon.polygons@[k],
                        old(self).spec_vertices().len() as int,
                        n,
                    );
                }
            }
            lemma_lines_below_grow(self.multilinestring, old(self).spec_vertices().len() as int, n);
            lemma_ring_below_grows(self.multipoint.points@, old(self).spec_vertices().len() as int, n);
        }
        self.multipolygon.len() - 1
    }

    /// Starts a new polygon whose exterior ring is `ring`, as
    /// `add_exterior_ring` does, and returns its position, unless the
    /// vertices could then be more than a 32-bit index can name: then
    /// nothing changes and nothing is returned.
    pub fn try_add_exterior_ring(&mut self, ring: &Vec<VertexBits>, ring_id: Option<LocalId>) -> (r:
        Option<usize>)
        requires
            old(self).wf(),
        ensures
            final(self).wf(),
            r is Some == (old(self).spec_vertices().len() + ring@.len() <= u32::MAX),
            r is None ==> *final(self) == *old(self),
            r matches Some(pos) ==> {
                &&& final(self).spec_vertices() == interned(old(self).spec_vertices(), ring@)
                &&& final(self).spec_vertices().no_duplicates()
                &&& old(self).spec_vertices().is_prefix_of(final(self).spec_vertices())
                &&& pos == old(self).multipolygon.polygons@.len()
                &&& final(self).multipolygon.polygons@.len() == pos + 1
                &&& final(self).multipolygon.polygons@.drop_last() == old(
                    self,
                ).multipolygon.polygons@
                &&& ring_vertices(
                    final(self).spec_vertices(),
                    final(self).multipolygon.polygons@.last().exterior@,
                ) == ring@
                &&& final(self).multipolygon.polygons@.last().interiors@.len() == 0
                &&& final(self).ring_ids@ == old(self).ring_ids@.push(ring_id)
                &&& final(self).multilinestring == old(self).multilinestring
                &&& final(self).multipoint == old(self).multipoint
                &&& final(self).surface_spans == old(self).surface_spans
            },
    {
        let held = self.vertex_count();
        // `held` fits in 32 bits, as every vertex has a 32-bit index
        if ring.len() > (u32::MAX as usize) - held {
            return None;
        }
        Some(self.add_exterior_ring(ring, ring_id))
    }

    /// Adds `ring` as an interior ring of the polygon started last.
    pub fn add_interior_ring(&mut self, ring: &Vec<VertexBits>, ring_id: Option<LocalId>)
        requires
            old(self).wf(),
            old(self).multipolygon.polygons@.len() > 0,
            old(self).spec_vertices().len() + ring@.len() <= u32::MAX,
        ensures
            final(self).wf(),
            final(self).spec_vertices() == interned(old(self).spec_vertices(), ring@),
            old(self).spec_vertices().is_prefix_of(final(self).spec_vertices()),
            final(self).multipolygon.polygons@.len() == old(self).multipolygon.polygons@.len(),
            final(self).multipolygon.polygons@.drop_last() == old(
                self,
            ).multipolygon.polygons@.drop_last(),
            final(self).multipolygon.polygons@.last().exterior == old(
                self,
            ).multipolygon.polygons@.last().exterior,
            final(self).multipolygon.polygons@.last().interiors@.drop_last() == old(
                self,
            ).multipolygon.polygons@.last().interiors@,
            final(self).multipolygon.polygons@.last().interiors@.len() == old(
                self,
            ).multipolygon.polygons@.last().interiors@.len() + 1,
            ring_vertices(
                final(self).spec_vertices(),
                final(self).multipolygon.polygons@.last().interiors@.last()@,
            ) == ring@,
            final(self).ring_ids@ == old(self).ring_ids@.push(ring_id),
            final(self).multilinestring == old(self).multilinestring,
            final(self).multipoint == old(self).multipoint,
            final(self).surface_spans == old(self).surface_spans,
    {
        self.ring_ids.push(ring_id);
        let indices = self.intern_ring(ring);
        proof {
            lemma_interned(old(self).spec_vertices(), ring@);
        }
        self.multipolygon.add_interior(indices);
        proof {
            let n = self.spec_vertices().len() as int;
            let m = old(self).spec_vertices().len() as int;
            let last = self.multipolygon.polygons@.last();
            let old_last = old(self).multipolygon.polygons@.last();
            assert(last.interiors@.drop_last() =~= old_last.interiors@);
            assert forall|k: int| 0 <= k < self.multipolygon.polygons@.len() implies (
            #[trigger] self.multipolygon.polygons@[k]).below(n) by {
                if k < self.multipolygon.polygons@.len() - 1 {
                    assert(self.multipolygon.polygons@[k]
                        == self.multipolygon.polygons@.drop_last()[k]);
                    assert(old(self).multipolygon.polygons@[k] == old(
                        self,
                    ).multipolygon.polygons@.drop_last()[k]);
                    lemma_polygon_below_grows(old(self).multipolygon.polygons@[k], m, n);
                } else {
                    lemma_polygon_below_grows(old_last, m, n);
                    assert forall|j: int| 0 <= j < last.interiors@.len() implies ring_below(
                        #[trigger] last.interiors@[j]@,
                        n,
                    ) by {
                        if j < last.interiors@.len() - 1 {
                            assert(last.interiors@[j] == old_last.interiors@[j]);
                        }
                    }
                }
            }
            lemma_lines_below_grow(self.multilinestring, m, n);
            lemma_ring_below_grows(self.multipoint.points@, m, n);
        }
    }

    /// The length of the collection that geometries of kind `ty` live in.
    pub open spec fn spec_collection_len(&self, ty: GeometryType) -> nat {
        match ty {
            GeometryType::Solid | GeometryType::Surface | GeometryType::Triangle => {
                self.multipolygon.polygons@.len()
            },
            GeometryType::Curve => self.multilinestring.lines@.len(),
            GeometryType::Point => self.multipoint.points@.len(),
        }
    }

    /// The length of the collection that geometries of kind `ty` live in.
    pub fn collection_len(&self, ty: GeometryType) -> (n: usize)
        ensures
            n == self.spec_collection_len(ty),
    {
        match ty {
            GeometryType::Solid | GeometryType::Surface | GeometryType::Triangle => {
                self.multipolygon.len()
            },
            GeometryType::Curve => self.multilinestring.len(),
            GeometryType::Point => self.multipoint.len(),
        }
    }

    /// Adds a line-string with the vertices of `line` and returns its
    /// position among the line-strings. Each vertex is stored once, however
    /// often it is offered.
    pub fn add_linestring(&mut self, line: &Vec<VertexBits>) -> (pos: usize)
        requires
            old(self).wf(),
            old(self).spec_vertices().len() + line@.len() <= u32::MAX,
        ensures
            final(self).wf(),
            final(self).spec_vertices() == interned(old(self).spec_vertices(), line@),
            old(self).spec_vertices().is_prefix_of(final(self).spec_vertices()),
            pos == old(self).multilinestring.lines@.len(),
            final(self).multilinestring.lines@.len() == pos + 1,
            final(self).multilinestring.lines@.drop_last() == old(self).multilinestring.lines@,
            ring_vertices(final(self).spec_vertices(), final(self).multilinestring.lines@.last()@)
                == line@,
            final(self).multipolygon == old(self).multipolygon,
            final(self).multipoint == old(self).multipoint,
            final(self).ring_ids == old(self).ring_ids,
            final(self).surface_spans == old(self).surface_spans,
    {
        let indices = self.intern_ring(line);
        proof {
            lemma_interned(old(self).spec_vertices(), line@);
        }
        self.multilinestring.lines.push(indices);
        proof {
            let n = self.spec_vertices().len() as int;
            let m = old(self).spec_vertices().len() as int;
            assert(self.multilinestring.lines@.drop_last() =~= old(self).multilinestring.lines@);
            assert forall|k: int| 0 <= k < self.multipolygon.polygons@.len() implies (
            #[trigger] self.multipolygon.polygons@[k]).below(n) by {
                lemma_polygon_below_grows(old(self).multipolygon.polygons@[k], m, n);
            }
            assert forall|k: int| 0 <= k < self.multilinestring.lines@.len() implies ring_below(
                #[trigger] self.multilinestring.lines@[k]@,
                n,
            ) by {
                if k < self.multilinestring.lines@.len() - 1 {
                    assert(self.multilinestring.lines@[k] == old(self).multilinestring.lines@[k]);
                    lemma_ring_below_grows(old(self).multilinestring.lines@[k]@, m, n);
                }
            }
            lemma_ring_below_grows(self.multipoint.points@, m, n);
        }
        self.multilinestring.len() - 1
    }

    /// Adds a point for each vertex of `points`, in order, and returns the
    /// position of the first among the points. Each vertex is stored once,
    /// however often it is offered.
    pub fn add_points(&mut self, points: &Vec<VertexBits>) -> (pos: usize)
        requires
            old(self).wf(),
            old(self).spec_vertices().len() + points@.len() <= u32::MAX,
        ensures
            final(self).wf(),
            final(self).spec_vertices() == interned(old(self).spec_vertices(), points@),
            old(self).spec_vertices().is_prefix_of(final(self).spec_vertices()),
            pos == old(self).multipoint.points@.len(),
            final(self).multipoint.points@.len() == pos + points@.len(),
            final(self).multipoint.points@.take(pos as int) == old(self).multipoint.points@,
            ring_vertices(
                final(self).spec_vertices(),
                final(self).multipoint.points@.skip(pos as int),
            ) == points@,
            final(self).multipolygon == old(self).multipolygon,
            final(self).multilinestring == old(self).multilinestring,
            final(self).ring_ids == old(self).ring_ids,
            final(self).surface_spans == old(self).surface_spans,
    {
        let pos = self.multipoint.len();
        let mut indices = self.intern_ring(points);
        let ghost added = indices@;
        proof {
            lemma_interned(old(self).spec_vertices(), points@);
        }
        self.multipoint.points.append(&mut indices);
        proof {
            let n = self.spec_vertices().len() as int;
            let m = old(self).spec_vertices().len() as int;
            let after = self.multipoint.points@;
            assert(after.take(pos as int) =~= old(self).multipoint.points@);
            assert(after.skip(pos as int) =~= added);
            assert forall|k: int| 0 <= k < self.multipolygon.polygons@.len() implies (
            #[trigger] self.multipolygon.polygons@[k]).below(n) by {
                lemma_polygon_below_grows(old(self).multipolygon.polygons@[k], m, n);
            }
            lemma_lines_below_grow(self.multilinestring, m, n);
            assert forall|k: int| 0 <= k < after.len() implies #[trigger] after[k] < n by {
                if k < pos {
                    assert(after[k] == old(self).multipoint.points@[k]);
                } else {
                    assert(after[k] == added[k - pos]);
                }
            }
        }
        pos
    }

    /// Drops the line-strings from the place `lines` on, and the points
    /// from the place `points` on. The vertices stay.
    pub fn truncate_lines_and_points(&mut self, lines: usize, points: usize)
        requires
            old(self).wf(),
        ensures
            final(self).wf(),
            final(self).spec_vertices() == old(self).spec_vertices(),
            final(self).multilinestring.lines@ == old(self).multilinestring.lines@.take(
                if lines <= old(self).multilinestring.lines@.len() {
                    lines as int
                } else {
                    old(self).multilinestring.lines@.len() as int
                },
            ),
            final(self).multipoint.points@ == old(self).multipoint.points@.take(
                if points <= old(self).multipoint.points@.len() {
                    points as int
                } else {
                    old(self).multipoint.points@.len() as int
                },
            ),
            final(self).multipolygon == old(self).multipolygon,
            final(self).ring_ids == old(self).ring_ids,
            final(self).surface_spans == old(self).surface_spans,
    {
        self.multilinestring.lines.truncate(lines);
        self.multipoint.points.truncate(points);
        proof {
            assert(self.multilinestring.lines@ =~= old(self).multilinestring.lines@.take(
                if lines <= old(self).multilinestring.lines@.len() {
                    lines as int
                } else {
                    old(self).multilinestring.lines@.len() as int
                },
            ));
            assert(self.multipoint.points@ =~= old(self).multipoint.points@.take(
                if points <= old(self).multipoint.points@.len() {
                    points as int
                } else {
                    old(self).multipoint.points@.len() as int
                },
            ));
            let n = self.spec_vertices().len() as int;
            assert forall|k: int| 0 <= k < self.multilinestring.lines@.len() implies ring_below(
                #[trigger] self.multilinestring.lines@[k]@,
                n,
            ) by {
                assert(self.multilinestring.lines@[k] == old(self).multilinestring.lines@[k]);
            }
            assert forall|k: int| 0 <= k < self.multipoint.points@.len() implies (
            #[trigger] self.multipoint.points@[k]) < n by {
                assert(self.multipoint.points@[k] == old(self).multipoint.points@[k]);
            }
        }
    }

    /// Drops the polygons from the place `polygons` on, and the ring ids
    /// from the place `rings` on. The vertices stay.
    pub fn truncate(&mut self, polygons: usize, rings: usize)
        requires
            old(self).wf(),
        ensures
            final(self).wf(),
            final(self).spec_vertices() == old(self).spec_vertices(),
            final(self).multipolygon.polygons@ == old(self).multipolygon.polygons@.take(
                if polygons <= old(self).multipolygon.polygons@.len() {
                    polygons as int
                } else {
                    old(self).multipolygon.polygons@.len() as int
                },
            ),
            final(self).ring_ids@ == old(self).ring_ids@.take(
                if rings <= old(self).ring_ids@.len() {
                    rings as int
                } else {
                    old(self).ring_ids@.len() as int
                },
            ),
            final(self).multilinestring == old(self).multilinestring,
            final(self).multipoint == old(self).multipoint,
            final(self).surface_spans == old(self).surface_spans,
    {
        self.multipolygon.polygons.truncate(polygons);
        self.ring_ids.truncate(rings);
        proof {
            assert(self.multipolygon.polygons@ =~= old(self).multipolygon.polygons@.take(
                if polygons <= old(self).multipolygon.polygons@.len() {
                    polygons as int
                } else {
                    old(self).multipolygon.polygons@.len() as int
                },
            ));
            assert(self.ring_ids@ =~= old(self).ring_ids@.take(
                if rings <= old(self).ring_ids@.len() {
                    rings as int
                } else {
                    old(self).ring_ids@.len() as int
                },
            ));
            let n = self.spec_vertices().len() as int;
            assert forall|k: int| 0 <= k < self.multipolygon.polygons@.len() implies (
            #[trigger] self.multipolygon.polygons@[k]).below(n) by {
                assert(self.multipolygon.polygons@[k] == old(self).multipolygon.polygons@[k]);
            }
        }
    }

    /// The number of vertices held.
    pub fn vertex_count(&self) -> (n: usize)
        ensures
            n == self.spec_vertices().len(),
    {
        vertex_set_len(&self.vertices)
    }

    /// Drops the vertices from the place `len` on; the others keep their
    /// places. Nothing that is collected may name a vertex that is dropped.
    pub fn truncate_vertices(&mut self, len: usize)
        requires
            old(self).wf(),
            old(self).multipolygon.below(len as int),
            old(self).multilinestring.below(len as int),
            old(self).multipoint.below(len as int),
        ensures
            final(self).wf(),
            final(self).spec_vertices() == old(self).spec_vertices().take(
                if len <= old(self).spec_vertices().len() {
                    len as int
                } else {
                    old(self).spec_vertices().len() as int
                },
            ),
            final(self).multipolygon == old(self).multipolygon,
            final(self).multilinestring == old(self).multilinestring,
            final(self).multipoint == old(self).multipoint,
            final(self).ring_ids == old(self).ring_ids,
            final(self).surface_spans == old(self).surface_spans,
    {
        vertex_set_truncate(&mut self.vertices, len);
        proof {
            let before = old(self).spec_vertices();
            assert(before.take(before.len() as int) =~= before);
        }
    }

    /// Turns what was collected into a geometry store in JGD2011
    /// geographic 3D. The vertex buffer is the set's vertices in order, so
    /// it holds no duplicate and every stored index keeps its meaning.
    pub fn into_geometries(self) -> (store: GeometryStore)
        requires
            self.wf(),
        ensures
            store.epsg == EPSG_JGD2011_GEOGRAPHIC_3D,
            store.vertices@ == self.spec_vertices(),
            store.multipolygon == self.multipolygon,
            store.multilinestring == self.multilinestring,
            store.multipoint == self.multipoint,
            store.ring_ids == self.ring_ids,
            store.surface_spans == self.surface_spans,
            store.ring_materials@.len() == 0,
            store.wf(),
            store.is_deduplicated(),
    {
        let vertices = vertex_set_to_vec(&self.vertices);
        GeometryStore {
            epsg: EPSG_JGD2011_GEOGRAPHIC_3D,
            vertices,
            multipolygon: self.multipolygon,
            multilinestring: self.multilinestring,
            multipoint: self.multipoint,
            ring_ids: self.ring_ids,
            surface_spans: self.surface_spans,
            ring_materials: Vec::new(),
        }
    }
}

proof fn lemma_ring_below_grows(ring: Seq<u32>, m: int, n: int)
    requires
        ring_below(ring, m),
        m <= n,
    ensures
        ring_below(ring, n),
{
}

proof fn lemma_polygon_below_grows(p: IndexedPolygon, m: int, n: int)
    requires
        p.below(m),
        m <= n,
    ensures
        p.below(n),
{
    assert forall|j: int| 0 <= j < p.interiors@.len() implies ring_below(
        #[trigger] p.interiors@[j]@,
        n,
    ) by {
        lemma_ring_below_grows(p.interiors@[j]@, m, n);
    }
}

proof fn lemma_lines_below_grow(l: IndexedMultiLineString, m: int, n: int)
    requires
        l.below(m),
        m <= n,
    ensures
        l.below(n),
{
    assert forall|k: int| 0 <= k < l.lines@.len() implies ring_below(#[trigger] l.lines@[k]@, n) by {
        lemma_ring_below_grows(l.lines@[k]@, m, n);
    }
}

/// Whether geometries of this kind are polygons.
pub open spec fn is_polygonal(ty: GeometryType) -> bool {
    ty is Solid || ty is Surface || ty is Triangle
}

/// Every reference lies within the collection of the store that it refers
/// to.
pub open spec fn all_hold(store: GeometryStore, refs: Seq<GeometryRef>) -> bool {
    forall|k: int| 0 <= k < refs.len() ==> store.spec_holds(#[trigger] refs[k])
}

} // verus!
