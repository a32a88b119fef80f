//! Stanford PLY output: the layout that the triangulator is given, the
//! indexing of the triangle vertices, and the bytes of the file.

use vstd::prelude::*;
use vstd::bytes::{spec_u32_to_le_bytes, spec_u64_to_le_bytes};
use vstd::string::StringSliceAdditionalSpecFns;
use byteorder::{ByteOrder, LittleEndian};
use indexmap::IndexSet;
use ahash::RandomState;
use crate::geometry::{
    interned, lemma_interned, positions, ring_below, ring_vertices, IndexedPolygon,
};
use crate::parameters::Parameters;
use crate::sink::info::{output_parameters, SinkInfo};
use crate::text::{append_bytes, decimal, decimal_bytes};
use crate::transformer::builder::Requirements;
use crate::vertex_set::{
    vertex_set_insert_full, vertex_set_items, vertex_set_new, vertex_set_to_vec, VertexBits,
};

verus! {

/// The provider of the Stanford PLY sink.
pub struct StanfordPlySinkProvider {}

impl StanfordPlySinkProvider {
    /// The id and the name of the sink.
    pub fn info(&self) -> (info: SinkInfo)
        ensures
            info.id_name@ == "ply"@,
            info.name@ == "Stanford PLY"@,
    {
        SinkInfo { id_name: "ply".to_owned(), name: "Stanford PLY".to_owned() }
    }

    /// The options of the sink: the output path.
    pub fn parameters(&self) -> (params: Parameters)
        ensures
            params.entries@.len() == 1,
            params.entries@[0].0@ == "@output"@,
            params.entries@[0].1.description@ == "Output file path"@,
            params.entries@[0].1.required,
            params.entries@[0].1.parameter == crate::parameters::ParameterType::FileSystemPath(
                crate::parameters::FileSystemPathParameter { value: None, must_exist: false },
            ),
    {
        output_parameters()
    }

    /// The sink that writes to the path that the option `@output` holds.
    pub fn create(&self, params: &Parameters) -> (sink: StanfordPlySink)
        requires
            params.spec_path_value("@output"@) is Some,
        ensures
            Some(sink.output_path) == params.spec_path_value("@output"@),
    {
        let output_path = params.path_value("@output");
        StanfordPlySink { output_path: output_path.unwrap().clone() }
    }
}

/// The Stanford PLY sink.
pub struct StanfordPlySink {
    pub output_path: String,
}

impl StanfordPlySink {
    /// What the sink requires of the transform chain: what is required by
    /// default.
    pub fn make_requirements(&self) -> (r: Requirements)
        ensures
            !r.shorten_names_for_shapefile,
            r.mapping_rules is None,
            r.tree_flattening is Off,
            !r.resolve_appearance,
            r.mergedown is RemoveDescendantFeatures,
            r.key_value is Jsonify,
            r.lod_filter.mode is Highest,
            forall|lod: u8| lod < 8 ==> r.lod_filter.mask.spec_has_lod(lod),
    {
        Requirements::default()
    }
}

/// The little-endian bytes of a sequence of 64-bit numbers.
pub open spec fn le_u64s(numbers: Seq<u64>) -> Seq<u8>
    decreases numbers.len(),
{
    if numbers.len() == 0 {
        Seq::empty()
    } else {
        le_u64s(numbers.drop_last()) + spec_u64_to_le_bytes(numbers.last())
    }
}

/// The little-endian bytes of a sequence of 32-bit numbers.
pub open spec fn le_u32s(numbers: Seq<u32>) -> Seq<u8>
    decreases numbers.len(),
{
    if numbers.len() == 0 {
        Seq::empty()
    } else {
        le_u32s(numbers.drop_last()) + spec_u32_to_le_bytes(numbers.last())
    }
}

/// `byteorder::LittleEndian::write_u64_into`, on a buffer of the size it
/// asks for: the numbers in order, each as its eight bytes, the least
/// significant first.
#[verifier::external_body]
pub(crate) fn write_u64s_le(numbers: &Vec<u64>) -> (bytes: Vec<u8>)
    requires
        8 * numbers@.len() <= usize::MAX,
    ensures
        bytes@ == le_u64s(numbers@),
{
    let mut bytes = vec![0u8; 8 * numbers.len()];
    LittleEndian::write_u64_into(numbers, &mut bytes);
    bytes
}

/// `byteorder::LittleEndian::write_u32_into`, on a buffer of the size it
/// asks for: the numbers in order, each as its four bytes, the least
/// significant first.
#[verifier::external_body]
pub(crate) fn write_u32s_le(numbers: &Vec<u32>) -> (bytes: Vec<u8>)
    requires
        4 * numbers@.len() <= usize::MAX,
    ensures
        bytes@ == le_u32s(numbers@),
{
    let mut bytes = vec![0u8; 4 * numbers.len()];
    LittleEndian::write_u32_into(numbers, &mut bytes);
    bytes
}

/// The rings of a polygon laid end to end, as they are stored.
pub open spec fn flat_rings(poly: IndexedPolygon) -> Seq<u32>
    decreases poly.interiors@.len(),
{
    flat_rings_upto(poly, poly.interiors@.len() as int)
}

/// The exterior ring and the first `count` interior rings laid end to end.
pub open spec fn flat_rings_upto(poly: IndexedPolygon, count: int) -> Seq<u32>
    decreases count,
{
    if count <= 0 {
        poly.exterior@
    } else {
        flat_rings_upto(poly, count - 1) + poly.interiors@[count - 1]@
    }
}

/// What the triangulator is given for a polygon: the vertices of all rings
/// laid end to end, and for each interior ring the place at which it
/// starts.
pub struct FlatPolygon {
    pub coords: Vec<VertexBits>,
    pub hole_indices: Vec<u32>,
}

impl FlatPolygon {
    /// The number of vertices of the exterior ring: the place at which the
    /// first interior ring starts, or the number of all vertices where
    /// there is no interior ring.
    pub fn num_outer(&self) -> (n: usize)
        ensures
            n == (if self.hole_indices@.len() > 0 {
                self.hole_indices@[0] as int
            } else {
                self.coords@.len() as int
            }),
    {
        if self.hole_indices.len() > 0 {
            self.hole_indices[0] as usize
        } else {
            self.coords.len()
        }
    }
}

/// Lays the rings of a polygon end to end for the triangulator.
pub fn flatten_polygon(vertices: &Vec<VertexBits>, poly: &IndexedPolygon) -> (flat: FlatPolygon)
    requires
        poly.below(vertices@.len() as int),
        flat_rings(*poly).len() <= u32::MAX,
    ensures
        flat.coords@ == ring_vertices(vertices@, flat_rings(*poly)),
        flat.hole_indices@.len() == poly.interiors@.len(),
        forall|j: int|
            0 <= j < poly.interiors@.len() ==> (#[trigger] flat.hole_indices@[j]) == flat_rings_upto(
                *poly,
                j,
            ).len(),
{
    let mut coords = positions(vertices, &poly.exterior);
    let mut hole_indices: Vec<u32> = Vec::new();
    let mut j: usize = 0;
    proof {
        lemma_flat_rings_grow(*poly, 0, poly.interiors@.len() as int);
    }
    while j < poly.interiors.len()
        invariant
            j <= poly.interiors@.len(),
            poly.below(vertices@.len() as int),
            flat_rings(*poly).len() <= u32::MAX,
            coords@ == ring_vertices(vertices@, flat_rings_upto(*poly, j as int)),
            hole_indices@.len() == j,
            forall|k: int|
                0 <= k < j ==> (#[trigger] hole_indices@[k]) == flat_rings_upto(*poly, k).len(),
        decreases poly.interiors@.len() - j,
    {
        proof {
            lemma_flat_rings_grow(*poly, j as int, poly.interiors@.len() as int);
            assert(ring_below(poly.interiors@[j as int]@, vertices@.len() as int));
        }
        hole_indices.push(coords.len() as u32);
        let ring = positions(vertices, &poly.interiors[j]);
        let ghost before = coords@;
        let mut k: usize = 0;
        while k < ring.len()
            invariant
                k <= ring@.len(),
                coords@ == before + ring@.take(k as int),
            decreases ring@.len() - k,
        {
            coords.push(ring[k]);
            assert(coords@ =~= before + ring@.take(k + 1));
            k += 1;
        }
        assert(ring@.take(ring@.len() as int) =~= ring@);
        assert(coords@ =~= ring_vertices(vertices@, flat_rings_upto(*poly, j + 1)));
        j += 1;
    }
    FlatPolygon { coords, hole_indices }
}

/// Each ring added makes the laid-out rings no shorter.
pub proof fn lemma_flat_rings_grow(poly: IndexedPolygon, a: int, b: int)
    requires
        0 <= a <= b <= poly.interiors@.len(),
    ensures
        flat_rings_upto(poly, a).len() <= flat_rings_upto(poly, b).len(),
    decreases b - a,
{
    if a < b {
        lemma_flat_rings_grow(poly, a, b - 1);
    }
}

/// Gives each vertex of `vertices` the index of the first vertex with the
/// same bits: returns the distinct vertices in the order of their first
/// appearance, and for each vertex given the place of its bits among them.
pub fn index_vertices(vertices: &Vec<VertexBits>) -> (r: (
    IndexSet<VertexBits, RandomState>,
    Vec<u32>,
))
    requires
        vertices@.len() <= u32::MAX,
    ensures
        vertex_set_items(r.0) == interned(Seq::empty(), vertices@),
        vertex_set_items(r.0).no_duplicates(),
        ring_below(r.1@, vertex_set_items(r.0).len() as int),
        ring_vertices(vertex_set_items(r.0), r.1@) == vertices@,
{
    let mut set = vertex_set_new();
    let mut indices: Vec<u32> = Vec::new();
    let mut i: usize = 0;
    assert(vertices@.take(0) =~= Seq::<VertexBits>::empty());
    while i < vertices.len()
        invariant
            i <= vertices@.len(),
            vertices@.len() <= u32::MAX,
            vertex_set_items(set) == interned(Seq::empty(), vertices@.take(i as int)),
            indices@.len() == i,
            ring_below(indices@, vertex_set_items(set).len() as int),
            forall|k: int|
                0 <= k < i ==> vertex_set_items(set)[(#[trigger] indices@[k]) as int]
                    == vertices@[k],
        decreases vertices@.len() - i,
    {
        let ghost before = vertex_set_items(set);
        let (index, _) = vertex_set_insert_full(&mut set, vertices[i]);
        proof {
            lemma_interned(Seq::empty(), vertices@.take(i as int));
            assert(vertices@.take(i + 1).drop_last() =~= vertices@.take(i as int));
            assert(vertices@.take(i + 1).last() == vertices@[i as int]);
            lemma_interned(Seq::empty(), vertices@.take(i + 1));
            assert(before.is_prefix_of(vertex_set_items(set)));
        }
        indices.push(index as u32);
        i += 1;
    }
    proof {
        assert(vertices@.take(vertices@.len() as int) =~= vertices@);
        lemma_interned(Seq::empty(), vertices@);
        assert(ring_vertices(vertex_set_items(set), indices@) =~= vertices@);
    }
    (set, indices)
}

/// The header of a binary little-endian PLY file with `n_verts` vertices
/// of three doubles and `n_faces` faces of vertex indices.
pub open spec fn ply_header(n_verts: nat, n_faces: nat) -> Seq<u8> {
    "ply\nformat binary_little_endian 1.0\nelement vertex ".spec_bytes() + decimal(n_verts)
        + "\nproperty double x\nproperty double y\nproperty double z\nelement face ".spec_bytes()
        + decimal(n_faces)
        + "\nproperty list uchar uint vertex_indices\nend_header\n".spec_bytes()
}

/// The bytes of the vertices: for each vertex its three coordinates, each
/// as eight little-endian bytes.
pub open spec fn vertices_bytes(vertices: Seq<VertexBits>) -> Seq<u8>
    decreases vertices.len(),
{
    if vertices.len() == 0 {
        Seq::empty()
    } else {
        vertices_bytes(vertices.drop_last()) + le_u64s(
            seq![vertices.last().0, vertices.last().1, vertices.last().2],
        )
    }
}

/// The bytes of the first `count` faces: for each face the number 3 in one
/// byte and its three vertex indices, each as four little-endian bytes.
pub open spec fn faces_bytes(indices: Seq<u32>, count: nat) -> Seq<u8>
    decreases count,
{
    if count == 0 {
        Seq::empty()
    } else {
        faces_bytes(indices, (count - 1) as nat) + seq![3u8] + le_u32s(
            indices.subrange(3 * (count - 1), 3 * count as int),
        )
    }
}

/// The bytes of the PLY file for these vertices and these vertex indices,
/// three to a face. Indices left over when the last face is complete are
/// not written.
pub open spec fn ply_file(vertices: Seq<VertexBits>, indices: Seq<u32>) -> Seq<u8> {
    ply_header(vertices.len(), indices.len() / 3) + vertices_bytes(vertices) + faces_bytes(
        indices,
        indices.len() / 3,
    )
}

/// The bytes of the PLY file for the vertices of `vertices`, in their
/// order, and the faces that `indices` describes.
pub fn write_ply(vertices: &IndexSet<VertexBits, RandomState>, indices: &Vec<u32>) -> (out: Vec<u8>)
    ensures
        out@ == ply_file(vertex_set_items(*vertices), indices@),
{
    let items = vertex_set_to_vec(vertices);
    let n_faces = indices.len() / 3;
    let mut out: Vec<u8> = Vec::new();
    append_bytes(&mut out, "ply\nformat binary_little_endian 1.0\nelement vertex ".as_bytes());
    append_bytes(&mut out, decimal_bytes(items.len()).as_slice());
    append_bytes(
        &mut out,
        "\nproperty double x\nproperty double y\nproperty double z\nelement face ".as_bytes(),
    );
    append_bytes(&mut out, decimal_bytes(n_faces).as_slice());
    append_bytes(&mut out, "\nproperty list uchar uint vertex_indices\nend_header\n".as_bytes());
    let ghost header = out@;
    assert(header =~= ply_header(items@.len(), n_faces as nat));

    let mut i: usize = 0;
    assert(items@.take(0) =~= Seq::empty());
    assert(out@ =~= header + vertices_bytes(items@.take(0)));
    while i < items.len()
        invariant
            i <= items@.len(),
            out@ == header + vertices_bytes(items@.take(i as int)),
        decreases items@.len() - i,
    {
        let v = items[i];
        let mut numbers: Vec<u64> = Vec::new();
        numbers.push(v.0);
        numbers.push(v.1);
        numbers.push(v.2);
        let buf = write_u64s_le(&numbers);
        proof {
            assert(numbers@ =~= seq![v.0, v.1, v.2]);
            assert(items@.take(i + 1).drop_last() =~= items@.take(i as int));
            assert(items@.take(i + 1).last() == v);
        }
        append_bytes(&mut out, buf.as_slice());
        assert(out@ =~= header + vertices_bytes(items@.take(i + 1)));
        i += 1;
    }
    assert(items@.take(items@.len() as int) =~= items@);
    let ghost body = out@;

    let n_indices = indices.len();
    let mut f: usize = 0;
    assert(out@ =~= body + faces_bytes(indices@, 0));
    assert(3 * n_faces <= n_indices);
    while f < n_faces
        invariant
            f <= n_faces,
            n_indices == indices@.len(),
            n_faces == indices@.len() / 3,
            3 * n_faces <= n_indices,
            out@ == body + faces_bytes(indices@, f as nat),
        decreases n_faces - f,
    {
        let mut idx: Vec<u32> = Vec::new();
        idx.push(indices[3 * f]);
        idx.push(indices[3 * f + 1]);
        idx.push(indices[3 * f + 2]);
        out.push(3);
        let buf = write_u32s_le(&idx);
        proof {
            assert(idx@ =~= indices@.subrange(3 * f, 3 * (f + 1)));
        }
        append_bytes(&mut out, buf.as_slice());
        assert(out@ =~= body + faces_bytes(indices@, (f + 1) as nat));
        f += 1;
    }
    out
}

} // verus!
