//! GeoJSON output: the features that stand for an entity, with positions
//! as bit patterns, and the framing of a feature collection.

use vstd::prelude::*;
use vstd::string::StringSliceAdditionalSpecFns;
use crate::geometry::{
    all_hold, closed_positions, is_polygonal, polygons_view, positions, ring_vertices,
    rings_view, GeometryRef, GeometryStore, GeometryType,
};
use crate::object::{Entity, ObjectStereotype, StereotypeModel, Value, ValueModel};
use crate::parameters::Parameters;
use crate::sink::info::{output_parameters, SinkInfo};
use crate::transformer::builder::{MergedownSpec, Requirements};
use crate::text::append_bytes;
use crate::vertex_set::VertexBits;

verus! {

/// The provider of the GeoJSON sink.
pub struct GeoJsonSinkProvider {}

impl GeoJsonSinkProvider {
    /// The id and the name of the sink.
    pub fn info(&self) -> (info: SinkInfo)
        ensures
            info.id_name@ == "geojson"@,
            info.name@ == "GeoJSON"@,
    {
        SinkInfo { id_name: "geojson".to_owned(), name: "GeoJSON".to_owned() }
    }

    /// The options of the sink: the output path.
    pub fn parameters(&self) -> (params: Parameters)
        ensures
            params.entries@.len() == 1,
            params.entries@[0].0@ == "@output"@,
            params.entries@[0].1.description@ == "Output file path"@,
            params.entries@[0].1.required,
            params.entries@[0].1.parameter == crate::parameters::ParameterType::FileSystemPath(
                crate::parameters::FileSystemPathParameter { value: None, must_exist: false },
            ),
    {
        output_parameters()
    }

    /// The sink that writes to the path that the option `@output` holds.
    pub fn create(&self, params: &Parameters) -> (sink: GeoJsonSink)
        requires
            params.spec_path_value("@output"@) is Some,
        ensures
            Some(sink.output_path) == params.spec_path_value("@output"@),
    {
        let output_path = params.path_value("@output");
        GeoJsonSink { output_path: output_path.unwrap().clone() }
    }
}

/// The GeoJSON sink.
pub struct GeoJsonSink {
    pub output_path: String,
}

impl GeoJsonSink {
    /// What the sink requires of the transform chain: the geometries of
    /// descendants merged into the root, the descendants retained;
    /// everything else as by default.
    pub fn make_transform_requirements(&self) -> (r: Requirements)
        ensures
            r.mergedown is RetainDescendantFeatures,
            !r.shorten_names_for_shapefile,
            r.mapping_rules is None,
            r.tree_flattening is Off,
            !r.resolve_appearance,
            r.key_value is Jsonify,
            r.lod_filter.mode is Highest,
            forall|lod: u8| lod < 8 ==> r.lod_filter.mask.spec_has_lod(lod),
    {
        let mut r = Requirements::default();
        r.mergedown = MergedownSpec::RetainDescendantFeatures;
        r
    }
}

/// The geometry of a GeoJSON feature.
#[derive(Debug)]
pub enum GeoJsonGeometry {
    /// Polygons, each a list of closed rings, the exterior first
    MultiPolygon(Vec<Vec<Vec<VertexBits>>>),
    /// Line-strings
    MultiLineString(Vec<Vec<VertexBits>>),
    /// Points
    MultiPoint(Vec<VertexBits>),
}

/// A GeoJSON feature without its properties.
#[derive(Debug)]
pub struct GeoJsonFeature {
    /// The bounding box, as the bit patterns of its numbers, if one is given
    pub bbox: Option<Vec<u64>>,
    pub geometry: GeoJsonGeometry,
    pub id: String,
    /// Members that a feature need not have, as serialized JSON, if any
    /// are given
    pub foreign_members: Option<Vec<u8>>,
}

/// What a [`GeoJsonGeometry`] holds.
pub enum GeometryModel {
    MultiPolygon(Seq<Seq<Seq<VertexBits>>>),
    MultiLineString(Seq<Seq<VertexBits>>),
    MultiPoint(Seq<VertexBits>),
}

/// What a [`GeoJsonFeature`] holds.
pub struct FeatureModel {
    pub bbox: Option<Seq<u64>>,
    pub geometry: GeometryModel,
    pub id: Seq<char>,
    pub foreign_members: Option<Seq<u8>>,
}

impl View for GeoJsonGeometry {
    type V = GeometryModel;

    open spec fn view(&self) -> GeometryModel {
        match self {
            GeoJsonGeometry::MultiPolygon(p) => GeometryModel::MultiPolygon(polygons_view(p@)),
            GeoJsonGeometry::MultiLineString(l) => GeometryModel::MultiLineString(rings_view(l@)),
            GeoJsonGeometry::MultiPoint(p) => GeometryModel::MultiPoint(p@),
        }
    }
}

impl View for GeoJsonFeature {
    type V = FeatureModel;

    open spec fn view(&self) -> FeatureModel {
        FeatureModel {
            bbox: match self.bbox {
                Some(b) => Some(b@),
                None => None,
            },
            geometry: self.geometry@,
            id: self.id@,
            foreign_members: match self.foreign_members {
                Some(m) => Some(m@),
                None => None,
            },
        }
    }
}

/// The models of a list of features.
pub open spec fn feature_models(features: Seq<GeoJsonFeature>) -> Seq<FeatureModel> {
    Seq::new(features.len(), |i: int| features[i]@)
}

/// The polygons `pos..pos + len` of the store, each as its closed rings.
pub open spec fn polygons_in(store: GeometryStore, pos: int, len: int) -> Seq<
    Seq<Seq<VertexBits>>,
> {
    Seq::new(
        len as nat,
        |k: int| store.multipolygon.polygons@[pos + k].spec_closed_rings(store.vertices@),
    )
}

/// The line-strings `pos..pos + len` of the store.
pub open spec fn lines_in(store: GeometryStore, pos: int, len: int) -> Seq<Seq<VertexBits>> {
    Seq::new(
        len as nat,
        |k: int| ring_vertices(store.vertices@, store.multilinestring.lines@[pos + k]@),
    )
}

/// The points `pos..pos + len` of the store.
pub open spec fn points_in(store: GeometryStore, pos: int, len: int) -> Seq<VertexBits> {
    Seq::new(len as nat, |k: int| store.vertices@[store.multipoint.points@[pos + k] as int])
}

/// The polygons that the polygonal references of `refs` select, in the
/// order of the references.
pub open spec fn polygons_of(store: GeometryStore, refs: Seq<GeometryRef>) -> Seq<
    Seq<Seq<VertexBits>>,
>
    decreases refs.len(),
{
    if refs.len() == 0 {
        Seq::empty()
    } else {
        polygons_of(store, refs.drop_last()) + (if is_polygonal(refs.last().ty) {
            polygons_in(store, refs.last().pos as int, refs.last().len as int)
        } else {
            Seq::empty()
        })
    }
}

/// The line-strings that the references to curves select.
pub open spec fn lines_of(store: GeometryStore, refs: Seq<GeometryRef>) -> Seq<Seq<VertexBits>>
    decreases refs.len(),
{
    if refs.len() == 0 {
        Seq::empty()
    } else {
        lines_of(store, refs.drop_last()) + (if refs.last().ty is Curve {
            lines_in(store, refs.last().pos as int, refs.last().len as int)
        } else {
            Seq::empty()
        })
    }
}

/// The points that the references to points select.
pub open spec fn points_of(store: GeometryStore, refs: Seq<GeometryRef>) -> Seq<VertexBits>
    decreases refs.len(),
{
    if refs.len() == 0 {
        Seq::empty()
    } else {
        points_of(store, refs.drop_last()) + (if refs.last().ty is Point {
            points_in(store, refs.last().pos as int, refs.last().len as int)
        } else {
            Seq::empty()
        })
    }
}

/// The feature with this geometry and id, without a bounding box and
/// without members of its own.
pub open spec fn plain_feature(geometry: GeometryModel, id: Seq<char>) -> FeatureModel {
    FeatureModel { bbox: None, geometry, id, foreign_members: None }
}

/// The features that stand for a feature with this id and these
/// references: one for its polygons, one for its line-strings and one for
/// its points, in this order, each only if there is such a geometry. None
/// has a bounding box or members of its own.
pub open spec fn features_of(store: GeometryStore, id: Seq<char>, refs: Seq<GeometryRef>) -> Seq<
    FeatureModel,
> {
    (if polygons_of(store, refs).len() > 0 {
        seq![plain_feature(GeometryModel::MultiPolygon(polygons_of(store, refs)), id)]
    } else {
        Seq::empty()
    }) + (if lines_of(store, refs).len() > 0 {
        seq![plain_feature(GeometryModel::MultiLineString(lines_of(store, refs)), id)]
    } else {
        Seq::empty()
    }) + (if points_of(store, refs).len() > 0 {
        seq![plain_feature(GeometryModel::MultiPoint(points_of(store, refs)), id)]
    } else {
        Seq::empty()
    })
}

/// The polygons that the polygonal references of `refs` select, each as
/// its closed rings of vertices.
pub fn collect_polygons(store: &GeometryStore, refs: &Vec<GeometryRef>) -> (r: Vec<
    Vec<Vec<VertexBits>>,
>)
    requires
        store.wf(),
        all_hold(*store, refs@),
    ensures
        polygons_view(r@) == polygons_of(*store, refs@),
{
    let mut polygons: Vec<Vec<Vec<VertexBits>>> = Vec::new();
    let mut i: usize = 0;
    assert(refs@.take(0) =~= Seq::empty());
    assert(polygons_view(polygons@) =~= Seq::empty());
    while i < refs.len()
        invariant
            i <= refs@.len(),
            store.wf(),
            all_hold(*store, refs@),
            polygons_view(polygons@) == polygons_of(*store, refs@.take(i as int)),
        decreases refs@.len() - i,
    {
        let entry = refs[i];
        let ghost before = polygons_view(polygons@);
        proof {
            assert(refs@.take(i + 1).drop_last() =~= refs@.take(i as int));
            assert(refs@.take(i + 1).last() == entry);
            assert(store.spec_holds(refs@[i as int]));
        }
        match entry.ty {
            GeometryType::Solid | GeometryType::Surface | GeometryType::Triangle => {
                let n = store.multipolygon.polygons.len();
                let mut k: u32 = 0;
                assert(polygons_view(polygons@) =~= before + polygons_in(
                    *store,
                    entry.pos as int,
                    0,
                ));
                while k < entry.len
                    invariant
                        k <= entry.len,
                        store.wf(),
                        is_polygonal(entry.ty),
                        store.spec_holds(entry),
                        n == store.multipolygon.polygons@.len(),
                        entry.pos + entry.len <= n,
                        polygons_view(polygons@) == before + polygons_in(
                            *store,
                            entry.pos as int,
                            k as int,
                        ),
                    decreases entry.len - k,
                {
                    let ghost done = polygons_view(polygons@);
                    let at = entry.pos as usize + k as usize;
                    assert(store.multipolygon.polygons@[at as int].below(
                        store.vertices@.len() as int,
                    ));
                    let rings = store.multipolygon.polygons[at].closed_rings(&store.vertices);
                    polygons.push(rings);
                    assert(polygons_view(polygons@) =~= done.push(rings_view(rings@)));
                    k += 1;
                    assert(polygons_view(polygons@) =~= before + polygons_in(
                        *store,
                        entry.pos as int,
                        k as int,
                    ));
                }
            },
            _ => {
                assert(polygons_view(polygons@) =~= before + Seq::empty());
            },
        }
        i += 1;
    }
    assert(refs@.take(refs@.len() as int) =~= refs@);
    polygons
}

/// The line-strings that the references to curves select.
pub fn collect_lines(store: &GeometryStore, refs: &Vec<GeometryRef>) -> (r: Vec<Vec<VertexBits>>)
    requires
        store.wf(),
        all_hold(*store, refs@),
    ensures
        rings_view(r@) == lines_of(*store, refs@),
{
    let mut lines: Vec<Vec<VertexBits>> = Vec::new();
    let mut i: usize = 0;
    assert(refs@.take(0) =~= Seq::empty());
    assert(rings_view(lines@) =~= Seq::empty());
    while i < refs.len()
        invariant
            i <= refs@.len(),
            store.wf(),
            all_hold(*store, refs@),
            rings_view(lines@) == lines_of(*store, refs@.take(i as int)),
        decreases refs@.len() - i,
    {
        let entry = refs[i];
        let ghost before = rings_view(lines@);
        proof {
            assert(refs@.take(i + 1).drop_last() =~= refs@.take(i as int));
            assert(refs@.take(i + 1).last() == entry);
            assert(store.spec_holds(refs@[i as int]));
        }
        match entry.ty {
            GeometryType::Curve => {
                let n = store.multilinestring.lines.len();
                let mut k: u32 = 0;
                assert(rings_view(lines@) =~= before + lines_in(*store, entry.pos as int, 0));
                while k < entry.len
                    invariant
                        k <= entry.len,
                        store.wf(),
                        entry.ty is Curve,
                        store.spec_holds(entry),
                        n == store.multilinestring.lines@.len(),
                        entry.pos + entry.len <= n,
                        rings_view(lines@) == before + lines_in(
                            *store,
                            entry.pos as int,
                            k as int,
                        ),
                    decreases entry.len - k,
                {
                    let at = entry.pos as usize + k as usize;
                    let ghost done = rings_view(lines@);
                    assert(crate::geometry::ring_below(
                        store.multilinestring.lines@[at as int]@,
                        store.vertices@.len() as int,
                    ));
                    let line = positions(&store.vertices, &store.multilinestring.lines[at]);
                    lines.push(line);
                    assert(rings_view(lines@) =~= done.push(line@));
                    k += 1;
                    assert(rings_view(lines@) =~= before + lines_in(
                        *store,
                        entry.pos as int,
                        k as int,
                    ));
                }
            },
            _ => {
                assert(rings_view(lines@) =~= before + Seq::empty());
            },
        }
        i += 1;
    }
    assert(refs@.take(refs@.len() as int) =~= refs@);
    lines
}

/// The points that the references to points select.
pub fn collect_points(store: &GeometryStore, refs: &Vec<GeometryRef>) -> (r: Vec<VertexBits>)
    requires
        store.wf(),
        all_hold(*store, refs@),
    ensures
        r@ == points_of(*store, refs@),
{
    let mut points: Vec<VertexBits> = Vec::new();
    let mut i: usize = 0;
    assert(refs@.take(0) =~= Seq::empty());
    while i < refs.len()
        invariant
            i <= refs@.len(),
            store.wf(),
            all_hold(*store, refs@),
            points@ == points_of(*store, refs@.take(i as int)),
        decreases refs@.len() - i,
    {
        let entry = refs[i];
        let ghost before = points@;
        proof {
            assert(refs@.take(i + 1).drop_last() =~= refs@.take(i as int));
            assert(refs@.take(i + 1).last() == entry);
            assert(store.spec_holds(refs@[i as int]));
        }
        match entry.ty {
            GeometryType::Point => {
                let n = store.multipoint.points.len();
                let mut k: u32 = 0;
                assert(points@ =~= before + points_in(*store, entry.pos as int, 0));
                while k < entry.len
                    invariant
                        k <= entry.len,
                        store.wf(),
                        entry.ty is Point,
                        store.spec_holds(entry),
                        n == store.multipoint.points@.len(),
                        entry.pos + entry.len <= n,
                        points@ == before + points_in(*store, entry.pos as int, k as int),
                    decreases entry.len - k,
                {
                    let at = entry.pos as usize + k as usize;
                    assert(store.multipoint.points@[at as int] < store.vertices@.len());
                    let index = store.multipoint.points[at] as usize;
                    points.push(store.vertices[index]);
                    k += 1;
                    assert(points@ =~= before + points_in(*store, entry.pos as int, k as int));
                }
            },
            _ => {
                assert(points@ =~= before + Seq::empty());
            },
        }
        i += 1;
    }
    assert(refs@.take(refs@.len() as int) =~= refs@);
    points
}

/// The GeoJSON features that stand for a top-level city object: one for
/// its polygons, one for its line-strings and one for its points, each
/// only if it has such a geometry. An object that is no feature gives
/// none.
pub fn toplevel_cityobj_to_geojson_features(entity: &Entity) -> (features: Vec<GeoJsonFeature>)
    requires
        entity.root is Object,
        entity@.geometry_store.wf(),
        entity.root->Object_0.stereotype matches ObjectStereotype::Feature { geometries, .. }
            ==> all_hold(entity@.geometry_store, geometries@),
    ensures
        feature_models(features@) == (match entity.root->Object_0.stereotype {
            ObjectStereotype::Feature { id, geometries } => features_of(
                entity@.geometry_store,
                id@,
                geometries@,
            ),
            _ => Seq::empty(),
        }),
{
    let mut geojson_features: Vec<GeoJsonFeature> = Vec::new();
    let geom_store: &GeometryStore = &entity.geometry_store;

    let Value::Object(obj) = &entity.root else {
        return geojson_features;
    };
    let ObjectStereotype::Feature { id, geometries } = &obj.stereotype else {
        assert(feature_models(geojson_features@) =~= Seq::empty());
        return geojson_features;
    };

    let polygons = collect_polygons(geom_store, geometries);
    let linestrings = collect_lines(geom_store, geometries);
    let points = collect_points(geom_store, geometries);

    if polygons.len() > 0 {
        geojson_features.push(
            GeoJsonFeature {
                bbox: None,
                geometry: GeoJsonGeometry::MultiPolygon(polygons),
                id: id.clone(),
                foreign_members: None,
            },
        );
    }
    if linestrings.len() > 0 {
        geojson_features.push(
            GeoJsonFeature {
                bbox: None,
                geometry: GeoJsonGeometry::MultiLineString(linestrings),
                id: id.clone(),
                foreign_members: None,
            },
        );
    }
    if points.len() > 0 {
        geojson_features.push(
            GeoJsonFeature {
                bbox: None,
                geometry: GeoJsonGeometry::MultiPoint(points),
                id: id.clone(),
                foreign_members: None,
            },
        );
    }
    assert(feature_models(geojson_features@) =~= features_of(*geom_store, id@, geometries@));
    geojson_features
}

/// The serialized features joined by commas.
pub open spec fn joined(features: Seq<Seq<u8>>) -> Seq<u8>
    decreases features.len(),
{
    if features.len() == 0 {
        Seq::empty()
    } else if features.len() == 1 {
        features[0]
    } else {
        joined(features.drop_last()) + ",".spec_bytes() + features.last()
    }
}

/// The bytes of a feature collection that holds the serialized features
/// given, in order.
pub open spec fn feature_collection(features: Seq<Seq<u8>>) -> Seq<u8> {
    "{\"type\":\"FeatureCollection\",\"features\":[".spec_bytes() + joined(features)
        + "]}\n".spec_bytes()
}

/// The views of a list of byte strings.
pub open spec fn bytes_view(items: Seq<Vec<u8>>) -> Seq<Seq<u8>> {
    Seq::new(items.len(), |i: int| items[i]@)
}

/// Frames serialized features as a feature collection: the header, the
/// features with a comma between each two, and the footer with the end of
/// the line.
pub fn write_feature_collection(features: &Vec<Vec<u8>>) -> (out: Vec<u8>)
    ensures
        out@ == feature_collection(bytes_view(features@)),
{
    let ghost items = bytes_view(features@);
    let mut out: Vec<u8> = Vec::new();
    // Write the FeatureCollection header
    append_bytes(&mut out, "{\"type\":\"FeatureCollection\",\"features\":[".as_bytes());
    let ghost header = out@;

    // Write each Feature
    let mut i: usize = 0;
    assert(items.take(0) =~= Seq::empty());
    assert(out@ =~= header + joined(items.take(0)));
    while i < features.len()
        invariant
            i <= features@.len(),
            items == bytes_view(features@),
            out@ == header + joined(items.take(i as int)),
        decreases features@.len() - i,
    {
        proof {
            assert(items.take(i + 1).drop_last() =~= items.take(i as int));
            assert(items.take(i + 1).last() == features@[i as int]@);
            if i == 0 {
                assert(items.take(1)[0] == features@[0]@);
            }
        }
        if i > 0 {
            append_bytes(&mut out, ",".as_bytes());
        }
        append_bytes(&mut out, features[i].as_slice());
        assert(out@ =~= header + joined(items.take(i + 1)));
        i += 1;
    }
    assert(items.take(items.len() as int) =~= items);

    // Write the FeautureCollection footer and EOL
    append_bytes(&mut out, "]}\n".as_bytes());
    out
}

/// The bytes that open a feature collection.
pub open spec fn collection_head() -> Seq<u8> {
    "{\"type\":\"FeatureCollection\",\"features\":[".spec_bytes()
}

/// The framing of a feature collection that is written piece by piece,
/// each feature as it arrives.
pub struct FeatureCollectionWriter {
    /// Whether a feature was written
    any: bool,
    features: Ghost<Seq<Seq<u8>>>,
    written: Ghost<Seq<u8>>,
}

impl FeatureCollectionWriter {
    /// The serialized features taken so far, in order.
    pub closed spec fn features(&self) -> Seq<Seq<u8>> {
        self.features@
    }

    /// All the bytes handed out so far.
    pub closed spec fn written(&self) -> Seq<u8> {
        self.written@
    }

    /// What was handed out is the head of the collection and the features
    /// taken, with a comma between each two.
    pub closed spec fn wf(&self) -> bool {
        &&& self.written@ == collection_head() + joined(self.features@)
        &&& self.any == (self.features@.len() > 0)
    }

    /// Starts a collection: returns the writer and the bytes that open the
    /// collection.
    pub fn begin() -> (r: (Self, Vec<u8>))
        ensures
            r.0.wf(),
            r.0.features() == Seq::<Seq<u8>>::empty(),
            r.0.written() == r.1@,
            r.1@ == collection_head(),
    {
        let mut out: Vec<u8> = Vec::new();
        append_bytes(&mut out, "{\"type\":\"FeatureCollection\",\"features\":[".as_bytes());
        let writer = FeatureCollectionWriter {
            any: false,
            features: Ghost(Seq::empty()),
            written: Ghost(out@),
        };
        assert(out@ =~= collection_head() + joined(Seq::<Seq<u8>>::empty()));
        (writer, out)
    }

    /// Takes one serialized feature: returns the bytes that follow what
    /// was handed out before, a comma first unless the feature is the
    /// first.
    pub fn feature(&mut self, bytes: &[u8]) -> (chunk: Vec<u8>)
        requires
            old(self).wf(),
        ensures
            final(self).wf(),
            final(self).features() == old(self).features().push(bytes@),
            final(self).written() == old(self).written() + chunk@,
            chunk@ == (if old(self).features().len() == 0 {
                bytes@
            } else {
                ",".spec_bytes() + bytes@
            }),
    {
        let mut chunk: Vec<u8> = Vec::new();
        if self.any {
            append_bytes(&mut chunk, ",".as_bytes());
        }
        append_bytes(&mut chunk, bytes);
        proof {
            let before = self.features@;
            let after = before.push(bytes@);
            assert(after.drop_last() =~= before);
            assert(after.last() == bytes@);
            if before.len() == 0 {
                assert(after[0] == bytes@);
                assert(joined(before) =~= Seq::<u8>::empty());
            }
            assert(self.written@ + chunk@ =~= collection_head() + joined(after));
            self.features = Ghost(after);
            self.written = Ghost(self.written@ + chunk@);
        }
        self.any = true;
        chunk
    }

    /// Ends the collection: returns the bytes that close it. All that was
    /// handed out, these bytes last, is the feature collection of the
    /// features taken.
    pub fn end(self) -> (chunk: Vec<u8>)
        requires
            self.wf(),
        ensures
            self.written() + chunk@ == feature_collection(self.features()),
            chunk@ == "]}\n".spec_bytes(),
    {
        let mut chunk: Vec<u8> = Vec::new();
        append_bytes(&mut chunk, "]}\n".as_bytes());
        assert(self.written() + chunk@ =~= feature_collection(self.features()));
        chunk
    }
}

} // verus!
