//! The geometry policies of the reader of city models: how the name of a
//! geometry property tells its level of detail, how the numbers of a list
//! of positions become vertices, and how the geometries of a feature are
//! collected so that the highest level of detail wins.
//!
//! The reader is driven from outside: whoever walks the document tells it
//! where features and geometry properties start and end, and hands it the
//! rings.

use vstd::prelude::*;
use vstd::string::StrSliceExecFns;
use crate::entries::{find_entry, has_key, key_index, named};
use crate::crs::EPSG_JGD2011_GEOGRAPHIC_3D;
use crate::geometry::{
    interned, ring_below, ring_vertices, GeometryCollector, GeometryParseType, GeometryRef,
    GeometryStore, GeometryType, LocalId,
};
use crate::object::{Code, Value, ValueModel};
use crate::parameters::{parse_integer, parsed_integer};
use crate::pipeline::ParseError;
use crate::schema::{
    attribute_map_entries, attribute_map_get_index, attribute_map_len, Attribute, AttributeMap,
    TypeDef, TypeRef, TypeRefModel,
};
use crate::text::{str_eq, text_set_insert_full, text_set_items, text_set_new, TextSet};
use crate::vertex_set::VertexBits;

verus! {

/// The level of detail that the name of a geometry property tells: the
/// digit that follows `lod` at the start of the name.
pub open spec fn spec_lod_of(name: Seq<char>) -> Option<u8> {
    if name.len() >= 4 && name[0] == 'l' && name[1] == 'o' && name[2] == 'd' && '0' <= name[3]
        <= '9' {
        Some((name[3] as u8 - '0' as u8) as u8)
    } else {
        None
    }
}

/// The level of detail that the name of a geometry property tells:
/// `lod2Solid` is of level 2. A name of another form tells none.
pub fn lod_of_property(local_name: &str) -> (lod: Option<u8>)
    ensures
        lod == spec_lod_of(local_name@),
        lod matches Some(l) ==> l <= 9,
{
    if local_name.unicode_len() < 4 {
        return None;
    }
    if local_name.get_char(0) != 'l' || local_name.get_char(1) != 'o' || local_name.get_char(2)
        != 'd' {
        return None;
    }
    let c = local_name.get_char(3);
    if '0' <= c && c <= '9' {
        Some(c as u8 - '0' as u8)
    } else {
        None
    }
}

/// The kind of geometry that a GML element holds, by its local name.
pub open spec fn spec_geometry_of(name: Seq<char>) -> Option<GeometryParseType> {
    if name == "Solid"@ {
        Some(GeometryParseType::Solid)
    } else if name == "MultiSurface"@ {
        Some(GeometryParseType::MultiSurface)
    } else if name == "MultiCurve"@ {
        Some(GeometryParseType::MultiCurve)
    } else if name == "MultiPoint"@ {
        Some(GeometryParseType::MultiPoint)
    } else if name == "Polygon"@ {
        Some(GeometryParseType::Surface)
    } else if name == "Point"@ {
        Some(GeometryParseType::Point)
    } else if name == "TriangulatedSurface"@ || name == "Tin"@ {
        Some(GeometryParseType::Triangulated)
    } else {
        None
    }
}

/// The kind of geometry that a GML element holds, by its local name; `None`
/// for an element that holds no geometry of its own.
pub fn geometry_of_element(local_name: &str) -> (r: Option<GeometryParseType>)
    ensures
        r == spec_geometry_of(local_name@),
{
    if str_eq(local_name, "Solid") {
        Some(GeometryParseType::Solid)
    } else if str_eq(local_name, "MultiSurface") {
        Some(GeometryParseType::MultiSurface)
    } else if str_eq(local_name, "MultiCurve") {
        Some(GeometryParseType::MultiCurve)
    } else if str_eq(local_name, "MultiPoint") {
        Some(GeometryParseType::MultiPoint)
    } else if str_eq(local_name, "Polygon") {
        Some(GeometryParseType::Surface)
    } else if str_eq(local_name, "Point") {
        Some(GeometryParseType::Point)
    } else if str_eq(local_name, "TriangulatedSurface") || str_eq(local_name, "Tin") {
        Some(GeometryParseType::Triangulated)
    } else {
        None
    }
}

/// The level of detail and the kind of geometry that the name of a
/// geometry property tells: the level is the digit that follows `lod`, and
/// the kind is told by what follows the digit, a geometry of no special
/// kind where that names none. `lod2MultiSurface` is a multi-surface of
/// level 2.
pub open spec fn spec_property_geometry(name: Seq<char>) -> Option<(u8, GeometryParseType)> {
    match spec_lod_of(name) {
        Some(lod) => Some(
            (
                lod,
                match spec_geometry_of(name.subrange(4, name.len() as int)) {
                    Some(kind) => kind,
                    None => GeometryParseType::Geometry,
                },
            ),
        ),
        None => None,
    }
}

/// The level of detail and the kind of geometry that the name of a
/// geometry property tells; `None` for a name that is not that of a
/// geometry property.
pub fn property_geometry(local_name: &str) -> (r: Option<(u8, GeometryParseType)>)
    ensures
        r == spec_property_geometry(local_name@),
{
    match lod_of_property(local_name) {
        Some(lod) => {
            let rest = local_name.substring_char(4, local_name.unicode_len());
            let kind = match geometry_of_element(rest) {
                Some(kind) => kind,
                None => GeometryParseType::Geometry,
            };
            Some((lod, kind))
        },
        None => None,
    }
}

/// The elements within a geometry that the reader acts on.
#[derive(Debug, Clone, Copy, PartialEq, Eq, Structural)]
pub enum RingPart {
    /// What follows is the exterior ring
    Exterior,
    /// What follows is an interior ring
    Interior,
    /// A ring, which may have an id
    LinearRing,
    /// The positions of a ring or of a line-string
    PosList,
    /// The position of a point
    Pos,
}

impl RingPart {
    /// Whether the text of the element holds positions.
    pub open spec fn spec_holds_positions(self) -> bool {
        self is PosList || self is Pos
    }

    /// Whether the text of the element holds positions.
    pub fn holds_positions(self) -> (b: bool)
        ensures
            b == self.spec_holds_positions(),
    {
        match self {
            RingPart::PosList | RingPart::Pos => true,
            _ => false,
        }
    }
}

/// The part of a geometry that an element is, by its local name.
pub open spec fn spec_ring_part(name: Seq<char>) -> Option<RingPart> {
    if name == "exterior"@ {
        Some(RingPart::Exterior)
    } else if name == "interior"@ {
        Some(RingPart::Interior)
    } else if name == "LinearRing"@ {
        Some(RingPart::LinearRing)
    } else if name == "posList"@ {
        Some(RingPart::PosList)
    } else if name == "pos"@ {
        Some(RingPart::Pos)
    } else {
        None
    }
}

/// The part of a geometry that an element is, by its local name; `None`
/// for any other element.
pub fn ring_part_of(local_name: &str) -> (r: Option<RingPart>)
    ensures
        r == spec_ring_part(local_name@),
{
    if str_eq(local_name, "exterior") {
        Some(RingPart::Exterior)
    } else if str_eq(local_name, "interior") {
        Some(RingPart::Interior)
    } else if str_eq(local_name, "LinearRing") {
        Some(RingPart::LinearRing)
    } else if str_eq(local_name, "posList") {
        Some(RingPart::PosList)
    } else if str_eq(local_name, "pos") {
        Some(RingPart::Pos)
    } else {
        None
    }
}

/// What the reader knows of the ring that it is about to read.
pub struct RingContext {
    /// Whether the ring is an interior ring
    pub interior: bool,
    /// The id of the ring, if it has one
    pub ring_id: Option<LocalId>,
    /// How many numbers make a position of the ring
    pub srs_dimension: u8,
}

impl RingContext {
    /// Before any element: an exterior ring without an id, with three
    /// numbers to a position.
    pub fn new() -> (r: Self)
        ensures
            !r.interior,
            r.ring_id is None,
            r.srs_dimension == 3,
    {
        RingContext { interior: false, ring_id: None, srs_dimension: 3 }
    }

    /// An element starts, with the id and the dimension that it gives, if
    /// it gives any. `exterior` and `interior` say which ring follows, a
    /// `LinearRing` gives the ring its id, and a `posList` or a `pos`
    /// gives the dimension, which is three where it gives none. Any other
    /// element changes nothing.
    pub fn on_start(&mut self, local_name: &str, id: Option<String>, srs_dimension: Option<u8>)
        ensures
            match spec_ring_part(local_name@) {
                Some(RingPart::Exterior) => *final(self) == (RingContext {
                    interior: false,
                    ..*old(self)
                }),
                Some(RingPart::Interior) => *final(self) == (RingContext {
                    interior: true,
                    ..*old(self)
                }),
                Some(RingPart::LinearRing) => *final(self) == (RingContext {
                    ring_id: match id {
                        Some(text) => Some(LocalId(text)),
                        None => None,
                    },
                    ..*old(self)
                }),
                Some(RingPart::PosList) | Some(RingPart::Pos) => *final(self) == (RingContext {
                    srs_dimension: match srs_dimension {
                        Some(d) => d,
                        None => 3,
                    },
                    ..*old(self)
                }),
                None => *final(self) == *old(self),
            },
    {
        match ring_part_of(local_name) {
            Some(RingPart::Exterior) => {
                self.interior = false;
            },
            Some(RingPart::Interior) => {
                self.interior = true;
            },
            Some(RingPart::LinearRing) => {
                self.ring_id = match id {
                    Some(text) => Some(LocalId(text)),
                    None => None,
                };
            },
            Some(RingPart::PosList) | Some(RingPart::Pos) => {
                self.srs_dimension = match srs_dimension {
                    Some(d) => d,
                    None => 3,
                };
            },
            None => {},
        }
    }
}

/// The kind under which the polygons of a geometry are stored.
pub open spec fn spec_stored_as(parse_type: GeometryParseType) -> GeometryType {
    match parse_type {
        GeometryParseType::Solid => GeometryType::Solid,
        GeometryParseType::Triangulated => GeometryType::Triangle,
        GeometryParseType::MultiCurve => GeometryType::Curve,
        GeometryParseType::MultiPoint | GeometryParseType::Point => GeometryType::Point,
        _ => GeometryType::Surface,
    }
}

/// The kind under which the polygons of a geometry are stored: solids as
/// solids, triangulated sets as triangles, any other surface as surfaces.
pub fn stored_as(parse_type: GeometryParseType) -> (ty: GeometryType)
    ensures
        ty == spec_stored_as(parse_type),
{
    match parse_type {
        GeometryParseType::Solid => GeometryType::Solid,
        GeometryParseType::Triangulated => GeometryType::Triangle,
        GeometryParseType::MultiCurve => GeometryType::Curve,
        GeometryParseType::MultiPoint | GeometryParseType::Point => GeometryType::Point,
        _ => GeometryType::Surface,
    }
}

/// The vertices that a list of positions gives. The numbers come as
/// latitude, longitude and height; a vertex holds longitude, latitude and
/// height. With two numbers to a position the height is zero.
pub open spec fn positions_of(numbers: Seq<u64>, dimension: int) -> Seq<VertexBits> {
    Seq::new(
        (numbers.len() / dimension as nat) as nat,
        |i: int|
            (
                numbers[i * dimension + 1],
                numbers[i * dimension],
                if dimension == 3 {
                    numbers[i * dimension + 2]
                } else {
                    0u64
                },
            ),
    )
}

/// Whether a list of so many numbers is a list of positions of the
/// dimension given: the dimension is 2 or 3 and the numbers come out even.
pub open spec fn is_position_list(count: nat, dimension: int) -> bool {
    (dimension == 2 || dimension == 3) && count % (dimension as nat) == 0
}

/// What is named as invalid in a list of positions that is none: the
/// dimension, if it is neither 2 nor 3, and else the list.
pub open spec fn position_fault(dimension: int) -> Seq<char> {
    if dimension == 2 || dimension == 3 {
        "posList"@
    } else {
        "srsDimension"@
    }
}

/// Groups the numbers of a list of positions, given as bit patterns, into
/// vertices, swapping latitude and longitude. A dimension other than 2 or
/// 3, and numbers that do not come out even, are an invalid value.
pub fn positions_from_numbers(numbers: &Vec<u64>, srs_dimension: u8) -> (r: Result<
    Vec<VertexBits>,
    ParseError,
>)
    ensures
        r is Ok == is_position_list(numbers@.len(), srs_dimension as int),
        r matches Ok(v) ==> v@ == positions_of(numbers@, srs_dimension as int),
        r matches Err(e) ==> e matches ParseError::InvalidValue(what) && what@ == position_fault(
            srs_dimension as int,
        ),
{
    if srs_dimension != 2 && srs_dimension != 3 {
        return Err(ParseError::InvalidValue("srsDimension".to_owned()));
    }
    let mut vertices: Vec<VertexBits> = Vec::new();
    if srs_dimension == 3 {
        if numbers.len() % 3 != 0 {
            return Err(ParseError::InvalidValue("posList".to_owned()));
        }
        let total = numbers.len();
        let n = total / 3;
        let mut i: usize = 0;
        assert(n * 3 == total);
        while i < n
            invariant
                i <= n,
                total == numbers@.len(),
                n * 3 == total,
                n == numbers@.len() / 3,
                numbers@.len() % 3 == 0,
                vertices@.len() == i,
                forall|k: int|
                    0 <= k < i ==> #[trigger] vertices@[k] == positions_of(numbers@, 3)[k],
            decreases n - i,
        {
            vertices.push((numbers[i * 3 + 1], numbers[i * 3], numbers[i * 3 + 2]));
            i += 1;
        }
    } else {
        if numbers.len() % 2 != 0 {
            return Err(ParseError::InvalidValue("posList".to_owned()));
        }
        let total = numbers.len();
        let n = total / 2;
        let mut i: usize = 0;
        assert(n * 2 == total);
        while i < n
            invariant
                i <= n,
                total == numbers@.len(),
                n * 2 == total,
                n == numbers@.len() / 2,
                numbers@.len() % 2 == 0,
                vertices@.len() == i,
                forall|k: int|
                    0 <= k < i ==> #[trigger] vertices@[k] == positions_of(numbers@, 2)[k],
            decreases n - i,
        {
            vertices.push((numbers[i * 2 + 1], numbers[i * 2], 0));
            i += 1;
        }
    }
    assert(vertices@ =~= positions_of(numbers@, srs_dimension as int));
    Ok(vertices)
}

/// The lengths of the collections of a store at one moment.
pub struct Marks {
    pub polygons: int,
    pub lines: int,
    pub points: int,
    pub rings: int,
    pub vertices: int,
}

impl Marks {
    /// The length of the collection that geometries of kind `ty` live in.
    pub open spec fn count(self, ty: GeometryType) -> int {
        match ty {
            GeometryType::Solid | GeometryType::Surface | GeometryType::Triangle => self.polygons,
            GeometryType::Curve => self.lines,
            GeometryType::Point => self.points,
        }
    }

    /// No length is above the length that `other` has for it.
    pub open spec fn le(self, other: Marks) -> bool {
        &&& self.polygons <= other.polygons
        &&& self.lines <= other.lines
        &&& self.points <= other.points
        &&& self.rings <= other.rings
        &&& self.vertices <= other.vertices
    }
}

/// The lengths of the collections of a collector as it stands.
pub open spec fn end_marks(collector: GeometryCollector) -> Marks {
    Marks {
        polygons: collector.multipolygon.polygons@.len() as int,
        lines: collector.multilinestring.lines@.len() as int,
        points: collector.multipoint.points@.len() as int,
        rings: collector.ring_ids@.len() as int,
        vertices: collector.spec_vertices().len() as int,
    }
}

/// The geometries of one feature while it is read.
pub struct FeatureFrame {
    /// The references collected for the feature
    pub refs: Vec<GeometryRef>,
    /// The level of detail of these references: the highest met so far
    pub best: Option<u8>,
    /// The number of polygons of the store when the feature started
    pub start_polygons: usize,
    /// The number of line-strings of the store when the feature started
    pub start_lines: usize,
    /// The number of points of the store when the feature started
    pub start_points: usize,
    /// The number of ring ids of the store when the feature started
    pub start_rings: usize,
    /// The number of vertices of the store when the feature started
    pub start_vertices: usize,
    /// Whether all that the store holds from these starts on is of this
    /// feature
    pub own_tail: bool,
}

impl FeatureFrame {
    /// The lengths of the collections when the feature started.
    pub open spec fn marks(&self) -> Marks {
        Marks {
            polygons: self.start_polygons as int,
            lines: self.start_lines as int,
            points: self.start_points as int,
            rings: self.start_rings as int,
            vertices: self.start_vertices as int,
        }
    }
}

/// The geometry property that is being read.
pub struct OpenProperty {
    pub lod: u8,
    pub ty: GeometryType,
    /// The length, when the property started, of the collection that
    /// geometries of its kind live in
    pub start: usize,
    /// Whether the property is passed over, being of a lower level than
    /// one read before
    pub skipped: bool,
    /// Whether a geometry element was met in the property
    pub seen: bool,
}

/// Whether what was collected before a feature started names only vertices
/// that were held then.
pub open spec fn start_ok(frame: FeatureFrame, collector: GeometryCollector) -> bool {
    &&& forall|k: int|
        0 <= k < frame.start_polygons && k < collector.multipolygon.polygons@.len() ==> (
        #[trigger] collector.multipolygon.polygons@[k]).below(frame.start_vertices as int)
    &&& forall|k: int|
        0 <= k < frame.start_lines && k < collector.multilinestring.lines@.len() ==> ring_below(
            #[trigger] collector.multilinestring.lines@[k]@,
            frame.start_vertices as int,
        )
    &&& forall|k: int|
        0 <= k < frame.start_points && k < collector.multipoint.points@.len() ==> (
        #[trigger] collector.multipoint.points@[k]) < frame.start_vertices
}

/// Whether the references of a feature are in order: each lies, in the
/// collection that its kind selects, between the start of the feature and
/// the length that `upto` has for that collection, and is of the level of
/// the feature.
pub open spec fn refs_ok(frame: FeatureFrame, upto: Marks) -> bool {
    forall|k: int|
        0 <= k < frame.refs@.len() ==> {
            let r = #[trigger] frame.refs@[k];
            &&& frame.marks().count(r.ty) <= r.pos
            &&& r.pos + r.len <= upto.count(r.ty)
            &&& frame.best == Some(r.lod)
            &&& r.len > 0
        }
}

/// What reading a ring makes of a collector while the property `o` is
/// open. The vertices of the ring are stored, each once. In a property of
/// curves the ring is one more line-string; in a property of points each of
/// its vertices is one more point; in any other property it is a ring of a
/// polygon: an interior ring of the polygon read last, if `interior` says
/// so and the property has a polygon, and else the exterior ring of one
/// more polygon, and its id is one more ring id. All else stays as it was.
pub open spec fn ring_added(
    before: GeometryCollector,
    after: GeometryCollector,
    o: OpenProperty,
    interior: bool,
    ring: Seq<VertexBits>,
    ring_id: Option<LocalId>,
) -> bool {
    &&& after.spec_vertices() == interned(before.spec_vertices(), ring)
    &&& after.surface_spans == before.surface_spans
    &&& match o.ty {
        GeometryType::Curve => {
            &&& after.multilinestring.lines@.len() == before.multilinestring.lines@.len() + 1
            &&& after.multilinestring.lines@.drop_last() == before.multilinestring.lines@
            &&& ring_vertices(after.spec_vertices(), after.multilinestring.lines@.last()@) == ring
            &&& after.multipolygon == before.multipolygon
            &&& after.multipoint == before.multipoint
            &&& after.ring_ids == before.ring_ids
        },
        GeometryType::Point => {
            &&& after.multipoint.points@.len() == before.multipoint.points@.len() + ring.len()
            &&& after.multipoint.points@.take(before.multipoint.points@.len() as int)
                == before.multipoint.points@
            &&& ring_vertices(
                after.spec_vertices(),
                after.multipoint.points@.skip(before.multipoint.points@.len() as int),
            ) == ring
            &&& after.multipolygon == before.multipolygon
            &&& after.multilinestring == before.multilinestring
            &&& after.ring_ids == before.ring_ids
        },
        _ => {
            let polygons = after.multipolygon.polygons@;
            let earlier = before.multipolygon.polygons@;
            &&& after.multilinestring == before.multilinestring
            &&& after.multipoint == before.multipoint
            &&& after.ring_ids@ == before.ring_ids@.push(ring_id)
            &&& if interior && earlier.len() > o.start {
                &&& polygons.len() == earlier.len()
                &&& polygons.drop_last() == earlier.drop_last()
                &&& polygons.last().exterior == earlier.last().exterior
                &&& polygons.last().interiors@.drop_last() == earlier.last().interiors@
                &&& ring_vertices(after.spec_vertices(), polygons.last().interiors@.last()@)
                    == ring
            } else {
                &&& polygons.len() == earlier.len() + 1
                &&& polygons.drop_last() == earlier
                &&& polygons.last().interiors@.len() == 0
                &&& ring_vertices(after.spec_vertices(), polygons.last().exterior@) == ring
            }
        },
    }
}

/// The reader of the geometries of a top-level feature and of the features
/// nested in it. All of them share one store.
pub struct GeometryReader {
    pub collector: GeometryCollector,
    pub frames: Vec<FeatureFrame>,
    pub open: Option<OpenProperty>,
}

impl GeometryReader {
    /// The number of polygons collected.
    pub open spec fn polygons(&self) -> int {
        self.collector.multipolygon.polygons@.len() as int
    }

    /// The lengths of the collections where the feature at the place `i`
    /// of the stack started; for the place behind the last feature, the
    /// lengths as they are.
    pub open spec fn marks_at(&self, i: int) -> Marks {
        if 0 <= i < self.frames@.len() {
            self.frames@[i].marks()
        } else {
            end_marks(self.collector)
        }
    }

    /// The feature at the place `i` of the stack is in order: it started
    /// before what follows it on the stack, its references lie between its
    /// start and the start of what follows, in the collection that their
    /// kind selects, and what was collected before it started needs no
    /// vertex that came after.
    pub open spec fn stands(&self, i: int) -> bool {
        &&& self.frames@[i].marks().le(self.marks_at(i + 1))
        &&& refs_ok(self.frames@[i], self.marks_at(i + 1))
        &&& start_ok(self.frames@[i], self.collector)
    }

    /// The state is in order: no vertex is held twice, the references of
    /// every feature lie within what was collected for it and are of one
    /// level of detail, its highest, and the open property started within
    /// the innermost feature.
    pub open spec fn wf(&self) -> bool {
        &&& self.collector.wf()
        &&& forall|i: int| 0 <= i < self.frames@.len() ==> #[trigger] self.stands(i)
        &&& self.open matches Some(o) ==> {
            &&& self.frames@.len() > 0
            &&& self.frames@.last().marks().count(o.ty) <= o.start
            &&& o.start <= end_marks(self.collector).count(o.ty)
            &&& !o.skipped ==> self.frames@.last().best == Some(o.lod)
        }
    }

    /// A reader that has read nothing.
    pub fn new() -> (r: Self)
        ensures
            r.wf(),
            r.frames@.len() == 0,
            r.open is None,
            r.polygons() == 0,
            r.collector.spec_vertices().len() == 0,
            r.collector.ring_ids@.len() == 0,
            r.collector.multilinestring.lines@.len() == 0,
            r.collector.multipoint.points@.len() == 0,
            r.collector.surface_spans@.len() == 0,
    {
        GeometryReader { collector: GeometryCollector::new(), frames: Vec::new(), open: None }
    }

    /// A feature starts. Its geometries are collected apart from those of
    /// the feature that it is nested in: it starts at the end of what was
    /// collected so far, and the end of the store is its own until a
    /// feature nested in it has ended.
    pub fn begin_feature(&mut self)
        requires
            old(self).wf(),
            old(self).open is None,
        ensures
            final(self).wf(),
            final(self).open is None,
            final(self).collector == old(self).collector,
            final(self).frames@.len() == old(self).frames@.len() + 1,
            final(self).frames@.drop_last() == old(self).frames@,
            final(self).frames@.last().refs@.len() == 0,
            final(self).frames@.last().best is None,
            final(self).frames@.last().marks() == end_marks(old(self).collector),
            final(self).frames@.last().own_tail,
    {
        let frame = FeatureFrame {
            refs: Vec::new(),
            best: None,
            start_polygons: self.collector.multipolygon.len(),
            start_lines: self.collector.multilinestring.len(),
            start_points: self.collector.multipoint.len(),
            start_rings: self.collector.ring_ids.len(),
            start_vertices: self.collector.vertex_count(),
            own_tail: true,
        };
        self.frames.push(frame);
        proof {
            let n = old(self).frames@.len() as int;
            assert(self.frames@.drop_last() =~= old(self).frames@);
            assert forall|i: int| 0 <= i < self.frames@.len() implies #[trigger] self.stands(i) by {
                if i < n {
                    assert(old(self).stands(i));
                    assert(self.frames@[i] == old(self).frames@[i]);
                    if i + 1 < n {
                        assert(self.frames@[i + 1] == old(self).frames@[i + 1]);
                    }
                    assert(self.marks_at(i + 1) == old(self).marks_at(i + 1));
                }
            }
        }
    }

    /// The innermost feature ends: its geometry references are returned.
    /// Each of them lies within the collection that its kind selects, and
    /// all are of one level of detail, the highest that the feature had.
    /// The feature that it was nested in no longer owns the end of the
    /// store.
    pub fn end_feature(&mut self) -> (refs: Vec<GeometryRef>)
        requires
            old(self).wf(),
            old(self).open is None,
            old(self).frames@.len() > 0,
        ensures
            final(self).wf(),
            final(self).open is None,
            final(self).collector == old(self).collector,
            final(self).frames@.len() == old(self).frames@.len() - 1,
            final(self).frames@.len() > 0 ==> {
                &&& final(self).frames@.drop_last() == old(self).frames@.take(
                    old(self).frames@.len() - 2,
                )
                &&& final(self).frames@.last() == (FeatureFrame {
                    own_tail: false,
                    ..old(self).frames@[old(self).frames@.len() - 2]
                })
            },
            refs == old(self).frames@.last().refs,
            forall|k: int|
                0 <= k < refs@.len() ==> (#[trigger] refs@[k]).pos + refs@[k].len <= final(self).collector.spec_collection_len(refs@[k].ty) && Some(refs@[k].lod) == old(
                    self,
                ).frames@.last().best,
    {
        let ghost n = self.frames@.len() as int;
        assert(self.stands(n - 1));
        let frame = self.frames.pop().unwrap();
        let m = self.frames.len();
        if m > 0 {
            // what the feature that ended collected stands behind what the
            // feature it was nested in collected
            let parent = self.frames.pop().unwrap();
            self.frames.push(
                FeatureFrame {
                    refs: parent.refs,
                    best: parent.best,
                    start_polygons: parent.start_polygons,
                    start_lines: parent.start_lines,
                    start_points: parent.start_points,
                    start_rings: parent.start_rings,
                    start_vertices: parent.start_vertices,
                    own_tail: false,
                },
            );
            assert(self.frames@.drop_last() =~= old(self).frames@.take(n - 2));
        }
        proof {
            assert forall|i: int| 0 <= i < self.frames@.len() implies #[trigger] self.stands(i) by {
                assert(old(self).stands(i));
                assert(self.frames@[i].marks() == old(self).frames@[i].marks());
                assert(self.frames@[i].refs == old(self).frames@[i].refs);
                assert(self.frames@[i].best == old(self).frames@[i].best);
                if i + 1 < self.frames@.len() {
                    assert(self.frames@[i + 1].marks() == old(self).frames@[i + 1].marks());
                    assert(self.marks_at(i + 1) == old(self).marks_at(i + 1));
                } else {
                    // the feature that ended started within what is held
                    let between = old(self).marks_at(n - 1);
                    let end = end_marks(self.collector);
                    assert(between.le(end));
                    assert forall|k: int| 0 <= k < self.frames@[i].refs@.len() implies {
                        let r = #[trigger] self.frames@[i].refs@[k];
                        r.pos + r.len <= end.count(r.ty)
                    } by {
                        let r = self.frames@[i].refs@[k];
                        assert(r.pos + r.len <= between.count(r.ty));
                    }
                }
            }
            assert forall|k: int| 0 <= k < frame.refs@.len() implies (#[trigger] frame.refs@[k]).pos
                + frame.refs@[k].len <= self.collector.spec_collection_len(frame.refs@[k].ty)
                && Some(frame.refs@[k].lod) == frame.best by {
                let r = frame.refs@[k];
                assert(r.pos + r.len <= end_marks(self.collector).count(r.ty));
            }
        }
        frame.refs
    }

    /// A geometry property of the innermost feature starts. The highest
    /// level of detail wins: a property of a lower level than one read
    /// before is passed over, and a property of a higher level than all
    /// read before makes the reader drop what it collected for the
    /// feature. Its references are dropped, and where the end of the store
    /// is the feature's own, the polygons, the line-strings, the points,
    /// the ring ids and the vertices go back to what they were when the
    /// feature started.
    pub fn begin_property(&mut self, lod: u8, parse_type: GeometryParseType)
        requires
            old(self).wf(),
            old(self).open is None,
            old(self).frames@.len() > 0,
        ensures
            final(self).wf(),
            final(self).frames@.len() == old(self).frames@.len(),
            final(self).frames@.drop_last() == old(self).frames@.drop_last(),
            final(self).open matches Some(o) && o.lod == lod && o.ty == spec_stored_as(parse_type)
                && o.start == final(self).collector.spec_collection_len(o.ty) && !o.seen,
            final(self).frames@.last().marks() == old(self).frames@.last().marks(),
            final(self).frames@.last().own_tail == old(self).frames@.last().own_tail,
            final(self).collector.surface_spans == old(self).collector.surface_spans,
            ({
                let before = old(self).frames@.last();
                let after = final(self).frames@.last();
                let o = final(self).open->Some_0;
                match before.best {
                    Some(b) if lod < b => o.skipped && after == before && final(self).collector
                        == old(self).collector,
                    Some(b) if lod > b => {
                        &&& !o.skipped
                        &&& after.refs@.len() == 0
                        &&& after.best == Some(lod)
                        &&& if before.own_tail {
                            &&& final(self).collector.multipolygon.polygons@ == old(
                                self,
                            ).collector.multipolygon.polygons@.take(before.start_polygons as int)
                            &&& final(self).collector.multilinestring.lines@ == old(
                                self,
                            ).collector.multilinestring.lines@.take(before.start_lines as int)
                            &&& final(self).collector.multipoint.points@ == old(
                                self,
                            ).collector.multipoint.points@.take(before.start_points as int)
                            &&& final(self).collector.ring_ids@ == old(
                                self,
                            ).collector.ring_ids@.take(before.start_rings as int)
                            &&& final(self).collector.spec_vertices() == old(
                                self,
                            ).collector.spec_vertices().take(before.start_vertices as int)
                        } else {
                            final(self).collector == old(self).collector
                        }
                    },
                    _ => {
                        &&& !o.skipped
                        &&& after.refs == before.refs
                        &&& after.best == Some(lod)
                        &&& final(self).collector == old(self).collector
                    },
                }
            }),
    {
        let ghost n = self.frames@.len() as int;
        assert(self.stands(n - 1));
        let frame = self.frames.pop().unwrap();
        let ty = stored_as(parse_type);
        let lower = match frame.best {
            Some(b) => lod < b,
            None => false,
        };
        let higher = match frame.best {
            Some(b) => lod > b,
            None => false,
        };
        if lower {
            self.frames.push(frame);
            self.open = Some(
                OpenProperty {
                    lod,
                    ty,
                    start: self.collector.collection_len(ty),
                    skipped: true,
                    seen: false,
                },
            );
            proof {
                assert(self.frames@ =~= old(self).frames@);
                assert forall|i: int| 0 <= i < self.frames@.len() implies #[trigger] self.stands(
                    i,
                ) by {
                    assert(old(self).stands(i));
                }
            }
            return ;
        }
        let frame = if higher {
            if frame.own_tail {
                self.collector.truncate(frame.start_polygons, frame.start_rings);
                self.collector.truncate_lines_and_points(frame.start_lines, frame.start_points);
                self.collector.truncate_vertices(frame.start_vertices);
            }
            FeatureFrame {
                refs: Vec::new(),
                best: Some(lod),
                start_polygons: frame.start_polygons,
                start_lines: frame.start_lines,
                start_points: frame.start_points,
                start_rings: frame.start_rings,
                start_vertices: frame.start_vertices,
                own_tail: frame.own_tail,
            }
        } else {
            FeatureFrame {
                refs: frame.refs,
                best: Some(lod),
                start_polygons: frame.start_polygons,
                start_lines: frame.start_lines,
                start_points: frame.start_points,
                start_rings: frame.start_rings,
                start_vertices: frame.start_vertices,
                own_tail: frame.own_tail,
            }
        };
        self.frames.push(frame);
        self.open = Some(
            OpenProperty {
                lod,
                ty,
                start: self.collector.collection_len(ty),
                skipped: false,
                seen: false,
            },
        );
        proof {
            assert(self.frames@.drop_last() =~= old(self).frames@.drop_last());
            assert forall|i: int| 0 <= i < self.frames@.len() implies #[trigger] self.stands(i) by {
                assert(old(self).stands(i));
                lemma_marks_chain(*old(self), i, n - 1);
                if i < n - 1 {
                    assert(self.frames@[i] == old(self).frames@.drop_last()[i]);
                    if i + 1 < n - 1 {
                        assert(self.frames@[i + 1] == old(self).frames@.drop_last()[i + 1]);
                    }
                    assert(self.marks_at(i + 1) == old(self).marks_at(i + 1));
                }
            }
        }
    }

    /// A geometry element is met in the open property. The first that is
    /// met says of what kind the geometries of the property are, whatever
    /// the name of the property told: from then on they are counted in the
    /// collection that this kind selects. Returns whether the element was
    /// the first. Nothing else changes.
    pub fn see_geometry(&mut self, parse_type: GeometryParseType) -> (first: bool)
        requires
            old(self).wf(),
            old(self).open is Some,
        ensures
            final(self).wf(),
            final(self).frames == old(self).frames,
            final(self).collector == old(self).collector,
            first == (!old(self).open->Some_0.seen && old(self).open->Some_0.start == old(
                self,
            ).collector.spec_collection_len(old(self).open->Some_0.ty)),
            final(self).open == Some(
                if first {
                    OpenProperty {
                        ty: spec_stored_as(parse_type),
                        start: old(self).collector.spec_collection_len(
                            spec_stored_as(parse_type),
                        ) as usize,
                        seen: true,
                        ..old(self).open->Some_0
                    }
                } else {
                    OpenProperty { seen: true, ..old(self).open->Some_0 }
                },
            ),
    {
        let ghost n = self.frames@.len() as int;
        assert(self.stands(n - 1));
        let o = self.open.take().unwrap();
        let first = !o.seen && o.start == self.collector.collection_len(o.ty);
        let next = if first {
            let ty = stored_as(parse_type);
            OpenProperty {
                lod: o.lod,
                ty,
                start: self.collector.collection_len(ty),
                skipped: o.skipped,
                seen: true,
            }
        } else {
            OpenProperty { lod: o.lod, ty: o.ty, start: o.start, skipped: o.skipped, seen: true }
        };
        self.open = Some(next);
        proof {
            assert forall|i: int| 0 <= i < self.frames@.len() implies #[trigger] self.stands(i) by {
                assert(old(self).stands(i));
            }
        }
        first
    }

    /// A ring of the open property: the exterior or an interior ring of a
    /// polygon, a line-string, or points, as the kind of the property
    /// says. A ring of a property that is passed over is dropped.
    pub fn add_ring(&mut self, interior: bool, ring: &Vec<VertexBits>, ring_id: Option<LocalId>)
        requires
            old(self).wf(),
            old(self).open is Some,
            old(self).collector.spec_vertices().len() + ring@.len() <= u32::MAX,
        ensures
            final(self).wf(),
            final(self).frames == old(self).frames,
            final(self).open == old(self).open,
            old(self).open->Some_0.skipped ==> final(self).collector == old(self).collector,
            !old(self).open->Some_0.skipped ==> ring_added(
                old(self).collector,
                final(self).collector,
                old(self).open->Some_0,
                interior,
                ring@,
                ring_id,
            ),
    {
        let (skipped, start, ty) = match &self.open {
            Some(o) => (o.skipped, o.start, o.ty),
            None => (true, 0, GeometryType::Surface),
        };
        if skipped {
            return ;
        }
        match ty {
            GeometryType::Curve => {
                let _ = self.collector.add_linestring(ring);
            },
            GeometryType::Point => {
                let _ = self.collector.add_points(ring);
            },
            _ => {
                if interior && self.collector.multipolygon.len() > start {
                    self.collector.add_interior_ring(ring, ring_id);
                } else {
                    let _ = self.collector.add_exterior_ring(ring, ring_id);
                }
            },
        }
        proof {
            let n = self.frames@.len() as int;
            let o = old(self).open->Some_0;
            let polygons = self.collector.multipolygon.polygons@;
            let before = old(self).collector.multipolygon.polygons@;
            let lines = self.collector.multilinestring.lines@;
            let points = self.collector.multipoint.points@;
            assert(old(self).stands(n - 1));
            assert forall|i: int| 0 <= i < self.frames@.len() implies #[trigger] self.stands(i) by {
                assert(old(self).stands(i));
                lemma_marks_chain(*old(self), i, n - 1);
                let frame = self.frames@[i];
                assert forall|k: int| 0 <= k < frame.start_polygons && k < polygons.len() implies (
                #[trigger] polygons[k]).below(frame.start_vertices as int) by {
                    if polygons.len() > 0 && k < polygons.len() - 1 {
                        assert(polygons[k] == polygons.drop_last()[k]);
                    }
                    if before.len() > 0 && k < before.len() - 1 {
                        assert(before[k] == before.drop_last()[k]);
                    }
                    assert(polygons[k] == before[k]);
                }
                assert forall|k: int| 0 <= k < frame.start_lines && k < lines.len() implies ring_below(
                    #[trigger] lines[k]@,
                    frame.start_vertices as int,
                ) by {
                    if lines.len() > 0 && k < lines.len() - 1 {
                        assert(lines[k] == lines.drop_last()[k]);
                    }
                    assert(lines[k] == old(self).collector.multilinestring.lines@[k]);
                }
                assert forall|k: int| 0 <= k < frame.start_points && k < points.len() implies (
                #[trigger] points[k]) < frame.start_vertices by {
                    let held = old(self).collector.multipoint.points@;
                    if k < held.len() {
                        assert(points.take(held.len() as int)[k] == points[k]);
                    }
                    assert(points[k] == held[k]);
                }
            }
        }
    }

    /// The positions of a ring of the open property, as the numbers of
    /// its list of positions. The numbers are grouped into vertices by the
    /// dimension that `context` holds, and the ring is added as `add_ring`
    /// adds it, interior or not and with the id that `context` holds; the
    /// id is used up. Numbers that are no list of positions, and a ring
    /// with which the vertices could be more than a 32-bit index can
    /// name, are an invalid value and change nothing.
    pub fn add_positions(&mut self, context: &mut RingContext, numbers: &Vec<u64>) -> (r: Result<
        (),
        ParseError,
    >)
        requires
            old(self).wf(),
            old(self).open is Some,
        ensures
            final(self).wf(),
            final(self).frames == old(self).frames,
            final(self).open == old(self).open,
            final(context).interior == old(context).interior,
            final(context).srs_dimension == old(context).srs_dimension,
            ({
                let dimension = old(context).srs_dimension as int;
                let ring = positions_of(numbers@, dimension);
                let skipped = old(self).open->Some_0.skipped;
                &&& r is Ok == (is_position_list(numbers@.len(), dimension) && (skipped || old(
                    self,
                ).collector.spec_vertices().len() + ring.len() <= u32::MAX))
                &&& r is Err ==> final(self).collector == old(self).collector && final(context).ring_id == old(
                    context,
                ).ring_id
                &&& r matches Err(e) ==> (e matches ParseError::InvalidValue(what) && what@ == (
                if is_position_list(numbers@.len(), dimension) {
                    "too many vertices"@
                } else {
                    position_fault(dimension)
                }))
                &&& r is Ok ==> final(context).ring_id is None
                &&& r is Ok && skipped ==> final(self).collector == old(self).collector
                &&& r is Ok && !skipped ==> ring_added(
                    old(self).collector,
                    final(self).collector,
                    old(self).open->Some_0,
                    old(context).interior,
                    ring,
                    old(context).ring_id,
                )
            }),
    {
        let ring = match positions_from_numbers(numbers, context.srs_dimension) {
            Ok(ring) => ring,
            Err(e) => {
                return Err(e);
            },
        };
        let skipped = match &self.open {
            Some(o) => o.skipped,
            None => true,
        };
        if !skipped {
            let held = self.collector.vertex_count();
            if ring.len() > (u32::MAX as usize) - held {
                return Err(ParseError::InvalidValue("too many vertices".to_owned()));
            }
            let ring_id = context.ring_id.take();
            self.add_ring(context.interior, &ring, ring_id);
        } else {
            context.ring_id = None;
        }
        Ok(())
    }

    /// The open property ends. If it gave geometries, the innermost
    /// feature gets a reference to them, of the level and the kind of the
    /// property, counted in the collection that the kind selects. More
    /// geometries than a reference can count are an invalid value, and no
    /// reference is made of them.
    pub fn end_property(&mut self) -> (r: Result<(), ParseError>)
        requires
            old(self).wf(),
            old(self).open is Some,
        ensures
            final(self).wf(),
            final(self).open is None,
            final(self).collector == old(self).collector,
            final(self).frames@.len() == old(self).frames@.len(),
            final(self).frames@.drop_last() == old(self).frames@.drop_last(),
            ({
                let o = old(self).open->Some_0;
                let before = old(self).frames@.last();
                let after = final(self).frames@.last();
                let held = old(self).collector.spec_collection_len(o.ty);
                let given = held - o.start;
                &&& after.best == before.best
                &&& after.marks() == before.marks()
                &&& after.own_tail == before.own_tail
                &&& r is Ok == (o.skipped || held <= u32::MAX)
                &&& r matches Err(e) ==> (e matches ParseError::InvalidValue(what) && what@
                    == "too many geometries"@)
                &&& if !o.skipped && given > 0 && r is Ok {
                    after.refs@ == before.refs@.push(
                        GeometryRef {
                            ty: o.ty,
                            lod: o.lod,
                            pos: o.start as u32,
                            len: given as u32,
                        },
                    )
                } else {
                    after.refs@ == before.refs@
                }
            }),
    {
        let ghost n = self.frames@.len() as int;
        assert(self.stands(n - 1));
        let o = self.open.take().unwrap();
        let count = self.collector.collection_len(o.ty);
        let mut result = Ok(());
        if !o.skipped {
            if count > u32::MAX as usize {
                result = Err(ParseError::InvalidValue("too many geometries".to_owned()));
            } else if count > o.start {
                let mut frame = self.frames.pop().unwrap();
                let ghost before = frame.refs@;
                frame.refs.push(
                    GeometryRef {
                        ty: o.ty,
                        lod: o.lod,
                        pos: o.start as u32,
                        len: (count - o.start) as u32,
                    },
                );
                self.frames.push(frame);
                proof {
                    assert(self.frames@.drop_last() =~= old(self).frames@.drop_last());
                    let after = self.frames@[n - 1];
                    let end = end_marks(self.collector);
                    assert forall|k: int| 0 <= k < after.refs@.len() implies {
                        let r = #[trigger] after.refs@[k];
                        &&& after.marks().count(r.ty) <= r.pos
                        &&& r.pos + r.len <= end.count(r.ty)
                        &&& after.best == Some(r.lod)
                        &&& r.len > 0
                    } by {
                        if k < before.len() {
                            assert(after.refs@[k] == old(self).frames@[n - 1].refs@[k]);
                        }
                    }
                }
            }
        }
        proof {
            assert(self.frames@.drop_last() =~= old(self).frames@.drop_last());
            assert forall|i: int| 0 <= i < self.frames@.len() implies #[trigger] self.stands(i) by {
                assert(old(self).stands(i));
                if i < n - 1 {
                    assert(self.frames@[i] == old(self).frames@.drop_last()[i]);
                    if i + 1 < n - 1 {
                        assert(self.frames@[i + 1] == old(self).frames@.drop_last()[i + 1]);
                    } else {
                        assert(self.frames@[i + 1].marks() == old(self).frames@[i + 1].marks());
                    }
                    assert(self.marks_at(i + 1) == old(self).marks_at(i + 1));
                }
            }
        }
        result
    }

    /// The store of what was read, once every feature has ended: it holds
    /// what the reader collected, in JGD2011 geographic 3D, and no vertex
    /// twice.
    pub fn finish(self) -> (store: GeometryStore)
        requires
            self.wf(),
            self.frames@.len() == 0,
        ensures
            store.wf(),
            store.is_deduplicated(),
            store.epsg == EPSG_JGD2011_GEOGRAPHIC_3D,
            store.vertices@ == self.collector.spec_vertices(),
            store.multipolygon == self.collector.multipolygon,
            store.multilinestring == self.collector.multilinestring,
            store.multipoint == self.collector.multipoint,
            store.ring_ids == self.collector.ring_ids,
            store.surface_spans == self.collector.surface_spans,
            store.ring_materials@.len() == 0,
            forall|ty: GeometryType|
                store.spec_collection_len(ty) == self.collector.spec_collection_len(ty),
    {
        self.collector.into_geometries()
    }
}

/// The features of the stack start one behind the other, and all within
/// what is held.
pub proof fn lemma_marks_chain(reader: GeometryReader, i: int, j: int)
    requires
        reader.wf(),
        0 <= i <= j <= reader.frames@.len(),
    ensures
        reader.marks_at(i).le(reader.marks_at(j)),
    decreases j - i,
{
    if i < j {
        assert(reader.stands(i));
        lemma_marks_chain(reader, i + 1, j);
    }
}

/// Whether a character is ASCII whitespace.
pub open spec fn is_space(c: char) -> bool {
    c == ' ' || c == '\t' || c == '\n' || c == '\r' || c == '\x0C'
}

/// Whether a text holds nothing but ASCII whitespace.
pub open spec fn spec_is_blank(text: Seq<char>) -> bool {
    forall|i: int| 0 <= i < text.len() ==> is_space(#[trigger] text[i])
}

/// Whether a text holds nothing but ASCII whitespace.
pub fn is_blank(text: &str) -> (b: bool)
    ensures
        b == spec_is_blank(text@),
{
    let n = text.unicode_len();
    let mut i: usize = 0;
    while i < n
        invariant
            i <= n,
            n == text@.len(),
            forall|k: int| 0 <= k < i ==> is_space(#[trigger] text@[k]),
        decreases n - i,
    {
        let c = text.get_char(i);
        if !(c == ' ' || c == '\t' || c == '\n' || c == '\r' || c == '\x0C') {
            return false;
        }
        i += 1;
    }
    true
}

/// The truth value that a text stands for: `true` and `1` for true,
/// `false` and `0` for false.
pub open spec fn spec_boolean(text: Seq<char>) -> Option<bool> {
    if text == "true"@ || text == "1"@ {
        Some(true)
    } else if text == "false"@ || text == "0"@ {
        Some(false)
    } else {
        None
    }
}

/// The truth value that a text stands for, if it stands for one.
pub fn parse_boolean(text: &str) -> (r: Option<bool>)
    ensures
        r == spec_boolean(text@),
{
    if str_eq(text, "true") || str_eq(text, "1") {
        Some(true)
    } else if str_eq(text, "false") || str_eq(text, "0") {
        Some(false)
    } else {
        None
    }
}

/// The value of a leaf of the type given, if the text of the leaf is one.
/// `integer` is the text read as a whole number and `number` the text read
/// as a floating-point number, each if the text is one.
///
/// A string, a URI and a date take the text as it is. An integer must read
/// as one, and a non-negative integer must not be below zero. A double and a
/// measure must read as a number, a boolean as a truth value. A code
/// takes the text as its value. A leaf of any other type is an invalid
/// value.
pub open spec fn leaf_model(
    type_ref: TypeRefModel,
    text: Seq<char>,
    integer: Option<i64>,
    number: Option<u64>,
    code_space: Seq<char>,
) -> Option<ValueModel> {
    match type_ref {
        TypeRefModel::String | TypeRefModel::JsonString => Some(ValueModel::String(text)),
        TypeRefModel::URI => Some(ValueModel::URI(text)),
        TypeRefModel::Date => Some(ValueModel::Date(text)),
        TypeRefModel::DateTime => Some(ValueModel::DateTime(text)),
        TypeRefModel::Integer => match integer {
            Some(n) => Some(ValueModel::Integer(n)),
            None => None,
        },
        TypeRefModel::NonNegativeInteger => match integer {
            Some(n) if n >= 0 => Some(ValueModel::Integer(n)),
            _ => None,
        },
        TypeRefModel::Double => match number {
            Some(bits) => Some(ValueModel::Double(bits)),
            None => None,
        },
        TypeRefModel::Measure => match number {
            Some(bits) => Some(ValueModel::Measure(bits)),
            None => None,
        },
        TypeRefModel::Boolean => match spec_boolean(text) {
            Some(b) => Some(ValueModel::Boolean(b)),
            None => None,
        },
        TypeRefModel::Code => Some(ValueModel::Code { value: text, code_space }),
        _ => None,
    }
}

/// The code space of a leaf: the one given, or else the empty text.
pub open spec fn code_space_of(code_space: Option<String>) -> Seq<char> {
    match code_space {
        Some(s) => s@,
        None => Seq::empty(),
    }
}

/// Makes the value of a leaf of the type given from its text and from what
/// the text reads as: `integer` as a whole number, `number` as a
/// floating-point number. Whitespace-only text is dropped: it gives no value
/// and no error. Text that is no value of the type is an invalid value,
/// reported with the text.
pub fn leaf_of(
    type_ref: &TypeRef,
    text: &str,
    integer: Option<i64>,
    number: Option<u64>,
    code_space: Option<String>,
) -> (r: Result<Option<Value>, ParseError>)
    ensures
        spec_is_blank(text@) ==> r matches Ok(None),
        !spec_is_blank(text@) ==> match leaf_model(
            type_ref@,
            text@,
            integer,
            number,
            code_space_of(code_space),
        ) {
            Some(v) => r matches Ok(Some(value)) && value@ == v,
            None => r matches Err(ParseError::InvalidValue(t)) && t@ == text@,
        },
{
    if is_blank(text) {
        return Ok(None);
    }
    let value = match type_ref {
        TypeRef::String | TypeRef::JsonString => Some(Value::String(text.to_owned())),
        TypeRef::URI => Some(Value::URI(text.to_owned())),
        TypeRef::Date => Some(Value::Date(text.to_owned())),
        TypeRef::DateTime => Some(Value::DateTime(text.to_owned())),
        TypeRef::Integer => match integer {
            Some(n) => Some(Value::Integer(n)),
            None => None,
        },
        TypeRef::NonNegativeInteger => match integer {
            Some(n) => if n >= 0 {
                Some(Value::Integer(n))
            } else {
                None
            },
            None => None,
        },
        TypeRef::Double => match number {
            Some(bits) => Some(Value::Double(bits)),
            None => None,
        },
        TypeRef::Measure => match number {
            Some(bits) => Some(Value::Measure(bits)),
            None => None,
        },
        TypeRef::Boolean => match parse_boolean(text) {
            Some(b) => Some(Value::Boolean(b)),
            None => None,
        },
        TypeRef::Code => {
            let code_space = match code_space {
                Some(s) => s,
                None => String::new(),
            };
            Some(Value::Code(Code { value: text.to_owned(), code_space }))
        },
        _ => None,
    };
    match value {
        Some(v) => Ok(Some(v)),
        None => Err(ParseError::InvalidValue(text.to_owned())),
    }
}

/// Reads the text of a leaf of the type given: the text is read as a whole
/// number where the type asks for one, and the value is made of it as by
/// `leaf_of`.
pub fn leaf_value(
    type_ref: &TypeRef,
    text: &str,
    number: Option<u64>,
    code_space: Option<String>,
) -> (r: Result<Option<Value>, ParseError>)
    ensures
        spec_is_blank(text@) ==> r matches Ok(None),
        !spec_is_blank(text@) ==> match leaf_model(
            type_ref@,
            text@,
            parsed_integer(text@),
            number,
            code_space_of(code_space),
        ) {
            Some(v) => r matches Ok(Some(value)) && value@ == v,
            None => r matches Err(ParseError::InvalidValue(t)) && t@ == text@,
        },
{
    let integer = match type_ref {
        TypeRef::Integer | TypeRef::NonNegativeInteger => parse_integer(text),
        _ => None,
    };
    leaf_of(type_ref, text, integer, number, code_space)
}

/// The attributes that a type definition declares, by name.
pub open spec fn declared(type_def: TypeDef) -> Seq<(Seq<char>, Attribute)> {
    match type_def {
        TypeDef::Feature(d) => attribute_map_entries(d.attributes),
        TypeDef::Data(d) => attribute_map_entries(d.attributes),
        TypeDef::Object(d) => attribute_map_entries(d.attributes),
        TypeDef::Property(d) => named(d.members@),
    }
}

/// Whether a type definition allows elements that it does not declare.
pub open spec fn allows_unknown(type_def: TypeDef) -> bool {
    match type_def {
        TypeDef::Feature(d) => d.additional_attributes,
        TypeDef::Data(d) => d.additional_attributes,
        TypeDef::Object(d) => d.additional_attributes,
        TypeDef::Property(_) => false,
    }
}

/// The place of the attribute `name` in an attribute table, if it is
/// there.
pub fn find_declared(attributes: &AttributeMap, name: &str) -> (at: Option<usize>)
    ensures
        at is Some == has_key(attribute_map_entries(*attributes), name@),
        at matches Some(i) ==> i == key_index(attribute_map_entries(*attributes), name@) && i
            < attribute_map_entries(*attributes).len(),
{
    let ghost entries = attribute_map_entries(*attributes);
    let n = attribute_map_len(attributes);
    let mut i: usize = 0;
    while i < n
        invariant
            i <= n,
            n == entries.len(),
            entries == attribute_map_entries(*attributes),
            forall|j: int| 0 <= j < i ==> (#[trigger] entries[j]).0 != name@,
        decreases n - i,
    {
        let (key, _) = attribute_map_get_index(attributes, i);
        if str_eq(key.as_str(), name) {
            proof {
                crate::entries::lemma_key_index(entries, name@, i as int);
            }
            return Some(i);
        }
        i += 1;
    }
    proof {
        if has_key(entries, name@) {
            let k = choose|k: int| 0 <= k < entries.len() && (#[trigger] entries[k]).0 == name@;
            assert(entries[k].0 != name@);
        }
    }
    None
}

/// What the reader does with an element found in an object of the type
/// given.
#[derive(Debug, Clone, Copy, PartialEq, Eq, Structural)]
pub enum ElementAction {
    /// The element is the attribute declared at this place: it is read
    Descend(usize),
    /// The element is not declared, which the type allows: its subtree is
    /// skipped to its end
    Skip,
}

/// Matches an element against what a type definition declares: a
/// declared element is read, an element that is not declared is skipped
/// where the type allows elements that it does not declare, and is a
/// violation of the schema, reported with its name, where it does not.
pub fn match_element(type_def: &TypeDef, name: &str) -> (r: Result<ElementAction, ParseError>)
    ensures
        has_key(declared(*type_def), name@) ==> r == Ok::<ElementAction, ParseError>(
            ElementAction::Descend(key_index(declared(*type_def), name@) as usize),
        ) && key_index(declared(*type_def), name@) < declared(*type_def).len(),
        !has_key(declared(*type_def), name@) && allows_unknown(*type_def) ==> r == Ok::<
            ElementAction,
            ParseError,
        >(ElementAction::Skip),
        !has_key(declared(*type_def), name@) && !allows_unknown(*type_def) ==> (
        r matches Err(ParseError::SchemaViolation(n)) && n@ == name@),
{
    let (found, allows) = match type_def {
        TypeDef::Feature(d) => (find_declared(&d.attributes, name), d.additional_attributes),
        TypeDef::Data(d) => (find_declared(&d.attributes, name), d.additional_attributes),
        TypeDef::Object(d) => (find_declared(&d.attributes, name), d.additional_attributes),
        TypeDef::Property(d) => {
            let key = name.to_owned();
            (find_entry(&d.members, &key), false)
        },
    };
    match found {
        Some(i) => Ok(ElementAction::Descend(i)),
        None => if allows {
            Ok(ElementAction::Skip)
        } else {
            Err(ParseError::SchemaViolation(name.to_owned()))
        },
    }
}

/// How deep the reader is in a subtree that it skips.
pub struct SkipState {
    depth: usize,
}

impl SkipState {
    /// The number of elements of the skipped subtree that are open.
    pub closed spec fn depth(&self) -> nat {
        self.depth as nat
    }

    /// The start of a subtree to be skipped was read.
    pub fn new() -> (r: Self)
        ensures
            r.depth() == 1,
    {
        SkipState { depth: 1 }
    }

    /// An element starts within the subtree.
    pub fn start(&mut self)
        requires
            old(self).depth() < usize::MAX,
        ensures
            final(self).depth() == old(self).depth() + 1,
    {
        self.depth = self.depth + 1;
    }

    /// An element ends. Returns whether it was the element that the
    /// skipped subtree started with, so that the subtree is skipped
    /// exactly to its matching end.
    pub fn end(&mut self) -> (done: bool)
        requires
            old(self).depth() > 0,
        ensures
            final(self).depth() == old(self).depth() - 1,
            done == (final(self).depth() == 0),
    {
        self.depth = self.depth - 1;
        self.depth == 0
    }
}

/// The ids of the features of one document that were read so far.
pub struct FeatureIds {
    pub seen: TextSet,
}

impl FeatureIds {
    /// The ids seen, in the order in which they were met.
    pub open spec fn ids(&self) -> Seq<Seq<char>> {
        text_set_items(self.seen)
    }

    /// No id was seen yet.
    pub fn new() -> (r: Self)
        ensures
            r.ids() == Seq::<Seq<char>>::empty(),
    {
        FeatureIds { seen: text_set_new() }
    }

    /// Takes the id of a feature. Every feature has an id, and no two
    /// features of a document have the same: an empty id and an id seen
    /// before are invalid values, reported with the id, and are not
    /// taken.
    pub fn register(&mut self, id: &str) -> (r: Result<(), ParseError>)
        ensures
            r is Ok == (id@.len() > 0 && !old(self).ids().contains(id@)),
            r is Ok ==> final(self).ids() == old(self).ids().push(id@),
            r matches Err(e) ==> final(self).ids() == old(self).ids() && (
            e matches ParseError::InvalidValue(t) && t@ == id@),
            old(self).ids().no_duplicates() ==> final(self).ids().no_duplicates(),
    {
        if id.unicode_len() == 0 {
            return Err(ParseError::InvalidValue(id.to_owned()));
        }
        let (_, is_new) = text_set_insert_full(&mut self.seen, id.to_owned());
        if is_new {
            Ok(())
        } else {
            Err(ParseError::InvalidValue(id.to_owned()))
        }
    }
}

} // verus!
