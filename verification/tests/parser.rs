use std::sync::Arc;

use indexmap::IndexMap;
use nusamai::appearance::AppearanceStore;
use nusamai::geometry::{GeometryParseType, GeometryRef, GeometryType, LocalId};
use nusamai::object::{check_refs, Entity, Object, ObjectStereotype, Value};
use nusamai::parser::{
    find_declared, geometry_of_element, is_blank, leaf_of, leaf_value, lod_of_property,
    match_element, property_geometry, ring_part_of, RingContext, RingPart,
    parse_boolean, positions_from_numbers, stored_as, ElementAction, FeatureIds, GeometryReader,
    SkipState,
};
use nusamai::pipeline::ParseError;
use nusamai::schema::{
    Attribute, DataTypeDef, FeatureTypeDef, ObjectTypeDef, PropertyTypeDef, TypeDef, TypeRef,
};

fn v(x: f64, y: f64, z: f64) -> (u64, u64, u64) {
    (x.to_bits(), y.to_bits(), z.to_bits())
}

fn cube_corner(i: usize) -> (u64, u64, u64) {
    v((i & 1) as f64, ((i >> 1) & 1) as f64, ((i >> 2) & 1) as f64)
}

fn face(corners: [usize; 4]) -> Vec<(u64, u64, u64)> {
    let mut ring: Vec<_> = corners.iter().map(|&i| cube_corner(i)).collect();
    ring.push(ring[0]);
    ring
}

const CUBE: [[usize; 4]; 6] =
    [[0, 1, 3, 2], [4, 5, 7, 6], [0, 1, 5, 4], [2, 3, 7, 6], [0, 2, 6, 4], [1, 3, 7, 5]];

#[test]
fn levels_of_detail_are_read_from_property_names() {
    assert_eq!(lod_of_property("lod0RoofEdge"), Some(0));
    assert_eq!(lod_of_property("lod1Solid"), Some(1));
    assert_eq!(lod_of_property("lod2MultiSurface"), Some(2));
    assert_eq!(lod_of_property("lod3Geometry"), Some(3));
    assert_eq!(lod_of_property("lod4"), Some(4));
    assert_eq!(lod_of_property("lod"), None);
    assert_eq!(lod_of_property("lodX"), None);
    assert_eq!(lod_of_property("Lod1Solid"), None);
    assert_eq!(lod_of_property("boundedBy"), None);
    assert_eq!(lod_of_property(""), None);
    assert_eq!(lod_of_property("lod²"), None);
}

#[test]
fn geometries_are_known_by_their_element_names() {
    assert!(matches!(geometry_of_element("Solid"), Some(GeometryParseType::Solid)));
    assert!(matches!(geometry_of_element("MultiSurface"), Some(GeometryParseType::MultiSurface)));
    assert!(matches!(geometry_of_element("MultiCurve"), Some(GeometryParseType::MultiCurve)));
    assert!(matches!(geometry_of_element("MultiPoint"), Some(GeometryParseType::MultiPoint)));
    assert!(matches!(geometry_of_element("Polygon"), Some(GeometryParseType::Surface)));
    assert!(matches!(geometry_of_element("Point"), Some(GeometryParseType::Point)));
    assert!(matches!(geometry_of_element("Tin"), Some(GeometryParseType::Triangulated)));
    assert!(matches!(
        geometry_of_element("TriangulatedSurface"),
        Some(GeometryParseType::Triangulated)
    ));
    assert!(geometry_of_element("posList").is_none());
    assert!(geometry_of_element("solid").is_none());
    assert_eq!(stored_as(GeometryParseType::Solid), GeometryType::Solid);
    assert_eq!(stored_as(GeometryParseType::MultiSurface), GeometryType::Surface);
    assert_eq!(stored_as(GeometryParseType::Surface), GeometryType::Surface);
    assert_eq!(stored_as(GeometryParseType::Geometry), GeometryType::Surface);
    assert_eq!(stored_as(GeometryParseType::Triangulated), GeometryType::Triangle);
    assert_eq!(stored_as(GeometryParseType::MultiCurve), GeometryType::Curve);
    assert_eq!(stored_as(GeometryParseType::Point), GeometryType::Point);
}

#[test]
fn positions_come_as_latitude_longitude_height() {
    let numbers: Vec<u64> =
        [35.0f64, 139.0, 10.0, 36.0, 140.0, 20.0].iter().map(|n| n.to_bits()).collect();
    assert_eq!(
        positions_from_numbers(&numbers, 3).unwrap(),
        vec![v(139., 35., 10.), v(140., 36., 20.)]
    );
    assert_eq!(
        positions_from_numbers(&numbers, 2).unwrap(),
        vec![v(139., 35., 0.), v(36., 10., 0.), v(20., 140., 0.)]
    );
    assert_eq!(positions_from_numbers(&vec![], 3).unwrap(), vec![]);
    assert!(matches!(
        positions_from_numbers(&numbers[..5].to_vec(), 3),
        Err(ParseError::InvalidValue(_))
    ));
    assert!(matches!(
        positions_from_numbers(&numbers[..5].to_vec(), 2),
        Err(ParseError::InvalidValue(_))
    ));
    assert!(matches!(positions_from_numbers(&numbers, 1), Err(ParseError::InvalidValue(_))));
    assert!(matches!(positions_from_numbers(&numbers, 4), Err(ParseError::InvalidValue(_))));
    assert!(matches!(positions_from_numbers(&numbers, 0), Err(ParseError::InvalidValue(_))));
}

/// A feature with `lod1Solid` of one cube and `lod2MultiSurface` of two
/// quads.
fn cube_then_quads(reader: &mut GeometryReader) -> Vec<GeometryRef> {
    reader.begin_feature();
    reader.begin_property(1, GeometryParseType::Solid);
    for corners in CUBE {
        reader.add_ring(false, &face(corners), None);
    }
    reader.end_property().unwrap();
    reader.begin_property(2, GeometryParseType::MultiSurface);
    reader.add_ring(false, &face(CUBE[0]), Some(LocalId("floor".to_string())));
    reader.add_ring(false, &face(CUBE[1]), Some(LocalId("roof".to_string())));
    reader.end_property().unwrap();
    reader.end_feature()
}

#[test]
fn highest_lod_wins_while_reading() {
    let mut reader = GeometryReader::new();
    let refs = cube_then_quads(&mut reader);
    assert_eq!(refs, vec![GeometryRef { ty: GeometryType::Surface, lod: 2, pos: 0, len: 2 }]);
    let store = reader.finish();
    assert!(store.vertices.len() <= 8);
    assert_eq!(store.vertices.len(), 8);
    assert_eq!(store.multipolygon.polygons.len(), 2);
    assert_eq!(store.ring_ids.len(), 2);
    assert_eq!(store.ring_ids[1].as_ref().unwrap().0, "roof");
    assert!(refs.iter().all(|r| r.lod == 2));
    assert!(store.is_wf());
    assert_eq!(store.epsg, 6697);

    let root = Value::Object(Object {
        typename: "bldg:Building".to_string(),
        attributes: vec![],
        stereotype: ObjectStereotype::Feature { id: "b".to_string(), geometries: refs },
    });
    assert!(check_refs(&root, &store));
    let entity = Entity {
        root,
        base_url: String::new(),
        geometry_store: Arc::new(store),
        appearance_store: Arc::new(AppearanceStore::default()),
    };
    assert!(entity.is_wf());
}

#[test]
fn a_higher_lod_drops_the_vertices_of_the_lower_one() {
    let mut reader = GeometryReader::new();
    reader.begin_feature();
    reader.begin_property(1, GeometryParseType::Solid);
    for corners in CUBE {
        reader.add_ring(false, &face(corners), None);
    }
    reader.end_property().unwrap();
    assert_eq!(reader.collector.vertex_count(), 8);

    // two quads, one of them with a corner that is no corner of the cube
    reader.begin_property(2, GeometryParseType::MultiSurface);
    assert_eq!(reader.collector.vertex_count(), 0);
    assert_eq!(reader.collector.multipolygon.polygons.len(), 0);
    assert_eq!(reader.collector.ring_ids.len(), 0);
    let apex = v(0.5, 0.5, 2.0);
    let first = vec![cube_corner(4), cube_corner(5), apex, cube_corner(6), cube_corner(4)];
    reader.add_ring(false, &first, None);
    reader.add_ring(false, &face(CUBE[0]), None);
    reader.end_property().unwrap();
    let refs = reader.end_feature();
    assert_eq!(refs, vec![GeometryRef { ty: GeometryType::Surface, lod: 2, pos: 0, len: 2 }]);

    let store = reader.finish();
    assert!(store.vertices.len() <= 8);
    assert_eq!(
        store.vertices,
        vec![
            cube_corner(4),
            cube_corner(5),
            apex,
            cube_corner(6),
            cube_corner(0),
            cube_corner(1),
            cube_corner(3),
            cube_corner(2),
        ]
    );
    assert_eq!(store.multipolygon.polygons.len(), 2);
    assert_eq!(store.multipolygon.polygons[0].exterior, vec![0, 1, 2, 3, 0]);
    assert_eq!(store.multipolygon.polygons[1].exterior, vec![4, 5, 6, 7, 4]);
    assert!(store.is_wf());
}

#[test]
fn a_reset_keeps_what_was_read_before_the_feature() {
    let mut reader = GeometryReader::new();
    reader.begin_feature();
    reader.begin_property(1, GeometryParseType::MultiSurface);
    reader.add_ring(false, &face(CUBE[0]), Some(LocalId("outer".to_string())));
    reader.end_property().unwrap();

    // the nested feature is reset; what its parent read before it stays
    reader.begin_feature();
    reader.begin_property(1, GeometryParseType::Solid);
    reader.add_ring(false, &face(CUBE[1]), None);
    reader.add_ring(false, &face(CUBE[2]), None);
    reader.end_property().unwrap();
    assert_eq!(reader.collector.vertex_count(), 8);
    reader.begin_property(3, GeometryParseType::MultiSurface);
    assert_eq!(reader.collector.vertex_count(), 4);
    assert_eq!(reader.collector.multipolygon.polygons.len(), 1);
    assert_eq!(reader.collector.ring_ids.len(), 1);
    reader.add_ring(false, &face(CUBE[5]), None);
    reader.end_property().unwrap();
    let inner = reader.end_feature();
    assert_eq!(inner, vec![GeometryRef { ty: GeometryType::Surface, lod: 3, pos: 1, len: 1 }]);

    // the parent no longer owns the end of the store, so nothing is dropped
    reader.begin_property(2, GeometryParseType::MultiSurface);
    assert_eq!(reader.collector.multipolygon.polygons.len(), 2);
    assert_eq!(reader.collector.vertex_count(), 6);
    reader.add_ring(false, &face(CUBE[3]), None);
    reader.end_property().unwrap();
    let outer = reader.end_feature();
    assert_eq!(outer, vec![GeometryRef { ty: GeometryType::Surface, lod: 2, pos: 2, len: 1 }]);
    let store = reader.finish();
    assert_eq!(store.multipolygon.polygons.len(), 3);
    assert_eq!(store.vertices.len(), 7);
    assert!(store.is_wf());
}

#[test]
fn lower_lod_after_a_higher_one_is_passed_over() {
    let mut reader = GeometryReader::new();
    reader.begin_feature();
    reader.begin_property(2, GeometryParseType::MultiSurface);
    reader.add_ring(false, &face(CUBE[0]), None);
    reader.add_ring(true, &face(CUBE[1]), None);
    reader.end_property().unwrap();
    reader.begin_property(1, GeometryParseType::Solid);
    for corners in CUBE {
        reader.add_ring(false, &face(corners), None);
    }
    reader.end_property().unwrap();
    // a property of the same level is added to what is there
    reader.begin_property(2, GeometryParseType::Triangulated);
    reader.add_ring(false, &vec![cube_corner(0), cube_corner(1), cube_corner(2)], None);
    reader.end_property().unwrap();
    // a property without polygons gives no reference
    reader.begin_property(2, GeometryParseType::Solid);
    reader.end_property().unwrap();
    let refs = reader.end_feature();
    assert_eq!(
        refs,
        vec![
            GeometryRef { ty: GeometryType::Surface, lod: 2, pos: 0, len: 1 },
            GeometryRef { ty: GeometryType::Triangle, lod: 2, pos: 1, len: 1 },
        ]
    );
    let store = reader.finish();
    // only the four corners of the floor and of the roof were met
    assert_eq!(store.vertices.len(), 8);
    assert_eq!(store.multipolygon.polygons.len(), 2);
    assert_eq!(store.multipolygon.polygons[0].interiors.len(), 1);
    assert_eq!(store.multipolygon.polygons[1].exterior.len(), 3);
}

#[test]
fn nested_features_keep_their_own_geometries() {
    let mut reader = GeometryReader::new();
    reader.begin_feature();
    reader.begin_property(1, GeometryParseType::Solid);
    reader.add_ring(false, &face(CUBE[0]), None);
    reader.end_property().unwrap();

    // a wall nested in the building
    reader.begin_feature();
    reader.begin_property(2, GeometryParseType::MultiSurface);
    reader.add_ring(false, &face(CUBE[2]), None);
    reader.end_property().unwrap();
    let wall = reader.end_feature();
    assert_eq!(wall, vec![GeometryRef { ty: GeometryType::Surface, lod: 2, pos: 1, len: 1 }]);

    // a higher level of the building drops its references, not the polygons
    // that the wall refers to
    reader.begin_property(3, GeometryParseType::MultiSurface);
    reader.add_ring(false, &face(CUBE[1]), None);
    reader.add_ring(false, &face(CUBE[3]), None);
    reader.end_property().unwrap();
    let building = reader.end_feature();
    assert_eq!(building, vec![GeometryRef { ty: GeometryType::Surface, lod: 3, pos: 2, len: 2 }]);

    let store = reader.finish();
    assert_eq!(store.multipolygon.polygons.len(), 4);
    assert!(store.holds_all(&wall));
    assert!(store.holds_all(&building));
    assert!(store.is_wf());
}

fn leaf(type_ref: TypeRef, text: &str) -> Result<Option<Value>, ParseError> {
    let number = text.trim().parse::<f64>().ok().map(f64::to_bits);
    leaf_value(&type_ref, text, number, Some("codes.xml".to_string()))
}

#[test]
fn leaves_are_read_by_their_type() {
    assert!(matches!(leaf(TypeRef::String, "hall"), Ok(Some(Value::String(s))) if s == "hall"));
    assert!(matches!(leaf(TypeRef::JsonString, "{}"), Ok(Some(Value::String(s))) if s == "{}"));
    assert!(matches!(leaf(TypeRef::URI, "http://x"), Ok(Some(Value::URI(s))) if s == "http://x"));
    assert!(matches!(leaf(TypeRef::Date, "2024-01-31"), Ok(Some(Value::Date(s))) if s == "2024-01-31"));
    assert!(matches!(
        leaf(TypeRef::DateTime, "2024-01-31T10:00:00"),
        Ok(Some(Value::DateTime(_)))
    ));
    assert!(matches!(leaf(TypeRef::Integer, "-42"), Ok(Some(Value::Integer(-42)))));
    assert!(matches!(leaf(TypeRef::NonNegativeInteger, "42"), Ok(Some(Value::Integer(42)))));
    assert!(matches!(leaf(TypeRef::NonNegativeInteger, "0"), Ok(Some(Value::Integer(0)))));
    assert!(matches!(
        leaf(TypeRef::Double, "12.5"),
        Ok(Some(Value::Double(b))) if b == 12.5f64.to_bits()
    ));
    assert!(matches!(
        leaf(TypeRef::Measure, "3"),
        Ok(Some(Value::Measure(b))) if b == 3f64.to_bits()
    ));
    assert!(matches!(leaf(TypeRef::Boolean, "true"), Ok(Some(Value::Boolean(true)))));
    assert!(matches!(leaf(TypeRef::Boolean, "1"), Ok(Some(Value::Boolean(true)))));
    assert!(matches!(leaf(TypeRef::Boolean, "false"), Ok(Some(Value::Boolean(false)))));
    assert!(matches!(leaf(TypeRef::Boolean, "0"), Ok(Some(Value::Boolean(false)))));
    assert!(matches!(
        leaf(TypeRef::Code, "411"),
        Ok(Some(Value::Code(c))) if c.value == "411" && c.code_space == "codes.xml"
    ));
    assert!(matches!(
        leaf_value(&TypeRef::Code, "411", None, None),
        Ok(Some(Value::Code(c))) if c.code_space.is_empty()
    ));
}

#[test]
fn leaves_that_are_no_value_of_their_type_are_invalid() {
    let invalid = |type_ref: TypeRef, text: &str| {
        matches!(leaf(type_ref, text), Err(ParseError::InvalidValue(t)) if t == text)
    };
    assert!(invalid(TypeRef::Integer, "4.2"));
    assert!(invalid(TypeRef::Integer, "four"));
    assert!(invalid(TypeRef::NonNegativeInteger, "-1"));
    assert!(invalid(TypeRef::Double, "1,5"));
    assert!(invalid(TypeRef::Measure, "tall"));
    assert!(invalid(TypeRef::Boolean, "yes"));
    assert!(invalid(TypeRef::Boolean, "TRUE"));
    assert!(invalid(TypeRef::Point, "1 2 3"));
    assert!(invalid(TypeRef::Unknown, "x"));
    assert!(invalid(TypeRef::Named("bldg:Room".to_string()), "x"));
}

#[test]
fn whitespace_only_text_is_dropped() {
    for type_ref in [TypeRef::String, TypeRef::Integer, TypeRef::Boolean, TypeRef::Point] {
        assert!(matches!(leaf(type_ref, " \t\r\n\x0c"), Ok(None)));
    }
    assert!(matches!(leaf(TypeRef::Double, ""), Ok(None)));
    assert!(is_blank(""));
    assert!(is_blank("  \n"));
    assert!(!is_blank(" x "));
    // a no-break space is no ASCII whitespace
    assert!(!is_blank("\u{a0}"));
    assert!(matches!(leaf(TypeRef::String, " x "), Ok(Some(Value::String(s))) if s == " x "));
    assert_eq!(parse_boolean("1"), Some(true));
    assert_eq!(parse_boolean("2"), None);
}

fn attributes(names: &[&str]) -> IndexMap<String, Attribute, ahash::RandomState> {
    let mut map: IndexMap<String, Attribute, ahash::RandomState> = IndexMap::default();
    for name in names {
        map.insert(name.to_string(), Attribute::default());
    }
    map
}

#[test]
fn elements_are_matched_against_the_schema() {
    let strict = TypeDef::Feature(FeatureTypeDef {
        attributes: attributes(&["name", "usage", "height"]),
        additional_attributes: false,
    });
    assert_eq!(match_element(&strict, "name").ok(), Some(ElementAction::Descend(0)));
    assert_eq!(match_element(&strict, "height").ok(), Some(ElementAction::Descend(2)));
    assert!(matches!(
        match_element(&strict, "colour"),
        Err(ParseError::SchemaViolation(n)) if n == "colour"
    ));
    assert!(matches!(match_element(&strict, "Name"), Err(ParseError::SchemaViolation(_))));

    let open = TypeDef::Data(DataTypeDef {
        attributes: attributes(&["street"]),
        additional_attributes: true,
    });
    assert_eq!(match_element(&open, "street").ok(), Some(ElementAction::Descend(0)));
    assert_eq!(match_element(&open, "colour").ok(), Some(ElementAction::Skip));

    let object = TypeDef::Object(ObjectTypeDef {
        attributes: attributes(&[]),
        additional_attributes: false,
    });
    assert!(matches!(match_element(&object, "x"), Err(ParseError::SchemaViolation(_))));

    let choice = TypeDef::Property(PropertyTypeDef {
        members: vec![
            ("a".to_string(), Attribute::default()),
            ("b".to_string(), Attribute::default()),
        ],
    });
    assert_eq!(match_element(&choice, "b").ok(), Some(ElementAction::Descend(1)));
    assert!(matches!(match_element(&choice, "c"), Err(ParseError::SchemaViolation(_))));
    assert_eq!(find_declared(&attributes(&["p", "q"]), "q"), Some(1));
    assert_eq!(find_declared(&attributes(&["p", "q"]), "r"), None);
}

#[test]
fn skipped_subtrees_end_with_their_own_element() {
    // <a><b/><c><d/></c></a>, skipped from <a> on
    let mut skip = SkipState::new();
    skip.start(); // b
    assert!(!skip.end());
    skip.start(); // c
    skip.start(); // d
    assert!(!skip.end());
    assert!(!skip.end());
    assert!(skip.end()); // a
}

#[test]
fn features_have_ids_of_their_own() {
    let mut ids = FeatureIds::new();
    assert!(ids.register("bldg-1").is_ok());
    assert!(ids.register("bldg-2").is_ok());
    assert!(matches!(ids.register("bldg-1"), Err(ParseError::InvalidValue(id)) if id == "bldg-1"));
    assert!(matches!(ids.register(""), Err(ParseError::InvalidValue(id)) if id.is_empty()));
    assert!(ids.register("BLDG-1").is_ok());
    let seen: Vec<&String> = ids.seen.iter().collect();
    assert_eq!(seen, vec!["bldg-1", "bldg-2", "BLDG-1"]);
}

#[test]
fn a_leaf_is_made_of_what_its_text_reads_as() {
    let made = |type_ref: TypeRef, text: &str, integer: Option<i64>| {
        leaf_of(&type_ref, text, integer, None, None)
    };
    assert!(matches!(made(TypeRef::Integer, "12", Some(12)), Ok(Some(Value::Integer(12)))));
    assert!(matches!(made(TypeRef::Integer, "-3", Some(-3)), Ok(Some(Value::Integer(-3)))));
    assert!(matches!(
        made(TypeRef::Integer, "x", None),
        Err(ParseError::InvalidValue(t)) if t == "x"
    ));
    // a non-negative integer may be zero and may not be below
    assert!(matches!(made(TypeRef::NonNegativeInteger, "0", Some(0)), Ok(Some(Value::Integer(0)))));
    assert!(matches!(
        made(TypeRef::NonNegativeInteger, "7", Some(7)),
        Ok(Some(Value::Integer(7)))
    ));
    assert!(matches!(
        made(TypeRef::NonNegativeInteger, "-1", Some(-1)),
        Err(ParseError::InvalidValue(t)) if t == "-1"
    ));
    assert!(matches!(
        made(TypeRef::NonNegativeInteger, "-9223372036854775808", Some(i64::MIN)),
        Err(ParseError::InvalidValue(_))
    ));
    assert!(matches!(made(TypeRef::NonNegativeInteger, "x", None), Err(ParseError::InvalidValue(_))));
    // the number is not asked where the type is no integer
    assert!(matches!(made(TypeRef::String, "12", None), Ok(Some(Value::String(s))) if s == "12"));
    assert!(matches!(made(TypeRef::String, "12", Some(5)), Ok(Some(Value::String(s))) if s == "12"));
    assert!(matches!(made(TypeRef::Integer, "  ", Some(1)), Ok(None)));
    assert!(matches!(
        leaf_of(&TypeRef::Double, "1.5", Some(1), Some(1.5f64.to_bits()), None),
        Ok(Some(Value::Double(b))) if b == 1.5f64.to_bits()
    ));
    assert!(matches!(
        leaf_of(&TypeRef::Code, "1001", None, None, Some("codes.xml".to_string())),
        Ok(Some(Value::Code(c))) if c.value == "1001" && c.code_space == "codes.xml"
    ));

    // the text is read as a whole number by the function that asks for none
    assert!(matches!(
        leaf_value(&TypeRef::Integer, "+42", None, None),
        Ok(Some(Value::Integer(42)))
    ));
    assert!(matches!(
        leaf_value(&TypeRef::NonNegativeInteger, "-42", None, None),
        Err(ParseError::InvalidValue(_))
    ));
    assert!(matches!(
        leaf_value(&TypeRef::Integer, "9223372036854775808", None, None),
        Err(ParseError::InvalidValue(_))
    ));
}

#[test]
fn geometry_properties_tell_their_level_and_kind() {
    assert!(matches!(property_geometry("lod1Solid"), Some((1, GeometryParseType::Solid))));
    assert!(matches!(
        property_geometry("lod2MultiSurface"),
        Some((2, GeometryParseType::MultiSurface))
    ));
    assert!(matches!(property_geometry("lod0MultiCurve"), Some((0, GeometryParseType::MultiCurve))));
    assert!(matches!(property_geometry("lod3Geometry"), Some((3, GeometryParseType::Geometry))));
    assert!(matches!(property_geometry("lod0RoofEdge"), Some((0, GeometryParseType::Geometry))));
    assert!(matches!(property_geometry("lod4"), Some((4, GeometryParseType::Geometry))));
    assert!(property_geometry("lod").is_none());
    assert!(property_geometry("lodSolid").is_none());
    assert!(property_geometry("Solid").is_none());
    assert!(property_geometry("boundedBy").is_none());
    assert!(property_geometry("").is_none());
}

#[test]
fn rings_are_read_as_their_elements_say() {
    assert_eq!(ring_part_of("exterior"), Some(RingPart::Exterior));
    assert_eq!(ring_part_of("interior"), Some(RingPart::Interior));
    assert_eq!(ring_part_of("LinearRing"), Some(RingPart::LinearRing));
    assert_eq!(ring_part_of("posList"), Some(RingPart::PosList));
    assert_eq!(ring_part_of("pos"), Some(RingPart::Pos));
    assert!(RingPart::Pos.holds_positions() && RingPart::PosList.holds_positions());
    assert!(!RingPart::LinearRing.holds_positions() && !RingPart::Exterior.holds_positions());
    assert_eq!(ring_part_of("Polygon"), None);
    assert_eq!(ring_part_of("poslist"), None);

    let mut context = RingContext::new();
    assert!(!context.interior && context.ring_id.is_none() && context.srs_dimension == 3);
    let mut reader = GeometryReader::new();
    reader.begin_feature();
    reader.begin_property(2, GeometryParseType::MultiSurface);

    let square: Vec<u64> = [0., 0., 5., 0., 4., 5., 4., 4., 5., 4., 0., 5., 0., 0., 5.]
        .iter()
        .map(|n: &f64| n.to_bits())
        .collect();
    context.on_start("Polygon", Some("poly-1".to_string()), None);
    context.on_start("exterior", None, None);
    context.on_start("LinearRing", Some("ring-1".to_string()), None);
    context.on_start("posList", None, None);
    assert!(matches!(&context.ring_id, Some(LocalId(id)) if id == "ring-1"));
    assert!(reader.add_positions(&mut context, &square).is_ok());
    assert!(context.ring_id.is_none());

    // a hole, given with two numbers to a position
    let hole: Vec<u64> = [1., 1., 1., 2., 2., 2.].iter().map(|n: &f64| n.to_bits()).collect();
    context.on_start("interior", None, None);
    context.on_start("LinearRing", None, None);
    context.on_start("posList", None, Some(2));
    assert!(context.interior && context.srs_dimension == 2);
    assert!(reader.add_positions(&mut context, &hole).is_ok());

    // numbers that do not come out even change nothing
    context.on_start("posList", None, None);
    assert_eq!(context.srs_dimension, 3);
    assert!(matches!(
        reader.add_positions(&mut context, &hole[..4].to_vec()),
        Err(ParseError::InvalidValue(_))
    ));
    context.on_start("posList", None, Some(4));
    assert!(matches!(
        reader.add_positions(&mut context, &hole),
        Err(ParseError::InvalidValue(_))
    ));

    reader.end_property().unwrap();
    let refs = reader.end_feature();
    assert_eq!(refs, vec![GeometryRef { ty: GeometryType::Surface, lod: 2, pos: 0, len: 1 }]);
    let store = reader.finish();
    assert_eq!(store.multipolygon.polygons.len(), 1);
    // latitude and longitude change places; a position of two numbers has no height
    assert_eq!(store.vertices[1], v(4., 0., 5.));
    assert_eq!(store.vertices[4], v(1., 1., 0.));
    assert_eq!(store.multipolygon.polygons[0].exterior, vec![0, 1, 2, 3, 0]);
    assert_eq!(store.multipolygon.polygons[0].interiors, vec![vec![4, 5, 6]]);
    assert_eq!(store.ring_ids.len(), 2);
    assert_eq!(store.ring_ids[0].as_ref().unwrap().0, "ring-1");
    assert!(store.ring_ids[1].is_none());
}

fn numbers(list: &[f64]) -> Vec<u64> {
    list.iter().map(|n| n.to_bits()).collect()
}

#[test]
fn curves_and_points_are_counted_in_their_own_collections() {
    let mut reader = GeometryReader::new();
    let mut context = RingContext::new();
    reader.begin_feature();

    // two line-strings
    let (level, kind) = property_geometry("lod0MultiCurve").unwrap();
    reader.begin_property(level, kind);
    context.on_start("posList", None, None);
    reader.add_positions(&mut context, &numbers(&[0., 0., 1., 0., 2., 1., 0., 4., 1.])).unwrap();
    reader.add_positions(&mut context, &numbers(&[0., 4., 1., 5., 5., 1.])).unwrap();
    reader.end_property().unwrap();

    // one point, which is a vertex of a line-string too
    reader.begin_property(0, GeometryParseType::Point);
    context.on_start("pos", None, None);
    reader.add_positions(&mut context, &numbers(&[0., 2., 1.])).unwrap();
    reader.end_property().unwrap();

    // one triangle
    reader.begin_property(0, GeometryParseType::MultiSurface);
    context.on_start("exterior", None, None);
    context.on_start("posList", None, None);
    reader
        .add_positions(&mut context, &numbers(&[0., 0., 1., 0., 4., 1., 5., 5., 1., 0., 0., 1.]))
        .unwrap();
    reader.end_property().unwrap();

    let refs = reader.end_feature();
    assert_eq!(
        refs,
        vec![
            GeometryRef { ty: GeometryType::Curve, lod: 0, pos: 0, len: 2 },
            GeometryRef { ty: GeometryType::Point, lod: 0, pos: 0, len: 1 },
            GeometryRef { ty: GeometryType::Surface, lod: 0, pos: 0, len: 1 },
        ]
    );
    let store = reader.finish();
    assert_eq!(store.epsg, 6697);
    assert_eq!(store.multilinestring.lines, vec![vec![0, 1, 2], vec![2, 3]]);
    assert_eq!(store.multipoint.points, vec![1]);
    assert_eq!(store.multipolygon.polygons.len(), 1);
    assert_eq!(store.multipolygon.polygons[0].exterior, vec![0, 2, 3, 0]);
    assert_eq!(store.vertices, vec![v(0., 0., 1.), v(2., 0., 1.), v(4., 0., 1.), v(5., 5., 1.)]);
    // the ring ids are those of the rings of polygons
    assert_eq!(store.ring_ids.len(), 1);
    assert!(store.surface_spans.is_empty());
    assert!(store.is_wf());
    assert!(refs.iter().all(|r| store.holds(r)));

    let entity = Entity {
        root: Value::Object(Object {
            typename: "tran:Road".to_string(),
            attributes: vec![],
            stereotype: ObjectStereotype::Feature { id: "road-1".to_string(), geometries: refs },
        }),
        base_url: "file:///city.gml".to_string(),
        geometry_store: Arc::new(store),
        appearance_store: Arc::new(AppearanceStore::default()),
    };
    assert!(entity.is_wf());
}

#[test]
fn a_higher_lod_drops_the_lines_and_points_of_the_lower_one() {
    let mut reader = GeometryReader::new();
    let mut context = RingContext::new();
    reader.begin_feature();
    reader.begin_property(1, GeometryParseType::MultiCurve);
    reader.add_positions(&mut context, &numbers(&[0., 0., 0., 1., 1., 1.])).unwrap();
    reader.end_property().unwrap();
    reader.begin_property(1, GeometryParseType::MultiPoint);
    reader.add_positions(&mut context, &numbers(&[7., 7., 7., 8., 8., 8.])).unwrap();
    reader.end_property().unwrap();
    assert_eq!(reader.collector.multilinestring.lines.len(), 1);
    assert_eq!(reader.collector.multipoint.points, vec![2, 3]);
    assert_eq!(reader.collector.vertex_count(), 4);

    reader.begin_property(2, GeometryParseType::MultiCurve);
    assert_eq!(reader.collector.multilinestring.lines.len(), 0);
    assert_eq!(reader.collector.multipoint.points.len(), 0);
    assert_eq!(reader.collector.vertex_count(), 0);
    reader.add_positions(&mut context, &numbers(&[9., 9., 9., 0., 0., 0.])).unwrap();
    reader.end_property().unwrap();
    // a lower level is passed over, whatever its kind
    reader.begin_property(1, GeometryParseType::Point);
    reader.add_positions(&mut context, &numbers(&[7., 7., 7.])).unwrap();
    reader.end_property().unwrap();

    let refs = reader.end_feature();
    assert_eq!(refs, vec![GeometryRef { ty: GeometryType::Curve, lod: 2, pos: 0, len: 1 }]);
    let store = reader.finish();
    assert_eq!(store.multilinestring.lines, vec![vec![0, 1]]);
    assert!(store.multipoint.points.is_empty());
    assert_eq!(store.vertices, vec![v(9., 9., 9.), v(0., 0., 0.)]);
    assert!(store.is_wf());
    assert!(refs.iter().all(|r| store.holds(r)));
}

#[test]
fn the_first_geometry_of_a_property_tells_its_kind() {
    let mut reader = GeometryReader::new();
    let mut context = RingContext::new();
    reader.begin_feature();

    // a property of no special kind that holds curves
    let (level, kind) = property_geometry("lod1Geometry").unwrap();
    reader.begin_property(level, kind);
    assert!(reader.see_geometry(geometry_of_element("MultiCurve").unwrap()));
    reader.add_positions(&mut context, &numbers(&[0., 0., 0., 1., 1., 1.])).unwrap();
    reader.end_property().unwrap();

    // a solid stays a solid, whatever its faces are
    reader.begin_property(1, GeometryParseType::Geometry);
    assert!(reader.see_geometry(geometry_of_element("Solid").unwrap()));
    assert!(!reader.see_geometry(geometry_of_element("Polygon").unwrap()));
    reader
        .add_positions(&mut context, &numbers(&[0., 0., 0., 1., 1., 1., 2., 0., 2., 0., 0., 0.]))
        .unwrap();
    reader.end_property().unwrap();

    // a triangulated surface gives triangles
    reader.begin_property(1, GeometryParseType::Geometry);
    assert!(reader.see_geometry(geometry_of_element("Tin").unwrap()));
    reader
        .add_positions(&mut context, &numbers(&[5., 5., 5., 6., 6., 6., 7., 5., 7., 5., 5., 5.]))
        .unwrap();
    // a geometry that is met once rings were read changes nothing
    assert!(!reader.see_geometry(GeometryParseType::MultiCurve));
    reader.end_property().unwrap();

    let refs = reader.end_feature();
    assert_eq!(
        refs,
        vec![
            GeometryRef { ty: GeometryType::Curve, lod: 1, pos: 0, len: 1 },
            GeometryRef { ty: GeometryType::Solid, lod: 1, pos: 0, len: 1 },
            GeometryRef { ty: GeometryType::Triangle, lod: 1, pos: 1, len: 1 },
        ]
    );
    let store = reader.finish();
    assert_eq!(store.multilinestring.lines.len(), 1);
    assert_eq!(store.multipolygon.polygons.len(), 2);
    assert!(store.is_wf());
    assert!(refs.iter().all(|r| store.holds(r)));
}
