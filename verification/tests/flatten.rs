use std::sync::Arc;

use indexmap::IndexMap;
use nusamai::appearance::AppearanceStore;
use nusamai::geometry::{GeometryRef, GeometryStore, GeometryType};
use nusamai::object::{Entity, Object, ObjectStereotype, Value};
use nusamai::schema::{Attribute, DataTypeDef, FeatureTypeDef, Schema, TypeDef, TypeRef};
use nusamai::transformer::flatten::{
    DataFlatteningOption, FeatureFlatteningOption, FlattenTreeTransform, ObjectFlatteningOption,
};

fn feature(typename: &str, id: &str, attributes: Vec<(String, Value)>) -> Value {
    Value::Object(Object {
        typename: typename.to_string(),
        attributes,
        stereotype: ObjectStereotype::Feature {
            id: id.to_string(),
            geometries: vec![GeometryRef { ty: GeometryType::Surface, lod: 2, pos: 0, len: 0 }],
        },
    })
}

fn entity(root: Value) -> Entity {
    Entity {
        root,
        base_url: "file:///city.gml".to_string(),
        geometry_store: Arc::new(GeometryStore::default()),
        appearance_store: Arc::new(AppearanceStore::default()),
    }
}

fn building_with_surfaces_and_part() -> Value {
    feature(
        "bldg:Building",
        "bldg-1",
        vec![
            ("measuredHeight".to_string(), Value::Double(12.5f64.to_bits())),
            (
                "boundedBy".to_string(),
                Value::Array(vec![
                    feature("bldg:WallSurface", "wall-1", vec![]),
                    feature("bldg:WallSurface", "wall-2", vec![]),
                ]),
            ),
            (
                "consistsOfBuildingPart".to_string(),
                Value::Array(vec![feature(
                    "bldg:Building",
                    "bldg-2",
                    vec![("usage".to_string(), Value::String("shop".to_string()))],
                )]),
            ),
        ],
    )
}

fn attribute<'a>(obj: &'a Object, name: &str) -> Option<&'a Value> {
    obj.attributes.iter().find(|(k, _)| k == name).map(|(_, v)| v)
}

fn root_object_of(value: &Value) -> &Object {
    match value {
        Value::Object(obj) => obj,
        other => panic!("the value is no object: {:?}", other),
    }
}

fn root_object(entity: &Entity) -> &Object {
    match &entity.root {
        Value::Object(obj) => obj,
        other => panic!("the root is no object: {:?}", other),
    }
}

#[test]
fn thematic_surfaces_stay_with_their_parent() {
    let mut transform = FlattenTreeTransform::with_options(
        FeatureFlatteningOption::AllExceptThematicSurfaces,
        DataFlatteningOption::Off,
        ObjectFlatteningOption::Off,
    );
    let input = entity(building_with_surfaces_and_part());
    let store = input.geometry_store.clone();
    let mut out = Vec::new();
    transform.transform(input, &mut out);

    // the nested building comes first, the building that held it last
    assert_eq!(out.len(), 2);
    let part = root_object(&out[0]);
    let building = root_object(&out[1]);
    assert_eq!(part.typename, "bldg:Building");
    assert!(matches!(&part.stereotype, ObjectStereotype::Feature { id, .. } if id == "bldg-2"));
    assert!(matches!(&building.stereotype, ObjectStereotype::Feature { id, .. } if id == "bldg-1"));

    // the promoted child carries the id and the type of its parent
    assert!(matches!(attribute(part, "parentId"), Some(Value::String(s)) if s == "bldg-1"));
    assert!(matches!(attribute(part, "parentType"), Some(Value::String(s)) if s == "bldg:Building"));
    assert!(matches!(attribute(part, "usage"), Some(Value::String(s)) if s == "shop"));
    assert_eq!(part.attributes.len(), 3);

    // the root has no parent
    assert!(attribute(building, "parentId").is_none());
    assert!(attribute(building, "parentType").is_none());

    // the wall surfaces remain as attributes of their parent
    match attribute(building, "boundedBy") {
        Some(Value::Array(walls)) => {
            assert_eq!(walls.len(), 2);
            for (wall, id) in walls.iter().zip(["wall-1", "wall-2"]) {
                match wall {
                    Value::Object(obj) => {
                        assert_eq!(obj.typename, "bldg:WallSurface");
                        assert!(matches!(&obj.stereotype, ObjectStereotype::Feature { id: i, .. } if i == id));
                        assert!(obj.attributes.is_empty());
                    }
                    other => panic!("a wall is no object: {:?}", other),
                }
            }
        }
        other => panic!("the walls are gone: {:?}", other),
    }
    // the array that held the nested building is empty now and is dropped
    assert!(attribute(building, "consistsOfBuildingPart").is_none());
    assert!(matches!(attribute(building, "measuredHeight"), Some(Value::Double(b)) if *b == 12.5f64.to_bits()));
    assert_eq!(building.attributes.len(), 2);

    // every entity refers to the store of the entity it was split off from
    for e in &out {
        assert!(Arc::ptr_eq(&e.geometry_store, &store));
        assert_eq!(e.base_url, "file:///city.gml");
    }
}

#[test]
fn all_features_are_split_off_under_all() {
    let mut transform = FlattenTreeTransform::new();
    transform.set_feature_option(FeatureFlatteningOption::All);
    let mut out = Vec::new();
    transform.transform(entity(building_with_surfaces_and_part()), &mut out);
    let ids: Vec<String> = out
        .iter()
        .map(|e| match &root_object(e).stereotype {
            ObjectStereotype::Feature { id, .. } => id.clone(),
            _ => String::new(),
        })
        .collect();
    assert_eq!(ids, vec!["wall-1", "wall-2", "bldg-2", "bldg-1"]);
    for e in &out[..3] {
        let obj = root_object(e);
        assert!(matches!(attribute(obj, "parentId"), Some(Value::String(s)) if s == "bldg-1"));
    }
    let building = root_object(&out[3]);
    assert_eq!(building.attributes.len(), 1);
}

#[test]
fn the_entity_stays_whole_when_flattening_is_off() {
    let mut transform = FlattenTreeTransform::new();
    let mut out = Vec::new();
    let input = entity(building_with_surfaces_and_part());
    let store = input.geometry_store.clone();
    transform.transform(input, &mut out);
    assert_eq!(out.len(), 1);
    assert_eq!(out[0].base_url, "file:///city.gml");
    assert!(Arc::ptr_eq(&out[0].geometry_store, &store));
    let building = root_object(&out[0]);
    assert_eq!(building.typename, "bldg:Building");
    assert_eq!(building.attributes.len(), 3);
    match attribute(building, "consistsOfBuildingPart") {
        Some(Value::Array(parts)) => {
            assert_eq!(parts.len(), 1);
            assert!(attribute(root_object_of(&parts[0]), "parentId").is_none());
        }
        other => panic!("the part is gone: {:?}", other),
    }

    let mut split = Vec::new();
    let kept = transform.flatten_feature(
        building_with_surfaces_and_part(),
        &"file:///city.gml".to_string(),
        &Arc::new(GeometryStore::default()),
        &Arc::new(AppearanceStore::default()),
        &mut split,
        &None,
        false,
    );
    assert!(split.is_empty());
    match kept {
        Some(Value::Object(obj)) => assert_eq!(obj.attributes.len(), 3),
        other => panic!("the tree is gone: {:?}", other),
    }
}

#[test]
fn a_thematic_surface_at_the_root_is_not_lost() {
    let mut transform = FlattenTreeTransform::with_options(
        FeatureFlatteningOption::AllExceptThematicSurfaces,
        DataFlatteningOption::Off,
        ObjectFlatteningOption::Off,
    );
    let root = feature(
        "bldg:RoofSurface",
        "roof-1",
        vec![("opening".to_string(), feature("bldg:Window", "w-1", vec![]))],
    );
    let mut out = Vec::new();
    transform.transform(entity(root), &mut out);
    assert_eq!(out.len(), 1);
    let roof = root_object(&out[0]);
    assert!(matches!(&roof.stereotype, ObjectStereotype::Feature { id, .. } if id == "roof-1"));
    assert_eq!(roof.attributes.len(), 1);
    assert_eq!(out[0].base_url, "file:///city.gml");
}

#[test]
fn a_root_that_is_no_object_is_passed_on() {
    let mut transform = FlattenTreeTransform::new();
    transform.set_feature_option(FeatureFlatteningOption::All);
    let mut out = Vec::new();
    transform.transform(entity(Value::Integer(3)), &mut out);
    assert_eq!(out.len(), 1);
    assert!(matches!(out[0].root, Value::Integer(3)));

    // an array of which nothing stays leaves only what was split off
    let mut out = Vec::new();
    transform.transform(entity(Value::Array(vec![feature("bldg:Building", "b", vec![])])), &mut out);
    assert_eq!(out.len(), 1);
    assert!(matches!(&root_object(&out[0]).stereotype, ObjectStereotype::Feature { id, .. } if id == "b"));
}

#[test]
fn thematic_surfaces_are_known_by_their_type_names() {
    let transform = FlattenTreeTransform::with_options(
        FeatureFlatteningOption::AllExceptThematicSurfaces,
        DataFlatteningOption::Off,
        ObjectFlatteningOption::Off,
    );
    let is_split = |typename: &str| match feature(typename, "x", vec![]) {
        Value::Object(obj) => transform.is_split_target(&obj),
        _ => unreachable!(),
    };
    assert!(is_split("bldg:Building"));
    assert!(is_split("tran:Road"));
    assert!(!is_split("bldg:WallSurface"));
    assert!(!is_split("bldg:RoofSurface"));
    assert!(!is_split("bldg:Window"));
    assert!(!is_split("bldg:Door"));
    assert!(!is_split("tran:TrafficArea"));
    assert!(!is_split("tran:AuxiliaryTrafficArea"));
    assert!(!is_split("uro:TrafficAreaExtension"));
    assert!(is_split("bldg:Surfaces"));

    // data and plain objects go by options of their own
    let data = Object {
        typename: "bldg:Address".to_string(),
        attributes: vec![],
        stereotype: ObjectStereotype::Data,
    };
    let plain = Object {
        typename: "gen:Thing".to_string(),
        attributes: vec![],
        stereotype: ObjectStereotype::Object { id: "t-1".to_string() },
    };
    assert!(!transform.is_split_target(&data));
    assert!(!transform.is_split_target(&plain));
    let all = FlattenTreeTransform::with_options(
        FeatureFlatteningOption::Off,
        DataFlatteningOption::All,
        ObjectFlatteningOption::All,
    );
    assert!(all.is_split_target(&data));
    assert!(all.is_split_target_at(&data, true));
    assert!(all.is_split_target(&plain));
    assert!(!all.is_split_target_at(&Object {
        typename: "bldg:Building".to_string(),
        attributes: vec![],
        stereotype: ObjectStereotype::Feature { id: "b".to_string(), geometries: vec![] },
    }, false));
    let top = FlattenTreeTransform::with_options(
        FeatureFlatteningOption::Off,
        DataFlatteningOption::TopLevelOnly,
        ObjectFlatteningOption::Off,
    );
    assert!(top.is_split_target(&data));
    assert!(top.is_split_target_at(&data, false));
    assert!(!top.is_split_target_at(&data, true));
    assert!(!top.is_split_target(&plain));
}

fn data(typename: &str, attributes: Vec<(String, Value)>) -> Value {
    Value::Object(Object {
        typename: typename.to_string(),
        attributes,
        stereotype: ObjectStereotype::Data,
    })
}

fn building_with_address() -> Value {
    feature(
        "bldg:Building",
        "bldg-1",
        vec![
            (
                "address".to_string(),
                data(
                    "core:Address",
                    vec![
                        ("city".to_string(), Value::String("Tokyo".to_string())),
                        (
                            "street".to_string(),
                            data(
                                "core:Street",
                                vec![("name".to_string(), Value::String("Main".to_string()))],
                            ),
                        ),
                    ],
                ),
            ),
            (
                "owner".to_string(),
                Value::Object(Object {
                    typename: "gen:Owner".to_string(),
                    attributes: vec![(
                        "seat".to_string(),
                        data("core:Address", vec![]),
                    )],
                    stereotype: ObjectStereotype::Object { id: "owner-1".to_string() },
                }),
            ),
        ],
    )
}

fn typenames(out: &[Entity]) -> Vec<String> {
    out.iter().map(|e| root_object(e).typename.clone()).collect()
}

#[test]
fn top_level_data_is_split_off_and_nested_data_stays() {
    let mut transform = FlattenTreeTransform::with_options(
        FeatureFlatteningOption::Off,
        DataFlatteningOption::TopLevelOnly,
        ObjectFlatteningOption::Off,
    );
    let mut out = Vec::new();
    transform.transform(entity(building_with_address()), &mut out);
    assert_eq!(typenames(&out), vec!["core:Address", "core:Address", "bldg:Building"]);

    // the address of the building carries the building as its parent and
    // keeps the street within it
    let address = root_object(&out[0]);
    assert!(matches!(attribute(address, "parentId"), Some(Value::String(s)) if s == "bldg-1"));
    assert!(matches!(attribute(address, "parentType"), Some(Value::String(s)) if s == "bldg:Building"));
    assert!(matches!(attribute(address, "street"), Some(Value::Object(o)) if o.typename == "core:Street"));
    assert_eq!(address.attributes.len(), 4);

    // the seat of the owner carries the owner as its parent
    let seat = root_object(&out[1]);
    assert!(matches!(attribute(seat, "parentId"), Some(Value::String(s)) if s == "owner-1"));
    assert!(matches!(attribute(seat, "parentType"), Some(Value::String(s)) if s == "gen:Owner"));

    // the owner stays with the building, without its seat
    let building = root_object(&out[2]);
    assert!(attribute(building, "address").is_none());
    match attribute(building, "owner") {
        Some(Value::Object(owner)) => assert!(owner.attributes.is_empty()),
        other => panic!("the owner is gone: {:?}", other),
    }
}

#[test]
fn all_data_and_objects_are_split_off_under_all() {
    let mut transform = FlattenTreeTransform::with_options(
        FeatureFlatteningOption::Off,
        DataFlatteningOption::All,
        ObjectFlatteningOption::All,
    );
    let mut out = Vec::new();
    transform.transform(entity(building_with_address()), &mut out);
    assert_eq!(
        typenames(&out),
        vec!["core:Street", "core:Address", "core:Address", "gen:Owner", "bldg:Building"]
    );
    // the street was found within data, which has no id to hand on
    let street = root_object(&out[0]);
    assert!(attribute(street, "parentId").is_none());
    assert_eq!(street.attributes.len(), 1);
    let address = root_object(&out[1]);
    assert!(attribute(address, "street").is_none());
    assert!(matches!(attribute(address, "parentId"), Some(Value::String(s)) if s == "bldg-1"));
    let owner = root_object(&out[3]);
    assert!(matches!(attribute(owner, "parentId"), Some(Value::String(s)) if s == "bldg-1"));
    // the building is no feature to split off and comes last, as what stays
    let building = root_object(&out[4]);
    assert!(building.attributes.is_empty());
    assert!(attribute(building, "parentId").is_none());
    for e in &out {
        assert_eq!(e.base_url, "file:///city.gml");
    }
}

#[test]
fn data_stays_where_its_option_is_off() {
    let mut transform = FlattenTreeTransform::with_options(
        FeatureFlatteningOption::All,
        DataFlatteningOption::Off,
        ObjectFlatteningOption::Off,
    );
    let mut out = Vec::new();
    transform.transform(entity(building_with_address()), &mut out);
    assert_eq!(typenames(&out), vec!["bldg:Building"]);
    let building = root_object(&out[0]);
    assert_eq!(building.attributes.len(), 2);
    assert!(matches!(attribute(building, "address"), Some(Value::Object(o)) if o.attributes.len() == 2));
}


#[test]
fn parent_attributes_replace_attributes_of_the_same_name() {
    let mut transform = FlattenTreeTransform::new();
    transform.set_feature_option(FeatureFlatteningOption::All);
    transform.set_data_option(DataFlatteningOption::TopLevelOnly);
    transform.set_object_option(ObjectFlatteningOption::All);
    let root = feature(
        "bldg:Building",
        "b",
        vec![(
            "part".to_string(),
            feature(
                "bldg:BuildingPart",
                "p",
                vec![
                    ("parentType".to_string(), Value::Integer(7)),
                    ("name".to_string(), Value::String("n".to_string())),
                ],
            ),
        )],
    );
    let mut out = Vec::new();
    transform.transform(entity(root), &mut out);
    assert_eq!(out.len(), 2);
    let part = root_object(&out[0]);
    let names: Vec<&str> = part.attributes.iter().map(|(k, _)| k.as_str()).collect();
    assert_eq!(names, vec!["parentType", "name", "parentId"]);
    assert!(matches!(&part.attributes[0].1, Value::String(s) if s == "bldg:Building"));
}

#[test]
fn schema_gets_the_parent_attributes_on_feature_types() {
    let mut building: IndexMap<String, Attribute, ahash::RandomState> = IndexMap::default();
    building.insert(
        "parentId".to_string(),
        Attribute { type_ref: TypeRef::Integer, min_occurs: 1, max_occurs: None },
    );
    building.insert("name".to_string(), Attribute::default());
    let mut address: IndexMap<String, Attribute, ahash::RandomState> = IndexMap::default();
    address.insert("street".to_string(), Attribute::default());

    let mut schema = Schema { types: IndexMap::default(), epsg: Some(6697) };
    schema.types.insert(
        "bldg:Building".to_string(),
        TypeDef::Feature(FeatureTypeDef { attributes: building, additional_attributes: true }),
    );
    schema.types.insert(
        "core:Address".to_string(),
        TypeDef::Data(DataTypeDef { attributes: address, additional_attributes: false }),
    );

    FlattenTreeTransform::new().transform_schema(&mut schema);

    assert_eq!(schema.epsg, Some(6697));
    let names: Vec<&String> = schema.types.keys().collect();
    assert_eq!(names, vec!["bldg:Building", "core:Address"]);
    match &schema.types["bldg:Building"] {
        TypeDef::Feature(f) => {
            assert!(f.additional_attributes);
            let names: Vec<&String> = f.attributes.keys().collect();
            assert_eq!(names, vec!["parentId", "name", "parentType"]);
            for name in ["parentId", "parentType"] {
                let a = &f.attributes[name];
                assert!(matches!(a.type_ref, TypeRef::String));
                assert_eq!(a.min_occurs, 0);
                assert_eq!(a.max_occurs, Some(1));
            }
        }
        other => panic!("the feature type changed its kind: {:?}", other),
    }
    match &schema.types["core:Address"] {
        TypeDef::Data(d) => assert_eq!(d.attributes.len(), 1),
        other => panic!("the data type changed its kind: {:?}", other),
    }
}

fn count_features(value: &Value) -> usize {
    match value {
        Value::Object(obj) => {
            let own = matches!(obj.stereotype, ObjectStereotype::Feature { .. }) as usize;
            own + obj.attributes.iter().map(|(_, v)| count_features(v)).sum::<usize>()
        }
        Value::Array(items) => items.iter().map(count_features).sum(),
        _ => 0,
    }
}

#[test]
fn flattening_loses_no_feature() {
    assert_eq!(count_features(&building_with_surfaces_and_part()), 4);
    for option in [
        FeatureFlatteningOption::Off,
        FeatureFlatteningOption::AllExceptThematicSurfaces,
        FeatureFlatteningOption::All,
    ] {
        let mut transform = FlattenTreeTransform::new();
        transform.set_feature_option(option);
        let mut out = Vec::new();
        transform.transform(entity(building_with_surfaces_and_part()), &mut out);
        let found: usize = out.iter().map(|e| count_features(&e.root)).sum();
        assert_eq!(found, 4);
        assert!(out.iter().all(|e| e.base_url == "file:///city.gml"));
    }
}
