use std::sync::Arc;

use indexmap::IndexMap;
use nusamai::appearance::AppearanceStore;
use nusamai::geometry::{GeometryCollector, GeometryRef, GeometryStore, GeometryType};
use nusamai::object::{Entity, Object, ObjectStereotype, Value};
use nusamai::pipeline::PipelineError;
use nusamai::schema::{
    Attribute, DataTypeDef, FeatureTypeDef, PropertyTypeDef, Schema, TypeDef, TypeRef,
};
use nusamai::transformer::builder::{
    KeyValueSpec, LodFilterSpec, MergedownSpec, NusamaiTransformBuilder, Request, Requirements,
    TransformBuilder, TransformStep, TreeFlatteningSpec,
};
use nusamai::transformer::flatten::{
    DataFlatteningOption, FeatureFlatteningOption, ObjectFlatteningOption,
};
use nusamai::transformer::lod::{FilterLodTransform, LodFilterMode, LodMask};
use nusamai::transformer::projection::{Projection, ProjectionTransform};
use nusamai::transformer::rename::{
    shortens_for_shapefile, EditFieldNamesTransform, MappingRules,
};

fn v(x: f64, y: f64, z: f64) -> (u64, u64, u64) {
    (x.to_bits(), y.to_bits(), z.to_bits())
}

fn gref(ty: GeometryType, lod: u8, pos: u32, len: u32) -> GeometryRef {
    GeometryRef { ty, lod, pos, len }
}

fn feature_with(id: &str, geometries: Vec<GeometryRef>, attributes: Vec<(String, Value)>) -> Value {
    Value::Object(Object {
        typename: "bldg:Building".to_string(),
        attributes,
        stereotype: ObjectStereotype::Feature { id: id.to_string(), geometries },
    })
}

fn entity_in(store: GeometryStore, root: Value) -> Entity {
    Entity {
        root,
        base_url: "file:///city.gml".to_string(),
        geometry_store: Arc::new(store),
        appearance_store: Arc::new(AppearanceStore::default()),
    }
}

fn refs_of(value: &Value) -> Vec<GeometryRef> {
    match value {
        Value::Object(Object { stereotype: ObjectStereotype::Feature { geometries, .. }, .. }) => {
            geometries.clone()
        }
        _ => vec![],
    }
}

fn rename_pairs(pairs: &[(&str, &str)]) -> Vec<(String, String)> {
    pairs.iter().map(|(a, b)| (a.to_string(), b.to_string())).collect()
}

/// A cube as a solid of level 1 and two quads as surfaces of level 2.
fn cube_and_quads() -> Entity {
    let mut collector = GeometryCollector::new();
    let corners = [
        v(0., 0., 0.),
        v(1., 0., 0.),
        v(1., 1., 0.),
        v(0., 1., 0.),
        v(0., 0., 1.),
        v(1., 0., 1.),
        v(1., 1., 1.),
        v(0., 1., 1.),
    ];
    let faces = [[0, 1, 2, 3], [4, 5, 6, 7], [0, 1, 5, 4], [1, 2, 6, 5], [2, 3, 7, 6], [3, 0, 4, 7]];
    for face in faces {
        let ring: Vec<_> = face.iter().map(|&i| corners[i]).collect();
        collector.add_exterior_ring(&ring, None);
    }
    for face in [[0, 1, 2, 3], [4, 5, 6, 7]] {
        let ring: Vec<_> = face.iter().map(|&i| corners[i]).collect();
        collector.add_exterior_ring(&ring, None);
    }
    let store = collector.into_geometries();
    let root = feature_with(
        "bldg-1",
        vec![gref(GeometryType::Solid, 1, 0, 6), gref(GeometryType::Surface, 2, 6, 2)],
        vec![],
    );
    entity_in(store, root)
}

#[test]
fn highest_lod_wins() {
    let input = cube_and_quads();
    // the vertices of both levels are the corners of one cube
    assert_eq!(input.geometry_store.vertices.len(), 8);
    let mut filter = FilterLodTransform::new(LodMask::all(), LodFilterMode::Highest);
    let mut out = Vec::new();
    filter.transform(input, &mut out);
    assert_eq!(out.len(), 1);
    let refs = refs_of(&out[0].root);
    assert_eq!(refs, vec![gref(GeometryType::Surface, 2, 6, 2)]);
    // the two polygons referred to are all of level 2
    assert_eq!(refs.iter().map(|r| r.len).sum::<u32>(), 2);
    assert!(refs.iter().all(|r| r.lod == 2));
    assert!(out[0].geometry_store.vertices.len() <= 8);
    assert!(refs.iter().all(|r| out[0].geometry_store.holds(r)));
}

#[test]
fn lod_filter_follows_its_mode_and_mask() {
    let tree = || {
        feature_with(
            "a",
            vec![
                gref(GeometryType::Solid, 1, 0, 1),
                gref(GeometryType::Surface, 3, 1, 1),
                gref(GeometryType::Surface, 2, 2, 1),
            ],
            vec![(
                "part".to_string(),
                Value::Array(vec![feature_with(
                    "b",
                    vec![gref(GeometryType::Curve, 0, 0, 1), gref(GeometryType::Solid, 3, 3, 1)],
                    vec![],
                )]),
            )],
        )
    };
    let nested = |value: &Value| match value {
        Value::Object(obj) => match &obj.attributes[0].1 {
            Value::Array(items) => refs_of(&items[0]),
            _ => vec![],
        },
        _ => vec![],
    };
    let all = LodMask::all();

    let highest = FilterLodTransform::new(all, LodFilterMode::Highest);
    assert_eq!(highest.find_target(&tree()), Some(3));
    let edited = highest.edit_tree(tree(), Some(3));
    assert_eq!(refs_of(&edited), vec![gref(GeometryType::Surface, 3, 1, 1)]);
    assert_eq!(nested(&edited), vec![gref(GeometryType::Solid, 3, 3, 1)]);

    let lowest = FilterLodTransform::new(all, LodFilterMode::Lowest);
    assert_eq!(lowest.find_target(&tree()), Some(0));
    let edited = lowest.edit_tree(tree(), Some(0));
    assert_eq!(refs_of(&edited), vec![]);
    assert_eq!(nested(&edited), vec![gref(GeometryType::Curve, 0, 0, 1)]);

    let specific = FilterLodTransform::new(all, LodFilterMode::Specific(2));
    assert_eq!(specific.find_target(&tree()), Some(2));
    let edited = specific.edit_tree(tree(), Some(2));
    assert_eq!(refs_of(&edited), vec![gref(GeometryType::Surface, 2, 2, 1)]);
    assert_eq!(nested(&edited), vec![]);

    let every = FilterLodTransform::new(all, LodFilterMode::All);
    assert_eq!(every.find_target(&tree()), None);
    let edited = every.edit_tree(tree(), None);
    assert_eq!(refs_of(&edited).len(), 3);
    assert_eq!(nested(&edited).len(), 2);

    // levels 1 and 2 only: the highest of them is 2
    let low = FilterLodTransform::new(LodMask(0b0000_0110), LodFilterMode::Highest);
    assert_eq!(low.find_target(&tree()), Some(2));
    assert_eq!(low.find_extreme(&tree(), false), Some(1));
    let masked_out = FilterLodTransform::new(LodMask(0b0001_0000), LodFilterMode::Highest);
    assert_eq!(masked_out.find_target(&tree()), None);
    assert_eq!(refs_of(&masked_out.edit_tree(tree(), None)), vec![]);
    let not_in_mask = FilterLodTransform::new(LodMask(0b0000_0001), LodFilterMode::Specific(2));
    assert_eq!(not_in_mask.find_target(&tree()), None);
}

#[test]
fn lod_masks_hold_levels_below_eight() {
    let all = LodMask::all();
    for lod in 0..8 {
        assert!(all.has_lod(lod));
    }
    assert!(!all.has_lod(8));
    assert!(!all.has_lod(255));
    let some = LodMask(0b0000_0101);
    assert!(some.has_lod(0));
    assert!(!some.has_lod(1));
    assert!(some.has_lod(2));
}

#[test]
fn user_rules_win_over_the_preset() {
    let mut renamer = EditFieldNamesTransform::default();
    renamer.load_default_map_for_shape(rename_pairs(&[
        ("buildingHeight", "bldgH"),
        ("measuredHeight", "measH"),
    ]));
    renamer.extend_rename_map(rename_pairs(&[("buildingHeight", "height")]));
    assert_eq!(renamer.rename("buildingHeight".to_string()), "height");
    assert_eq!(renamer.rename("measuredHeight".to_string()), "measH");
    assert_eq!(renamer.rename("usage".to_string()), "usage");

    let root = feature_with(
        "b",
        vec![gref(GeometryType::Solid, 1, 0, 0)],
        vec![
            ("buildingHeight".to_string(), Value::Integer(3)),
            (
                "detail".to_string(),
                Value::Array(vec![Value::Object(Object {
                    typename: "uro:Detail".to_string(),
                    attributes: vec![
                        ("measuredHeight".to_string(), Value::Integer(4)),
                        ("buildingHeight".to_string(), Value::Integer(5)),
                    ],
                    stereotype: ObjectStereotype::Data,
                })]),
            ),
        ],
    );
    let mut out = Vec::new();
    renamer.transform(entity_in(GeometryStore::default(), root), &mut out);
    assert_eq!(out.len(), 1);
    assert_eq!(out[0].base_url, "file:///city.gml");
    let Value::Object(obj) = &out[0].root else { panic!("the root is no object") };
    let names: Vec<&str> = obj.attributes.iter().map(|(k, _)| k.as_str()).collect();
    assert_eq!(names, vec!["height", "detail"]);
    assert_eq!(refs_of(&out[0].root), vec![gref(GeometryType::Solid, 1, 0, 0)]);
    let Value::Array(items) = &obj.attributes[1].1 else { panic!("the array is gone") };
    let Value::Object(detail) = &items[0] else { panic!("the detail is gone") };
    let names: Vec<&str> = detail.attributes.iter().map(|(k, _)| k.as_str()).collect();
    assert_eq!(names, vec!["measH", "height"]);
    assert!(matches!(detail.attributes[1].1, Value::Integer(5)));
}

#[test]
fn attributes_renamed_to_one_name_keep_the_first_place_and_the_last_value() {
    let mut renamer = EditFieldNamesTransform::default();
    renamer.extend_rename_map(rename_pairs(&[("a", "x"), ("c", "x"), ("a", "y")]));
    // the later rule for `a` replaced the earlier one
    assert_eq!(renamer.rename("a".to_string()), "y");
    let value = Value::Object(Object {
        typename: "t".to_string(),
        attributes: vec![
            ("x".to_string(), Value::Integer(1)),
            ("b".to_string(), Value::Integer(2)),
            ("c".to_string(), Value::Integer(3)),
        ],
        stereotype: ObjectStereotype::Data,
    });
    let Value::Object(obj) = renamer.edit_tree(value) else { panic!("no object") };
    let names: Vec<&str> = obj.attributes.iter().map(|(k, _)| k.as_str()).collect();
    assert_eq!(names, vec!["x", "b"]);
    assert!(matches!(obj.attributes[0].1, Value::Integer(3)));
}

fn sample_schema() -> Schema {
    let mut building: IndexMap<String, Attribute, ahash::RandomState> = IndexMap::default();
    building.insert(
        "buildingHeight".to_string(),
        Attribute { type_ref: TypeRef::Measure, min_occurs: 0, max_occurs: Some(1) },
    );
    building.insert(
        "owner".to_string(),
        Attribute {
            type_ref: TypeRef::Named("core:Person".to_string()),
            min_occurs: 1,
            max_occurs: None,
        },
    );
    let mut person: IndexMap<String, Attribute, ahash::RandomState> = IndexMap::default();
    person.insert("buildingHeight".to_string(), Attribute::default());
    let mut schema = Schema { types: IndexMap::default(), epsg: None };
    schema.types.insert(
        "bldg:Building".to_string(),
        TypeDef::Feature(FeatureTypeDef { attributes: building, additional_attributes: false }),
    );
    schema.types.insert(
        "core:Person".to_string(),
        TypeDef::Data(DataTypeDef { attributes: person, additional_attributes: true }),
    );
    schema.types.insert(
        "core:Choice".to_string(),
        TypeDef::Property(PropertyTypeDef {
            members: vec![("buildingHeight".to_string(), Attribute::default())],
        }),
    );
    schema
}

#[test]
fn schema_attributes_are_renamed() {
    let mut renamer = EditFieldNamesTransform::default();
    renamer.extend_rename_map(rename_pairs(&[("buildingHeight", "height")]));
    let mut schema = sample_schema();
    renamer.transform_schema(&mut schema);
    let names: Vec<&String> = schema.types.keys().collect();
    assert_eq!(names, vec!["bldg:Building", "core:Person", "core:Choice"]);
    let TypeDef::Feature(building) = &schema.types[0] else { panic!("kind changed") };
    let names: Vec<&String> = building.attributes.keys().collect();
    assert_eq!(names, vec!["height", "owner"]);
    assert!(matches!(building.attributes["height"].type_ref, TypeRef::Measure));
    assert!(
        matches!(&building.attributes["owner"].type_ref, TypeRef::Named(n) if n == "core:Person")
    );
    assert_eq!(building.attributes["owner"].min_occurs, 1);
    assert_eq!(building.attributes["owner"].max_occurs, None);
    let TypeDef::Data(person) = &schema.types[1] else { panic!("kind changed") };
    assert!(person.additional_attributes);
    assert!(person.attributes.contains_key("height"));
    let TypeDef::Property(choice) = &schema.types[2] else { panic!("kind changed") };
    assert_eq!(choice.members[0].0, "buildingHeight");
}

#[test]
fn requirements_default_and_become_a_request() {
    let req = Requirements::default();
    assert!(!req.shorten_names_for_shapefile);
    assert!(req.mapping_rules.is_none());
    assert!(matches!(req.tree_flattening, TreeFlatteningSpec::Off));
    assert!(!req.resolve_appearance);
    assert!(matches!(req.mergedown, MergedownSpec::RemoveDescendantFeatures));
    assert!(matches!(req.key_value, KeyValueSpec::Jsonify));
    assert_eq!(req.lod_filter.mask, LodMask::all());
    assert_eq!(req.lod_filter.mode, LodFilterMode::Highest);

    let mut req = Requirements::default();
    req.resolve_appearance = true;
    req.shorten_names_for_shapefile = true;
    req.mergedown = MergedownSpec::NoMergedown;
    let mut request = Request::from(req);
    assert!(request.apply_appearance);
    assert!(request.shorten_names_for_shapefile);
    assert!(matches!(request.mergedown, MergedownSpec::NoMergedown));
    assert!(matches!(request.key_value, KeyValueSpec::Jsonify));
    request.set_mapping_rules(Some(MappingRules { rename: rename_pairs(&[("a", "b")]) }));
    assert_eq!(request.mapping_rules.unwrap().rename, rename_pairs(&[("a", "b")]));
}

fn step_names(steps: &[TransformStep]) -> Vec<&'static str> {
    steps
        .iter()
        .map(|s| match s {
            TransformStep::Projection(_) => "projection",
            TransformStep::ApplyAppearance(_) => "appearance",
            TransformStep::EditFieldNames(_) => "rename",
            TransformStep::FilterLod(_) => "lod",
            TransformStep::FlattenTree(_) => "flatten",
            TransformStep::GeometricMergedown(_) => "mergedown",
            TransformStep::Jsonify => "jsonify",
            TransformStep::DotNotation(_) => "dot",
        })
        .collect()
}

#[test]
fn chain_is_built_in_its_fixed_order() {
    let chain = NusamaiTransformBuilder::new(Request::from(Requirements::default())).build();
    assert_eq!(
        step_names(&chain.steps),
        vec!["projection", "rename", "lod", "mergedown", "jsonify"]
    );
    let TransformStep::Projection(p) = &chain.steps[0] else { panic!("no projection") };
    assert_eq!(p.output_epsg(), 4979);

    let request = Request {
        shorten_names_for_shapefile: true,
        mapping_rules: Some(MappingRules {
            rename: rename_pairs(&[("buildingHeight", "height")]),
        }),
        tree_flattening: TreeFlatteningSpec::Flatten {
            feature: FeatureFlatteningOption::All,
            data: DataFlatteningOption::TopLevelOnly,
            object: ObjectFlatteningOption::Off,
        },
        apply_appearance: true,
        mergedown: MergedownSpec::RetainDescendantFeatures,
        key_value: KeyValueSpec::DotNotation,
        lod_filter: LodFilterSpec { mask: LodMask(0b110), mode: LodFilterMode::Lowest },
    };
    let chain = NusamaiTransformBuilder::new(request)
        .with_shapefile_names(rename_pairs(&[("buildingHeight", "bldgH"), ("usage", "use")]))
        .with_output_epsg(10170)
        .build();
    assert_eq!(
        step_names(&chain.steps),
        vec!["projection", "appearance", "rename", "lod", "flatten", "mergedown", "dot"]
    );
    let TransformStep::Projection(p) = &chain.steps[0] else { panic!("no projection") };
    assert_eq!(p.output_epsg(), 10170);
    let TransformStep::EditFieldNames(renamer) = &chain.steps[2] else { panic!("no renamer") };
    assert_eq!(renamer.rename("buildingHeight".to_string()), "height");
    assert_eq!(renamer.rename("usage".to_string()), "use");
    let TransformStep::FilterLod(filter) = &chain.steps[3] else { panic!("no filter") };
    let tree = feature_with(
        "a",
        vec![gref(GeometryType::Solid, 0, 0, 0), gref(GeometryType::Solid, 2, 0, 0)],
        vec![],
    );
    assert_eq!(filter.find_target(&tree), Some(2));

    let mut request = Request::from(Requirements::default());
    request.mergedown = MergedownSpec::NoMergedown;
    request.key_value = KeyValueSpec::Off;
    request.mapping_rules = Some(MappingRules { rename: rename_pairs(&[("usage", "u")]) });
    let chain = NusamaiTransformBuilder::new(request)
        .with_shapefile_names(rename_pairs(&[("usage", "use")]))
        .build();
    assert_eq!(step_names(&chain.steps), vec!["projection", "rename", "lod"]);
    // the preset is not asked for, so only the rule of the user is there
    let TransformStep::EditFieldNames(renamer) = &chain.steps[1] else { panic!("no renamer") };
    assert_eq!(renamer.rename("usage".to_string()), "u");
    assert_eq!(renamer.rename("buildingHeight".to_string()), "buildingHeight");
}

#[test]
fn chain_transforms_the_schema_step_by_step() {
    let mut request = Request::from(Requirements::default());
    request.tree_flattening = TreeFlatteningSpec::Flatten {
        feature: FeatureFlatteningOption::All,
        data: DataFlatteningOption::Off,
        object: ObjectFlatteningOption::Off,
    };
    request.mapping_rules = Some(MappingRules {
        rename: rename_pairs(&[("buildingHeight", "height"), ("parentId", "pid")]),
    });
    let builder = NusamaiTransformBuilder::new(request).with_output_epsg(4979);
    let mut schema = sample_schema();
    builder.transform_schema(&mut schema);
    assert_eq!(schema.epsg, Some(4979));
    let TypeDef::Feature(building) = &schema.types[0] else { panic!("kind changed") };
    // renaming comes before flattening, so the parent attributes keep their names
    let names: Vec<&String> = building.attributes.keys().collect();
    assert_eq!(names, vec!["height", "owner", "parentId", "parentType"]);
    let TypeDef::Data(person) = &schema.types[1] else { panic!("kind changed") };
    let names: Vec<&String> = person.attributes.keys().collect();
    assert_eq!(names, vec!["height"]);
}

#[test]
fn projections_are_planned_for_the_pairs_offered() {
    let to_wgs = ProjectionTransform::new(4979);
    assert!(matches!(to_wgs.plan(6697), Ok(Projection::Jgd2011ToWgs84)));
    assert!(matches!(to_wgs.plan(4979), Ok(Projection::Keep)));
    assert!(matches!(
        to_wgs.plan(4326),
        Err(PipelineError::UnsupportedCrs { input: 4326, output: 4979 })
    ));
    let to_zone = ProjectionTransform::new(10170);
    assert!(matches!(
        to_zone.plan(6697),
        Ok(Projection::Jgd2011ToPlaneRectangular { zone: 9 })
    ));
    assert!(matches!(
        to_zone.plan(4979),
        Err(PipelineError::UnsupportedCrs { input: 4979, output: 10170 })
    ));
    let to_2d = ProjectionTransform::new(6668);
    assert!(matches!(
        to_2d.plan(6697),
        Err(PipelineError::UnsupportedCrs { input: 6697, output: 6668 })
    ));
}

#[test]
fn projection_keeps_count_and_order_of_vertices() {
    let mut collector = GeometryCollector::new();
    collector.add_exterior_ring(&vec![v(35., 139., 10.), v(36., 139., 10.), v(36., 140., 10.)], None);
    let mut store = collector.into_geometries();
    let converted = vec![v(139., 35., 47.), v(139., 36., 47.), v(140., 36., 47.)];
    let transform = ProjectionTransform::new(4979);
    transform.apply(&mut store, converted.clone());
    assert_eq!(store.epsg, 4979);
    assert_eq!(store.vertices, converted);
    assert_eq!(store.multipolygon.polygons[0].exterior, vec![0, 1, 2]);

    let mut schema = sample_schema();
    transform.transform_schema(&mut schema);
    assert_eq!(schema.epsg, Some(4979));
    assert_eq!(schema.types.len(), 3);
}

#[test]
fn presets_for_shapefiles_hold_short_names() {
    assert!(shortens_for_shapefile(&rename_pairs(&[
        ("buildingHeight", "bldgH"),
        ("measuredHeight", "measHeight"),
    ])));
    assert!(!shortens_for_shapefile(&rename_pairs(&[
        ("buildingHeight", "bldgH"),
        ("measuredHeight", "measuredHgt"),
    ])));
    // ten bytes, not ten characters
    assert!(!shortens_for_shapefile(&rename_pairs(&[("usage", "建物の用途")])));
    assert!(shortens_for_shapefile(&rename_pairs(&[("usage", "用途")])));
    assert!(shortens_for_shapefile(&vec![]));
}
