use std::sync::Arc;

use indexmap::IndexSet;
use nusamai::appearance::{AppearanceStore, Material, Texture};
use nusamai::geometry::{GeometryRef, GeometryStore, GeometryType, IndexedPolygon};
use nusamai::object::{Entity, Object, ObjectStereotype, Value};
use nusamai::parameters::Parameters;
use nusamai::sink::cesiumtiles::{
    group_sorted, group_sorted_chunk, is_sorted_by_tile, CesiumTilesSinkProvider,
    SerializedSlicedFeature,
};
use nusamai::sink::geojson::{
    toplevel_cityobj_to_geojson_features, write_feature_collection, GeoJsonGeometry,
    GeoJsonSinkProvider, FeatureCollectionWriter,
};
use nusamai::sink::gltf::material::{
    image_handling, new_uri_set, uri_count, BufferView, Image, ImageHandling, MimeType, UriSet,
};
use nusamai::sink::gltf::mesh::default_channels;
use nusamai::sink::gpkg::{
    add_column_query, database_url, insert_feature_query, plan_record, table_info_query,
    GpkgSinkProvider, GpkgWriterState, RecordKind, RecordPlan,
};
use nusamai::sink::ply::{flatten_polygon, index_vertices, write_ply, StanfordPlySinkProvider};
use nusamai::text::decimal_bytes;
use nusamai::transformer::builder::{MergedownSpec, TreeFlatteningSpec};
use nusamai::transformer::flatten::{
    DataFlatteningOption, FeatureFlatteningOption, ObjectFlatteningOption,
};

fn v(x: f64, y: f64, z: f64) -> (u64, u64, u64) {
    (x.to_bits(), y.to_bits(), z.to_bits())
}

fn entity_of(store: GeometryStore, root: Value) -> Entity {
    Entity {
        root,
        base_url: "file:///city.gml".to_string(),
        geometry_store: Arc::new(store),
        appearance_store: Arc::new(AppearanceStore::default()),
    }
}

fn feature_root(typename: &str, id: &str, geometries: Vec<GeometryRef>) -> Value {
    Value::Object(Object {
        typename: typename.to_string(),
        attributes: Default::default(),
        stereotype: ObjectStereotype::Feature { id: id.to_string(), geometries },
    })
}

#[test]
fn test_toplevel_cityobj_multipolygon() {
    let vertices = vec![v(0., 0., 111.), v(5., 0., 111.), v(5., 5., 111.), v(0., 5., 111.)];
    let mut geometries = GeometryStore::default();
    geometries.epsg = 6697;
    geometries.vertices = vertices;
    geometries.multipolygon.add_exterior(vec![0, 1, 2, 3, 0]);

    let obj = entity_of(
        geometries,
        feature_root(
            "dummy",
            "dummy",
            vec![GeometryRef { ty: GeometryType::Solid, pos: 0, len: 1, lod: 1 }],
        ),
    );

    let geojson_features = toplevel_cityobj_to_geojson_features(&obj);
    assert_eq!(geojson_features.len(), 1);

    let mpoly_geojson = geojson_features.first().unwrap();
    assert!(mpoly_geojson.bbox.is_none());
    assert!(mpoly_geojson.foreign_members.is_none());
    assert_eq!(mpoly_geojson.id, "dummy");
    if let GeoJsonGeometry::MultiPolygon(rings_list) = &mpoly_geojson.geometry {
        for (i, rings) in rings_list.iter().enumerate() {
            match i {
                0 => {
                    assert_eq!(rings.len(), 1);
                    assert_eq!(
                        rings[0],
                        vec![
                            v(0., 0., 111.),
                            v(5., 0., 111.),
                            v(5., 5., 111.),
                            v(0., 5., 111.),
                            v(0., 0., 111.)
                        ]
                    );
                }
                _ => unreachable!("Unexpected number of polygons"),
            }
        }
    } else {
        unreachable!("The result is not a GeoJSON MultiPolygon");
    };
}

#[test]
fn geojson_features_come_by_kind_of_geometry() {
    let mut store = GeometryStore::default();
    store.vertices = vec![v(0., 0., 0.), v(1., 0., 0.), v(1., 1., 0.), v(0., 1., 0.)];
    store.multipolygon.add_exterior(vec![0, 1, 2]);
    store.multipolygon.add_exterior(vec![0, 2, 3]);
    store.multipolygon.add_interior(vec![1, 2, 3]);
    store.multipolygon.add_exterior(vec![3, 2, 1]);
    store.multilinestring.lines = vec![vec![0, 1], vec![2, 3, 0]];
    store.multipoint.points = vec![3, 1];
    let refs = vec![
        GeometryRef { ty: GeometryType::Point, lod: 0, pos: 1, len: 1 },
        GeometryRef { ty: GeometryType::Triangle, lod: 1, pos: 2, len: 1 },
        GeometryRef { ty: GeometryType::Curve, lod: 1, pos: 0, len: 2 },
        GeometryRef { ty: GeometryType::Surface, lod: 1, pos: 0, len: 2 },
    ];
    let features =
        toplevel_cityobj_to_geojson_features(&entity_of(store, feature_root("t", "f-1", refs)));
    assert_eq!(features.len(), 3);
    assert!(features.iter().all(|f| f.id == "f-1"));
    let GeoJsonGeometry::MultiPolygon(polygons) = &features[0].geometry else {
        panic!("the polygons do not come first")
    };
    assert_eq!(
        polygons,
        &vec![
            vec![vec![v(0., 1., 0.), v(1., 1., 0.), v(1., 0., 0.), v(0., 1., 0.)]],
            vec![vec![v(0., 0., 0.), v(1., 0., 0.), v(1., 1., 0.), v(0., 0., 0.)]],
            vec![
                vec![v(0., 0., 0.), v(1., 1., 0.), v(0., 1., 0.), v(0., 0., 0.)],
                vec![v(1., 0., 0.), v(1., 1., 0.), v(0., 1., 0.), v(1., 0., 0.)],
            ],
        ]
    );
    let GeoJsonGeometry::MultiLineString(lines) = &features[1].geometry else {
        panic!("the line-strings do not come second")
    };
    // line-strings are not closed
    assert_eq!(
        lines,
        &vec![
            vec![v(0., 0., 0.), v(1., 0., 0.)],
            vec![v(1., 1., 0.), v(0., 1., 0.), v(0., 0., 0.)]
        ]
    );
    let GeoJsonGeometry::MultiPoint(points) = &features[2].geometry else {
        panic!("the points do not come last")
    };
    assert_eq!(points, &vec![v(1., 0., 0.)]);
}

#[test]
fn objects_without_geometry_give_no_geojson_feature() {
    let data = Value::Object(Object {
        typename: "core:Address".to_string(),
        attributes: vec![],
        stereotype: ObjectStereotype::Data,
    });
    assert!(toplevel_cityobj_to_geojson_features(&entity_of(GeometryStore::default(), data))
        .is_empty());
    let empty = feature_root("t", "f", vec![]);
    assert!(toplevel_cityobj_to_geojson_features(&entity_of(GeometryStore::default(), empty))
        .is_empty());
}

#[test]
fn feature_collection_is_framed_with_commas_between() {
    assert_eq!(
        write_feature_collection(&vec![]),
        b"{\"type\":\"FeatureCollection\",\"features\":[]}\n".to_vec()
    );
    assert_eq!(
        write_feature_collection(&vec![b"{\"a\":1}".to_vec()]),
        b"{\"type\":\"FeatureCollection\",\"features\":[{\"a\":1}]}\n".to_vec()
    );
    assert_eq!(
        write_feature_collection(&vec![b"{}".to_vec(), b"[]".to_vec(), b"1".to_vec()]),
        b"{\"type\":\"FeatureCollection\",\"features\":[{},[],1]}\n".to_vec()
    );
}

#[test]
fn ply_file_has_header_vertices_and_faces() {
    let triangles = vec![
        v(0., 0., 0.),
        v(1., 0., 0.),
        v(0., 1., 0.),
        v(1., 0., 0.),
        v(1., 1., 0.),
        v(0., 1., 0.),
        v(9., 9., 9.),
    ];
    let (vertices, indices) = index_vertices(&triangles);
    assert_eq!(indices, vec![0, 1, 2, 1, 3, 2, 4]);
    let held: Vec<_> = vertices.iter().copied().collect();
    assert_eq!(
        held,
        vec![v(0., 0., 0.), v(1., 0., 0.), v(0., 1., 0.), v(1., 1., 0.), v(9., 9., 9.)]
    );

    let bytes = write_ply(&vertices, &indices);
    let header = "ply\nformat binary_little_endian 1.0\nelement vertex 5\nproperty double x\nproperty double y\nproperty double z\nelement face 2\nproperty list uchar uint vertex_indices\nend_header\n";
    assert_eq!(&bytes[..header.len()], header.as_bytes());
    let mut expected = Vec::new();
    for (x, y, z) in &held {
        expected.extend_from_slice(&f64::from_bits(*x).to_le_bytes());
        expected.extend_from_slice(&f64::from_bits(*y).to_le_bytes());
        expected.extend_from_slice(&f64::from_bits(*z).to_le_bytes());
    }
    // the index left over after the last whole face is not written
    for face in [[0u32, 1, 2], [1, 3, 2]] {
        expected.push(3);
        for i in face {
            expected.extend_from_slice(&i.to_le_bytes());
        }
    }
    assert_eq!(&bytes[header.len()..], &expected[..]);
    assert_eq!(bytes.len(), header.len() + 5 * 24 + 2 * 13);
    // one is 0x3ff0000000000000, least significant byte first
    let one = &bytes[header.len() + 24..header.len() + 32];
    assert_eq!(one, &[0, 0, 0, 0, 0, 0, 0xf0, 0x3f]);
}

#[test]
fn ply_file_of_nothing_is_its_header() {
    let vertices: IndexSet<(u64, u64, u64), ahash::RandomState> = IndexSet::default();
    let bytes = write_ply(&vertices, &vec![]);
    assert_eq!(
        String::from_utf8(bytes).unwrap(),
        "ply\nformat binary_little_endian 1.0\nelement vertex 0\nproperty double x\nproperty double y\nproperty double z\nelement face 0\nproperty list uchar uint vertex_indices\nend_header\n"
    );
}

#[test]
fn numbers_are_written_in_decimal() {
    assert_eq!(decimal_bytes(0), b"0".to_vec());
    assert_eq!(decimal_bytes(7), b"7".to_vec());
    assert_eq!(decimal_bytes(10), b"10".to_vec());
    assert_eq!(decimal_bytes(1203), b"1203".to_vec());
    assert_eq!(decimal_bytes(usize::MAX), usize::MAX.to_string().into_bytes());
}

#[test]
fn polygons_are_laid_out_for_the_triangulator() {
    let vertices: Vec<_> = (0..10).map(|i| v(i as f64, 0., 0.)).collect();
    let poly = IndexedPolygon {
        exterior: vec![0, 1, 2, 3],
        interiors: vec![vec![4, 5, 6], vec![7, 8, 9]],
    };
    let flat = flatten_polygon(&vertices, &poly);
    assert_eq!(flat.coords, vertices);
    assert_eq!(flat.hole_indices, vec![4, 7]);
    assert_eq!(flat.num_outer(), 4);

    let simple = IndexedPolygon { exterior: vec![2, 1, 0], interiors: vec![] };
    let flat = flatten_polygon(&vertices, &simple);
    assert_eq!(flat.coords, vec![v(2., 0., 0.), v(1., 0., 0.), v(0., 0., 0.)]);
    assert!(flat.hole_indices.is_empty());
    assert_eq!(flat.num_outer(), 3);
}

#[test]
fn entities_become_records_by_their_stereotype() {
    let mut store = GeometryStore::default();
    store.vertices = vec![v(0., 0., 0.), v(1., 0., 0.), v(1., 1., 0.)];
    for _ in 0..4 {
        store.multipolygon.add_exterior(vec![0, 1, 2]);
    }
    store.multipoint.points = vec![0];
    let refs = vec![
        GeometryRef { ty: GeometryType::Surface, lod: 1, pos: 2, len: 2 },
        GeometryRef { ty: GeometryType::Point, lod: 1, pos: 0, len: 1 },
        GeometryRef { ty: GeometryType::Solid, lod: 1, pos: 0, len: 1 },
    ];
    let plan = plan_record(&entity_of(store, feature_root("bldg:Building", "b-1", refs)));
    match plan {
        RecordPlan::Feature { table_name, obj_id, polygons } => {
            assert_eq!(table_name, "bldg:Building");
            assert_eq!(obj_id, "b-1");
            assert_eq!(polygons, vec![2, 3, 0]);
        }
        other => panic!("the feature is not written: {:?}", other),
    }

    let mut store = GeometryStore::default();
    store.multipoint.points = vec![];
    let no_polygons = feature_root("bldg:Building", "b-2", vec![]);
    assert!(matches!(plan_record(&entity_of(store, no_polygons)), RecordPlan::Skip));

    let data = Value::Object(Object {
        typename: "core:Address".to_string(),
        attributes: vec![],
        stereotype: ObjectStereotype::Data,
    });
    assert!(matches!(
        plan_record(&entity_of(GeometryStore::default(), data)),
        RecordPlan::Attribute { table_name } if table_name == "core:Address"
    ));
    let object = Value::Object(Object {
        typename: "core:Thing".to_string(),
        attributes: vec![],
        stereotype: ObjectStereotype::Object { id: "o".to_string() },
    });
    assert!(matches!(
        plan_record(&entity_of(GeometryStore::default(), object)),
        RecordPlan::Skip
    ));
    assert!(matches!(
        plan_record(&entity_of(GeometryStore::default(), Value::Double(0))),
        RecordPlan::Skip
    ));
}

#[test]
fn tables_are_created_once_and_boxes_kept_per_feature_table() {
    let mut state = GpkgWriterState::new();
    let building = "bldg:Building".to_string();
    let address = "core:Address".to_string();
    let road = "tran:Road".to_string();

    let a = state.on_record(&building, RecordKind::Feature);
    assert!(a.create_table);
    assert_eq!(a.insert, RecordKind::Feature);
    assert_eq!(a.bbox_slot, Some(0));

    let a = state.on_record(&address, RecordKind::Attribute);
    assert!(a.create_table);
    assert_eq!(a.insert, RecordKind::Attribute);
    assert_eq!(a.bbox_slot, None);

    let a = state.on_record(&road, RecordKind::Feature);
    assert!(a.create_table);
    assert_eq!(a.bbox_slot, Some(1));

    let a = state.on_record(&building, RecordKind::Feature);
    assert!(!a.create_table);
    assert_eq!(a.bbox_slot, Some(0));

    let a = state.on_record(&address, RecordKind::Attribute);
    assert!(!a.create_table);
    assert_eq!(a.bbox_slot, None);

    // a table that got an attribute row first gets its box with its first feature
    let a = state.on_record(&address, RecordKind::Feature);
    assert!(!a.create_table);
    assert_eq!(a.bbox_slot, Some(2));

    assert_eq!(state.finish(), vec!["bldg:Building", "tran:Road", "core:Address"]);
}

#[test]
fn statements_are_spelled_out() {
    assert_eq!(insert_feature_query(&vec![]), "INSERT INTO mpoly3d (geometry) VALUES (?)");
    assert_eq!(
        insert_feature_query(&vec!["attr1".to_string()]),
        "INSERT INTO mpoly3d (geometry, attr1) VALUES (?, ?)"
    );
    assert_eq!(
        insert_feature_query(&vec!["a".to_string(), "b".to_string(), "c".to_string()]),
        "INSERT INTO mpoly3d (geometry, a, b, c) VALUES (?, ?, ?, ?)"
    );
    assert_eq!(
        add_column_query("attr1", "TEXT"),
        "ALTER TABLE mpoly3d ADD COLUMN attr1 TEXT;"
    );
    assert_eq!(table_info_query("mpoly3d"), "PRAGMA table_info(mpoly3d);");
}

#[test]
fn database_urls_are_made_of_paths() {
    assert_eq!(database_url("sqlite::memory:"), ("sqlite::memory:".to_string(), false));
    assert_eq!(database_url("sqlite:"), ("sqlite:".to_string(), false));
    assert_eq!(database_url("/tmp/out.gpkg"), ("sqlite:///tmp/out.gpkg".to_string(), true));
    assert_eq!(database_url("sqlit"), ("sqlite://sqlit".to_string(), true));
    assert_eq!(database_url(""), ("sqlite://".to_string(), true));
}

fn sliced(tile_id: u64, body: &[u8]) -> SerializedSlicedFeature {
    SerializedSlicedFeature { tile_id, body: body.to_vec() }
}

#[test]
fn sorted_features_are_grouped_by_tile() {
    let features = vec![
        sliced(3, b"a"),
        sliced(3, b"b"),
        sliced(5, b"c"),
        sliced(8, b"d"),
        sliced(8, b"e"),
        sliced(8, b"f"),
    ];
    assert!(is_sorted_by_tile(&features));
    let groups = group_sorted(features).ok().unwrap();
    let summary: Vec<(u64, Vec<Vec<u8>>)> = groups
        .iter()
        .map(|(id, fs)| (*id, fs.iter().map(|f| f.body.clone()).collect()))
        .collect();
    assert_eq!(
        summary,
        vec![
            (3, vec![b"a".to_vec(), b"b".to_vec()]),
            (5, vec![b"c".to_vec()]),
            (8, vec![b"d".to_vec(), b"e".to_vec(), b"f".to_vec()]),
        ]
    );
    assert!(groups.iter().all(|(id, fs)| fs.iter().all(|f| f.tile_id == *id)));
    assert_eq!(groups.iter().map(|(_, fs)| fs.len()).sum::<usize>(), 6);

    assert!(group_sorted(vec![]).ok().unwrap().is_empty());
}

#[test]
fn unsorted_features_are_given_back() {
    let features = vec![sliced(3, b"a"), sliced(2, b"b"), sliced(3, b"c")];
    assert!(!is_sorted_by_tile(&features));
    match group_sorted(features) {
        Err(given) => {
            let ids: Vec<u64> = given.iter().map(|f| f.tile_id).collect();
            assert_eq!(ids, vec![3, 2, 3]);
        }
        Ok(_) => panic!("unsorted features were grouped"),
    }
    assert!(is_sorted_by_tile(&vec![sliced(1, b"")]));
    assert!(is_sorted_by_tile(&vec![sliced(1, b""), sliced(1, b"")]));
    assert!(!is_sorted_by_tile(&vec![sliced(u64::MAX, b""), sliced(0, b"")]));
}

#[test]
fn textures_and_images_get_the_index_of_their_uri() {
    let mut textures: UriSet = IndexSet::default();
    let wall = Material {
        base_color: (1f32.to_bits(), 1f32.to_bits(), 1f32.to_bits(), 1f32.to_bits()),
        base_texture: Some(Texture { uri: "file:///wall.png".to_string() }),
    };
    let roof = Material {
        base_color: (0, 0, 0, 1f32.to_bits()),
        base_texture: Some(Texture { uri: "file:///roof.jpg".to_string() }),
    };
    let plain = Material { base_color: (0, 0, 0, 0), base_texture: None };

    let info = wall.to_gltf(&mut textures).unwrap();
    assert_eq!((info.index, info.tex_coord), (0, 0));
    let info = roof.to_gltf(&mut textures).unwrap();
    assert_eq!((info.index, info.tex_coord), (1, 0));
    assert!(plain.to_gltf(&mut textures).is_none());
    let info = wall.to_gltf(&mut textures).unwrap();
    assert_eq!(info.index, 0);
    assert_eq!(textures.len(), 2);

    let mut images: UriSet = IndexSet::default();
    let texture = Texture { uri: "file:///roof.jpg".to_string() };
    assert_eq!(texture.to_gltf(&mut images).source, Some(0));
    assert_eq!(
        Texture { uri: "file:///wall.png".to_string() }.to_gltf(&mut images).source,
        Some(1)
    );
    assert_eq!(texture.to_gltf(&mut images).source, Some(0));
    let held: Vec<&String> = images.iter().collect();
    assert_eq!(held, vec!["file:///roof.jpg", "file:///wall.png"]);
}

#[test]
fn images_are_taken_by_their_extension() {
    assert_eq!(image_handling(Some("tif")), Some(ImageHandling::ReencodeAsPng));
    assert_eq!(image_handling(Some("tiff")), Some(ImageHandling::ReencodeAsPng));
    assert_eq!(image_handling(Some("png")), Some(ImageHandling::ReencodeAsPng));
    assert_eq!(image_handling(Some("jpg")), Some(ImageHandling::EmbedJpeg));
    assert_eq!(image_handling(Some("jpeg")), Some(ImageHandling::EmbedJpeg));
    assert_eq!(image_handling(Some("JPG")), None);
    assert_eq!(image_handling(Some("webp")), None);
    assert_eq!(image_handling(Some("")), None);
    assert_eq!(image_handling(None), None);
    assert_eq!(ImageHandling::ReencodeAsPng.mime_type(), MimeType::ImagePng);
    assert_eq!(ImageHandling::EmbedJpeg.mime_type(), MimeType::ImageJpeg);
}

#[test]
fn embedded_images_follow_each_other_in_the_buffer() {
    let image = Image { uri: "file:///roof.jpg".to_string() };
    let mut buffer_views = vec![BufferView { byte_offset: 0, byte_length: 3 }];
    let mut bin_content = vec![1u8, 2, 3];
    let gltf = image.to_gltf(&mut buffer_views, &mut bin_content, vec![9, 8, 7, 6], MimeType::ImageJpeg);
    assert_eq!(gltf.mime_type, Some(MimeType::ImageJpeg));
    assert_eq!(gltf.buffer_view, Some(1));
    assert!(gltf.uri.is_none());
    assert_eq!(bin_content, vec![1, 2, 3, 9, 8, 7, 6]);
    assert_eq!(
        buffer_views,
        vec![
            BufferView { byte_offset: 0, byte_length: 3 },
            BufferView { byte_offset: 3, byte_length: 4 }
        ]
    );
    let gltf = image.to_gltf(&mut buffer_views, &mut bin_content, vec![], MimeType::ImagePng);
    assert_eq!(gltf.buffer_view, Some(2));
    assert_eq!(buffer_views[2], BufferView { byte_offset: 7, byte_length: 0 });

    let by_uri = image.to_gltf_by_uri();
    assert_eq!(by_uri.uri.as_deref(), Some("file:///roof.jpg"));
    assert!(by_uri.mime_type.is_none());
    assert!(by_uri.buffer_view.is_none());
}

#[test]
fn feature_ids_are_in_the_first_channel_by_default() {
    assert_eq!(default_channels(), vec![0]);
}

fn with_output(mut params: Parameters, path: &str) -> Parameters {
    params.update_value_with_str("@output", path).unwrap();
    params
}

#[test]
fn sinks_tell_of_themselves_and_ask_for_an_output_path() {
    let ply = StanfordPlySinkProvider {};
    assert_eq!(ply.info().id_name, "ply");
    assert_eq!(ply.info().name, "Stanford PLY");
    let gpkg = GpkgSinkProvider {};
    assert_eq!(gpkg.info().id_name, "gpkg");
    assert_eq!(gpkg.info().name, "GeoPackage");
    let geojson = GeoJsonSinkProvider {};
    assert_eq!(geojson.info().name, "GeoJSON");
    let tiles = CesiumTilesSinkProvider {};
    assert!(!tiles.info().name.is_empty());

    let params = ply.parameters();
    assert_eq!(params.entries.len(), 1);
    assert_eq!(params.entries[0].0, "@output");
    assert_eq!(params.entries[0].1.description, "Output file path");
    assert!(params.entries[0].1.required);
    assert!(params.validate().is_err());

    let params = with_output(ply.parameters(), "/dev/null");
    assert!(params.validate().is_ok());
    assert_eq!(ply.create(&params).output_path, "/dev/null");
    assert_eq!(
        gpkg.create(&with_output(gpkg.parameters(), "sqlite::memory:")).output_path,
        "sqlite::memory:"
    );
    assert_eq!(
        geojson.create(&with_output(geojson.parameters(), "out.geojson")).output_path,
        "out.geojson"
    );
    assert_eq!(
        tiles.create(&with_output(tiles.parameters(), "/tmp/nusamai/3dtiles/")).output_path,
        "/tmp/nusamai/3dtiles/"
    );
}

#[test]
fn sinks_state_their_requirements() {
    let params = with_output((GpkgSinkProvider {}).parameters(), "x");
    let req = (GpkgSinkProvider {}).create(&params).make_transform_requirements();
    assert!(matches!(
        req.tree_flattening,
        TreeFlatteningSpec::Flatten {
            feature: FeatureFlatteningOption::AllExceptThematicSurfaces,
            data: DataFlatteningOption::TopLevelOnly,
            object: ObjectFlatteningOption::Off,
        }
    ));
    assert!(matches!(req.mergedown, MergedownSpec::RemoveDescendantFeatures));

    let req = (GeoJsonSinkProvider {}).create(&params).make_transform_requirements();
    assert!(matches!(req.mergedown, MergedownSpec::RetainDescendantFeatures));
    assert!(matches!(req.tree_flattening, TreeFlatteningSpec::Off));

    let req = (CesiumTilesSinkProvider {}).create(&params).make_transform_requirements();
    assert!(matches!(req.mergedown, MergedownSpec::RemoveDescendantFeatures));

    let req = (StanfordPlySinkProvider {}).create(&params).make_requirements();
    assert!(matches!(req.tree_flattening, TreeFlatteningSpec::Off));
    assert!(!req.resolve_appearance);
}

#[test]
fn a_new_table_of_uris_holds_none() {
    let mut textures = new_uri_set();
    assert_eq!(uri_count(&textures), 0);
    let wall = Texture { uri: "file:///wall.png".to_string() };
    assert_eq!(wall.to_gltf(&mut textures).source, Some(0));
    assert_eq!(wall.to_gltf(&mut textures).source, Some(0));
    assert_eq!(uri_count(&textures), 1);
    assert_eq!(Texture { uri: "file:///roof.png".to_string() }.to_gltf(&mut textures).source, Some(1));
    assert_eq!(uri_count(&textures), 2);
}

#[test]
fn each_table_gets_a_column_once() {
    let mut state = GpkgWriterState::new();
    let building = "bldg:Building".to_string();
    let road = "tran:Road".to_string();
    let names = |list: &[&str]| list.iter().map(|n| n.to_string()).collect::<Vec<String>>();

    assert!(state.on_record(&building, RecordKind::Feature).create_table);
    assert_eq!(
        state.take_columns(&building, &names(&["gml_id", "name", "gml_id"])),
        names(&["gml_id", "name"])
    );
    // a column that the table has is not added again
    assert!(!state.on_record(&building, RecordKind::Feature).create_table);
    assert_eq!(state.take_columns(&building, &names(&["name", "height", "gml_id"])), names(&["height"]));
    assert!(state.take_columns(&building, &names(&["height", "name"])).is_empty());
    assert!(state.take_columns(&building, &names(&[])).is_empty());

    // the columns of one table are not those of another
    assert!(state.on_record(&road, RecordKind::Feature).create_table);
    assert_eq!(state.take_columns(&road, &names(&["name", "width"])), names(&["name", "width"]));
    assert_eq!(state.take_columns(&building, &names(&["width"])), names(&["width"]));
    assert_eq!(state.finish(), vec![building, road]);
}

#[test]
fn a_collection_written_piece_by_piece_is_the_same_collection() {
    let features: Vec<Vec<u8>> =
        vec![b"{\"a\":1}".to_vec(), b"{\"b\":2}".to_vec(), b"{\"c\":3}".to_vec()];
    for count in 0..=features.len() {
        let (mut framing, mut out) = FeatureCollectionWriter::begin();
        for feature in &features[..count] {
            out.extend(framing.feature(feature));
        }
        out.extend(framing.end());
        assert_eq!(out, write_feature_collection(&features[..count].to_vec()));
    }
    let (mut framing, head) = FeatureCollectionWriter::begin();
    assert_eq!(head, b"{\"type\":\"FeatureCollection\",\"features\":[".to_vec());
    assert_eq!(framing.feature(b"1"), b"1".to_vec());
    assert_eq!(framing.feature(b"2"), b",2".to_vec());
    assert_eq!(framing.end(), b"]}\n".to_vec());
}

#[test]
fn features_grouped_piece_by_piece_give_the_same_groups() {
    let ids: [u64; 9] = [1, 1, 2, 5, 5, 5, 5, 8, 9];
    let make = || -> Vec<SerializedSlicedFeature> {
        ids.iter().enumerate().map(|(i, id)| sliced(*id, &[i as u8])).collect()
    };
    let all = make();
    let plain = |groups: &[(u64, Vec<SerializedSlicedFeature>)]| -> Vec<(u64, Vec<Vec<u8>>)> {
        groups.iter().map(|(id, g)| (*id, g.iter().map(|f| f.body.clone()).collect())).collect()
    };
    let whole = plain(&group_sorted(make()).ok().unwrap());
    assert_eq!(whole.len(), 5);

    for size in 1..=ids.len() {
        let mut found = Vec::new();
        let mut carry = Vec::new();
        for chunk in all.chunks(size) {
            let piece = chunk.iter().map(|f| sliced(f.tile_id, &f.body)).collect();
            let (done, rest) = group_sorted_chunk(carry, piece).ok().unwrap();
            // what is carried on is of the tile that the piece ended at
            assert!(rest.iter().all(|f| f.tile_id == chunk.last().unwrap().tile_id));
            assert!(!rest.is_empty());
            found.extend(plain(&done));
            carry = rest;
        }
        found.extend(plain(&group_sorted(carry).ok().unwrap()));
        assert_eq!(found, whole);
    }

    // nothing gives nothing
    let (done, rest) = group_sorted_chunk(vec![], vec![]).ok().unwrap();
    assert!(done.is_empty() && rest.is_empty());
    // a piece that goes back to an earlier tile is given back whole
    let given = group_sorted_chunk(vec![sliced(5, b"a")], vec![sliced(4, b"b")]).err().unwrap();
    assert_eq!(given.len(), 2);
    assert_eq!((given[0].tile_id, given[1].tile_id), (5, 4));
}
