use nusamai::crs::{jprect_zone, EPSG_JGD2011_GEOGRAPHIC_3D};
use nusamai::geometry::{
    closed_positions, positions, GeometryCollector, GeometryRef, GeometryStore, GeometryType,
    IndexedMultiPolygon, IndexedPolygon, LocalId,
};

fn v(x: f64, y: f64, z: f64) -> (u64, u64, u64) {
    (x.to_bits(), y.to_bits(), z.to_bits())
}

#[test]
fn collector_gives_equal_bits_one_index() {
    let mut collector = GeometryCollector::new();
    let square = vec![
        v(0., 0., 0.),
        v(1., 0., 0.),
        v(1., 1., 0.),
        v(0., 1., 0.),
        v(0., 0., 0.),
    ];
    let pos = collector.add_exterior_ring(&square, None);
    assert_eq!(pos, 0);
    // a second polygon that shares an edge with the first
    let neighbour = vec![
        v(1., 0., 0.),
        v(2., 0., 0.),
        v(2., 1., 0.),
        v(1., 1., 0.),
        v(1., 0., 0.),
    ];
    let pos = collector.add_exterior_ring(&neighbour, Some(LocalId("ring-2".to_string())));
    assert_eq!(pos, 1);

    let store = collector.into_geometries();
    assert_eq!(store.epsg, EPSG_JGD2011_GEOGRAPHIC_3D);
    assert_eq!(store.epsg, 6697);
    assert_eq!(
        store.vertices,
        vec![
            v(0., 0., 0.),
            v(1., 0., 0.),
            v(1., 1., 0.),
            v(0., 1., 0.),
            v(2., 0., 0.),
            v(2., 1., 0.),
        ]
    );
    assert_eq!(store.multipolygon.polygons.len(), 2);
    assert_eq!(store.multipolygon.polygons[0].exterior, vec![0, 1, 2, 3, 0]);
    assert_eq!(store.multipolygon.polygons[1].exterior, vec![1, 4, 5, 2, 1]);
    assert_eq!(store.ring_ids.len(), 2);
    assert!(store.ring_ids[0].is_none());
    assert_eq!(store.ring_ids[1].as_ref().unwrap().0, "ring-2");
}

#[test]
fn collector_tells_bit_patterns_apart() {
    // 0.0 and -0.0 compare equal as numbers but differ in their bits
    let mut collector = GeometryCollector::new();
    let ring = vec![v(0., 0., 0.), v(-0., 0., 0.), v(0., 0., 0.)];
    collector.add_exterior_ring(&ring, None);
    let store = collector.into_geometries();
    assert_eq!(store.vertices.len(), 2);
    assert_eq!(store.multipolygon.polygons[0].exterior, vec![0, 1, 0]);
}

#[test]
fn collector_adds_interior_rings_to_the_last_polygon() {
    let mut collector = GeometryCollector::new();
    collector.add_exterior_ring(
        &vec![v(0., 0., 0.), v(5., 0., 0.), v(5., 5., 0.), v(0., 5., 0.)],
        None,
    );
    collector.add_interior_ring(
        &vec![v(1., 1., 0.), v(2., 1., 0.), v(2., 2., 0.), v(1., 2., 0.)],
        None,
    );
    collector.add_exterior_ring(&vec![v(9., 9., 0.), v(5., 5., 0.)], None);
    let store = collector.into_geometries();
    assert_eq!(store.multipolygon.polygons.len(), 2);
    assert_eq!(store.multipolygon.polygons[0].interiors, vec![vec![4, 5, 6, 7]]);
    assert!(store.multipolygon.polygons[1].interiors.is_empty());
    assert_eq!(store.multipolygon.polygons[1].exterior, vec![8, 2]);
    assert_eq!(store.ring_ids.len(), 3);
    assert_eq!(store.vertices.len(), 9);
}

#[test]
fn rings_are_closed_when_read() {
    let vertices = vec![v(0., 0., 1.), v(5., 0., 1.), v(5., 5., 1.)];
    // an open ring gets its first vertex appended
    assert_eq!(
        closed_positions(&vertices, &vec![0, 1, 2]),
        vec![v(0., 0., 1.), v(5., 0., 1.), v(5., 5., 1.), v(0., 0., 1.)]
    );
    // a closed ring stays as it is
    assert_eq!(
        closed_positions(&vertices, &vec![0, 1, 2, 0]),
        vec![v(0., 0., 1.), v(5., 0., 1.), v(5., 5., 1.), v(0., 0., 1.)]
    );
    // so does an empty one, and one of a single vertex
    assert_eq!(closed_positions(&vertices, &vec![]), vec![]);
    assert_eq!(closed_positions(&vertices, &vec![2]), vec![v(5., 5., 1.)]);
    assert_eq!(
        positions(&vertices, &vec![2, 0]),
        vec![v(5., 5., 1.), v(0., 0., 1.)]
    );
}

#[test]
fn polygon_rings_come_exterior_first() {
    let vertices = vec![
        v(0., 0., 0.),
        v(9., 0., 0.),
        v(9., 9., 0.),
        v(1., 1., 0.),
        v(2., 1., 0.),
        v(2., 2., 0.),
    ];
    let poly = IndexedPolygon {
        exterior: vec![0, 1, 2],
        interiors: vec![vec![3, 4, 5, 3]],
    };
    let rings = poly.closed_rings(&vertices);
    assert_eq!(rings.len(), 2);
    assert_eq!(
        rings[0],
        vec![v(0., 0., 0.), v(9., 0., 0.), v(9., 9., 0.), v(0., 0., 0.)]
    );
    assert_eq!(
        rings[1],
        vec![v(1., 1., 0.), v(2., 1., 0.), v(2., 2., 0.), v(1., 1., 0.)]
    );
}

#[test]
fn multipolygon_grows_by_rings() {
    let mut mpoly = IndexedMultiPolygon::new();
    assert!(mpoly.is_empty());
    mpoly.add_exterior(vec![0, 1, 2]);
    mpoly.add_interior(vec![3, 4, 5]);
    mpoly.add_interior(vec![6, 7, 8]);
    mpoly.add_exterior(vec![9, 10, 11]);
    assert_eq!(mpoly.len(), 2);
    assert!(!mpoly.is_empty());
    assert_eq!(mpoly.polygons[0].exterior, vec![0, 1, 2]);
    assert_eq!(mpoly.polygons[0].interiors, vec![vec![3, 4, 5], vec![6, 7, 8]]);
    assert_eq!(mpoly.polygons[1].exterior, vec![9, 10, 11]);
}

#[test]
fn references_are_held_to_their_collection() {
    let mut store = GeometryStore::default();
    store.vertices = vec![v(0., 0., 0.), v(1., 0., 0.), v(1., 1., 0.)];
    store.multipolygon.add_exterior(vec![0, 1, 2]);
    store.multipolygon.add_exterior(vec![2, 1, 0]);
    store.multipoint.points = vec![0];
    assert_eq!(store.collection_len(GeometryType::Solid), 2);
    assert_eq!(store.collection_len(GeometryType::Surface), 2);
    assert_eq!(store.collection_len(GeometryType::Triangle), 2);
    assert_eq!(store.collection_len(GeometryType::Curve), 0);
    assert_eq!(store.collection_len(GeometryType::Point), 1);
    let inside = GeometryRef { ty: GeometryType::Surface, lod: 1, pos: 1, len: 1 };
    let beyond = GeometryRef { ty: GeometryType::Surface, lod: 1, pos: 1, len: 2 };
    let empty = GeometryRef { ty: GeometryType::Curve, lod: 1, pos: 0, len: 0 };
    let huge = GeometryRef { ty: GeometryType::Point, lod: 1, pos: u32::MAX, len: u32::MAX };
    assert!(store.holds(&inside));
    assert!(!store.holds(&beyond));
    assert!(store.holds(&empty));
    assert!(!store.holds(&huge));
}

#[test]
fn plane_rectangular_zones_are_numbered_from_one() {
    assert_eq!(jprect_zone(10162), Some(1));
    assert_eq!(jprect_zone(10170), Some(9));
    assert_eq!(jprect_zone(10174), Some(13));
    assert_eq!(jprect_zone(10161), None);
    assert_eq!(jprect_zone(10175), None);
    assert_eq!(jprect_zone(6697), None);
}

#[test]
fn stores_and_entities_are_checked_for_dangling_indices() {
    let mut store = GeometryStore::default();
    store.vertices = vec![v(0., 0., 0.), v(1., 0., 0.)];
    store.multipolygon.add_exterior(vec![0, 1]);
    store.multipolygon.add_interior(vec![1, 0]);
    store.multilinestring.lines = vec![vec![1]];
    store.multipoint.points = vec![0, 1];
    assert!(store.is_wf());
    assert!(store.multipolygon.polygons[0].is_below(2));
    assert!(!store.multipolygon.polygons[0].is_below(1));

    store.multipoint.points.push(2);
    assert!(!store.is_wf());
    store.multipoint.points.pop();
    store.multilinestring.lines.push(vec![0, 5]);
    assert!(!store.is_wf());
    store.multilinestring.lines.pop();
    store.multipolygon.add_interior(vec![0, 2]);
    assert!(!store.is_wf());

    let refs = vec![
        GeometryRef { ty: GeometryType::Solid, lod: 1, pos: 0, len: 1 },
        GeometryRef { ty: GeometryType::Point, lod: 1, pos: 1, len: 1 },
    ];
    assert!(store.holds_all(&refs));
    assert!(store.holds_all(&vec![]));
    let refs = vec![
        GeometryRef { ty: GeometryType::Solid, lod: 1, pos: 0, len: 1 },
        GeometryRef { ty: GeometryType::Curve, lod: 1, pos: 1, len: 1 },
    ];
    assert!(!store.holds_all(&refs));
}

#[test]
fn collector_drops_polygons_and_keeps_vertices() {
    let mut collector = GeometryCollector::new();
    collector.add_exterior_ring(&vec![v(0., 0., 0.), v(1., 0., 0.), v(1., 1., 0.)], None);
    collector.add_exterior_ring(&vec![v(0., 0., 0.), v(2., 0., 0.), v(2., 2., 0.)], None);
    collector.add_interior_ring(&vec![v(1., 0., 0.), v(1., 1., 0.), v(3., 3., 3.)], None);
    collector.truncate(1, 1);
    assert_eq!(collector.multipolygon.len(), 1);
    assert_eq!(collector.ring_ids.len(), 1);
    assert_eq!(collector.vertices.len(), 6);
    // truncating beyond the end changes nothing
    collector.truncate(7, 7);
    assert_eq!(collector.multipolygon.len(), 1);
    // the vertex that is met again gets the index it had
    let pos = collector.add_exterior_ring(&vec![v(3., 3., 3.)], None);
    assert_eq!(pos, 1);
    assert_eq!(collector.multipolygon.polygons[1].exterior, vec![5]);
}

#[test]
fn collector_drops_vertices_that_nothing_names() {
    let mut collector = GeometryCollector::new();
    collector.add_exterior_ring(&vec![v(0., 0., 0.), v(1., 0., 0.), v(1., 1., 0.)], None);
    collector.add_exterior_ring(&vec![v(0., 0., 0.), v(2., 0., 0.), v(2., 2., 0.)], None);
    assert_eq!(collector.vertex_count(), 5);
    collector.truncate(1, 1);
    collector.truncate_vertices(3);
    assert_eq!(collector.vertex_count(), 3);
    let held: Vec<(u64, u64, u64)> = collector.vertices.iter().copied().collect();
    assert_eq!(held, vec![v(0., 0., 0.), v(1., 0., 0.), v(1., 1., 0.)]);
    // a length beyond the end changes nothing
    collector.truncate_vertices(9);
    assert_eq!(collector.vertex_count(), 3);
    // a vertex that was dropped is new when it is met again
    let pos = collector.add_exterior_ring(&vec![v(2., 2., 0.), v(1., 0., 0.)], None);
    assert_eq!(pos, 1);
    assert_eq!(collector.multipolygon.polygons[1].exterior, vec![3, 1]);
    let store = collector.into_geometries();
    assert_eq!(store.vertices.len(), 4);
    assert!(store.is_wf());
}

#[test]
fn a_ring_is_added_where_its_vertices_can_be_indexed() {
    let mut collector = GeometryCollector::new();
    let square = vec![v(0., 0., 0.), v(1., 0., 0.), v(1., 1., 0.), v(0., 1., 0.), v(0., 0., 0.)];
    assert_eq!(collector.try_add_exterior_ring(&square, None), Some(0));
    assert_eq!(collector.try_add_exterior_ring(&square, Some(LocalId("again".to_string()))), Some(1));
    assert_eq!(collector.vertex_count(), 4);
    assert_eq!(collector.multipolygon.polygons[0].exterior, vec![0, 1, 2, 3, 0]);
    assert_eq!(collector.multipolygon.polygons[1].exterior, vec![0, 1, 2, 3, 0]);
    assert_eq!(collector.ring_ids.len(), 2);
    // -0.0 and 0.0 differ in their bits and are two vertices
    assert_eq!(collector.try_add_exterior_ring(&vec![v(-0., 0., 0.)], None), Some(2));
    assert_eq!(collector.vertex_count(), 5);
}

#[test]
fn collector_stores_lines_and_points_by_their_vertices() {
    let mut collector = GeometryCollector::new();
    assert_eq!(collector.add_exterior_ring(&vec![v(0., 0., 0.), v(1., 0., 0.), v(1., 1., 0.)], None), 0);
    assert_eq!(collector.add_linestring(&vec![v(1., 0., 0.), v(2., 2., 2.), v(1., 0., 0.)]), 0);
    assert_eq!(collector.add_linestring(&vec![v(0., 0., 0.)]), 1);
    assert_eq!(collector.add_points(&vec![v(2., 2., 2.), v(3., 3., 3.)]), 0);
    assert_eq!(collector.add_points(&vec![v(0., 0., 0.)]), 2);
    assert_eq!(collector.add_points(&vec![]), 3);
    assert_eq!(collector.multilinestring.lines, vec![vec![1, 3, 1], vec![0]]);
    assert_eq!(collector.multipoint.points, vec![3, 4, 0]);
    assert_eq!(collector.vertex_count(), 5);
    assert_eq!(collector.collection_len(GeometryType::Solid), 1);
    assert_eq!(collector.collection_len(GeometryType::Curve), 2);
    assert_eq!(collector.collection_len(GeometryType::Point), 3);
    assert_eq!(collector.ring_ids.len(), 1);

    collector.truncate_lines_and_points(1, 2);
    assert_eq!(collector.multilinestring.lines, vec![vec![1, 3, 1]]);
    assert_eq!(collector.multipoint.points, vec![3, 4]);
    collector.truncate_lines_and_points(5, 5);
    assert_eq!(collector.multilinestring.lines.len(), 1);
    assert_eq!(collector.multipoint.points.len(), 2);
    assert_eq!(collector.vertex_count(), 5);
    let store = collector.into_geometries();
    assert!(store.is_wf());
}
