use nusamai::geometry::{positions, IndexedPolygon};

fn v(x: f64, y: f64, z: f64) -> (u64, u64, u64) {
    (x.to_bits(), y.to_bits(), z.to_bits())
}

fn coords(ring: &[(u64, u64, u64)]) -> Vec<[f64; 3]> {
    ring.iter()
        .map(|(x, y, z)| [f64::from_bits(*x), f64::from_bits(*y), f64::from_bits(*z)])
        .collect()
}

#[test]
fn rings_of_a_polygon_with_holes_are_closed() {
    let vertices = vec![
        v(0., 0., 99.),
        v(5., 0., 99.),
        v(5., 5., 99.),
        v(0., 5., 99.),
        v(1., 1., 99.),
        v(2., 1., 99.),
        v(2., 2., 99.),
        v(1., 2., 99.),
        v(3., 3., 99.),
        v(4., 3., 99.),
        v(4., 4., 99.),
        v(3., 4., 99.),
    ];
    let poly = IndexedPolygon {
        exterior: vec![0, 1, 2, 3],
        interiors: vec![vec![4, 5, 6, 7], vec![8, 9, 10, 11]],
    };

    let rings = poly.closed_rings(&vertices);

    assert_eq!(rings.len(), 3);
    assert_eq!(rings[0].len(), 5);
    assert_eq!(rings[1].len(), 5);
    assert_eq!(rings[2].len(), 5);
    assert_eq!(
        coords(&rings[0]),
        vec![
            [0., 0., 99.],
            [5., 0., 99.],
            [5., 5., 99.],
            [0., 5., 99.],
            [0., 0., 99.]
        ]
    );
    assert_eq!(
        coords(&rings[1]),
        vec![
            [1., 1., 99.],
            [2., 1., 99.],
            [2., 2., 99.],
            [1., 2., 99.],
            [1., 1., 99.]
        ]
    );
    assert_eq!(
        coords(&rings[2]),
        vec![
            [3., 3., 99.],
            [4., 3., 99.],
            [4., 4., 99.],
            [3., 4., 99.],
            [3., 3., 99.]
        ]
    );
}

#[test]
fn rings_of_an_indexed_polygon_are_closed() {
    let vertices = vec![
        // 1st polygon, exterior (vertex 0~3)
        v(0., 0., 111.),
        v(5., 0., 111.),
        v(5., 5., 111.),
        v(0., 5., 111.),
        // 1st polygon, interior 1 (vertex 4~7)
        v(1., 1., 111.),
        v(2., 1., 111.),
        v(2., 2., 111.),
        v(1., 2., 111.),
        // 1st polygon, interior 2 (vertex 8~11)
        v(3., 3., 111.),
        v(4., 3., 111.),
        v(4., 4., 111.),
        v(3., 4., 111.),
    ];

    let poly = IndexedPolygon {
        exterior: vec![0, 1, 2, 3, 0],
        interiors: vec![vec![4, 5, 6, 7, 4], vec![8, 9, 10, 11, 8]],
    };

    let rings = poly.closed_rings(&vertices);

    assert_eq!(rings.len(), 3);
    assert_eq!(
        coords(&rings[0]),
        vec![
            [0., 0., 111.],
            [5., 0., 111.],
            [5., 5., 111.],
            [0., 5., 111.],
            [0., 0., 111.]
        ]
    );
    assert_eq!(
        coords(&rings[1]),
        vec![
            [1., 1., 111.],
            [2., 1., 111.],
            [2., 2., 111.],
            [1., 2., 111.],
            [1., 1., 111.]
        ]
    );
    assert_eq!(
        coords(&rings[2]),
        vec![
            [3., 3., 111.],
            [4., 3., 111.],
            [4., 4., 111.],
            [3., 4., 111.],
            [3., 3., 111.]
        ]
    );
}

#[test]
fn indexed_points_give_their_positions() {
    let vertices = vec![v(11., 12., 13.), v(21., 22., 23.), v(31., 32., 33.)];
    let mpoint_idx: Vec<u32> = vec![0, 1, 2];

    let points = positions(&vertices, &mpoint_idx);

    assert_eq!(points.len(), 3);
    assert_eq!(
        coords(&points),
        vec![[11., 12., 13.], [21., 22., 23.], [31., 32., 33.]]
    );
}
