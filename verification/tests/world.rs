use aquaforge::chunk_map::ChunkMap;
use aquaforge::coords::IVec3;
use aquaforge::world::{
    VERTICAL_CHUNKS, camera_chunk_center, chebyshev_xz, chunks_in_radius,
    loaded_chunks_outside_radius, missing_chunks_in_radius, sort_by_distance_to,
};

/// The block cell a camera at world position `(x, y, z)` sits in.
fn cell_of(x: f32, y: f32, z: f32) -> IVec3 {
    IVec3::new(x.floor() as i32, y.floor() as i32, z.floor() as i32)
}

/// Stand-in entity id for chunks that only need to be present.
const PLACEHOLDER: u64 = u64::MAX;

#[test]
fn camera_chunk_center_clamps_y() {
    assert_eq!(camera_chunk_center(cell_of(0.0, -5.0, 0.0)), IVec3::new(0, 0, 0));
    assert_eq!(
        camera_chunk_center(cell_of(0.0, 10_000.0, 0.0)),
        IVec3::new(0, VERTICAL_CHUNKS - 1, 0)
    );
}

#[test]
fn camera_chunk_center_uses_floor_division() {
    assert_eq!(camera_chunk_center(cell_of(-0.1, 10.0, 0.0)).x, -1);
    assert_eq!(camera_chunk_center(cell_of(16.5, 10.0, 0.0)).x, 1);
}

#[test]
fn chunks_in_radius_covers_expected_ring() {
    let chunks = chunks_in_radius(IVec3::new(0, 0, 0), 2);
    let expected = (2 * 2 + 1) * (2 * 2 + 1) * VERTICAL_CHUNKS;
    assert_eq!(chunks.len() as i32, expected);
    for c in &chunks {
        assert!((0..VERTICAL_CHUNKS).contains(&c.y));
        assert!(c.x.abs() <= 2 && c.z.abs() <= 2);
    }
}

#[test]
fn chebyshev_xz_ignores_y() {
    let a = IVec3::new(3, 0, -1);
    let b = IVec3::new(0, 7, 2);
    assert_eq!(chebyshev_xz(a, b), 3);
}

#[test]
fn missing_filter_excludes_loaded_chunks() {
    let center = IVec3::new(0, 0, 0);
    let mut map = ChunkMap::default();
    for dx in -1..=1 {
        for dz in -1..=1 {
            map.insert(IVec3::new(dx, 0, dz), PLACEHOLDER);
        }
    }
    let missing = missing_chunks_in_radius(center, 1, &map);
    assert_eq!(missing.len() as i32, (2 * 1 + 1) * (2 * 1 + 1));
    for c in missing {
        assert_eq!(c.y, 1);
    }
}

#[test]
fn outside_radius_filter_picks_up_drifted_chunks() {
    let center = IVec3::new(0, 0, 0);
    let mut map = ChunkMap::default();
    map.insert(IVec3::new(10, 0, 0), PLACEHOLDER);
    map.insert(IVec3::new(2, 0, 0), PLACEHOLDER);
    map.insert(IVec3::new(-2, 1, 0), PLACEHOLDER);

    let outside = loaded_chunks_outside_radius(&map, center, 3);
    assert_eq!(outside, vec![IVec3::new(10, 0, 0)]);
}

#[test]
fn sort_by_distance_puts_closest_first() {
    let center = IVec3::new(0, 0, 0);
    let mut chunks = vec![
        IVec3::new(3, 0, 0),
        IVec3::new(1, 0, 0),
        IVec3::new(5, 0, 0),
        IVec3::new(0, 0, 2),
    ];
    sort_by_distance_to(&mut chunks, center);
    assert_eq!(
        chunks,
        vec![
            IVec3::new(1, 0, 0),
            IVec3::new(0, 0, 2),
            IVec3::new(3, 0, 0),
            IVec3::new(5, 0, 0),
        ]
    );
}
