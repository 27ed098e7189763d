use aquaforge::chunk_map::ChunkMap;
use aquaforge::coords::IVec3;
use aquaforge::world::{
    StreamingConfig, camera_chunk_center, chunks_in_radius, chunks_to_despawn, chunks_to_spawn,
    sort_by_distance_to,
};

#[test]
fn streaming_defaults() {
    let c = StreamingConfig::default();
    assert_eq!(c.horizontal_radius, 6);
    assert_eq!(c.despawn_hysteresis, 1);
    assert_eq!(c.max_spawns_per_frame, 4);
    assert_eq!(c.max_despawns_per_frame, 8);
}

#[test]
fn camera_center_snaps_into_the_slabs() {
    assert_eq!(camera_chunk_center(IVec3::new(-17, 31, 47)), IVec3::new(-2, 1, 2));
    assert_eq!(camera_chunk_center(IVec3::new(0, 16, 0)).y, 1);
    assert_eq!(camera_chunk_center(IVec3::new(0, 15, 0)).y, 0);
    assert_eq!(camera_chunk_center(IVec3::new(0, -1000, 0)).y, 0);
}

#[test]
fn ring_order_and_empty_radius() {
    let ring = chunks_in_radius(IVec3::new(5, 0, -5), 1);
    assert_eq!(ring.len(), 18);
    assert_eq!(ring[0], IVec3::new(4, 0, -6));
    assert_eq!(ring[1], IVec3::new(4, 1, -6));
    assert_eq!(ring[2], IVec3::new(4, 0, -5));
    assert_eq!(ring[17], IVec3::new(6, 1, -4));
    assert!(chunks_in_radius(IVec3::new(0, 0, 0), -1).is_empty());
    assert_eq!(chunks_in_radius(IVec3::new(0, 0, 0), 0), vec![IVec3::new(0, 0, 0), IVec3::new(0, 1, 0)]);
}

#[test]
fn spawns_closest_missing_chunks_first() {
    let config = StreamingConfig {
        horizontal_radius: 1,
        despawn_hysteresis: 1,
        max_spawns_per_frame: 4,
        max_despawns_per_frame: 8,
    };
    let mut map = ChunkMap::new();
    let spawn = chunks_to_spawn(IVec3::new(0, 0, 0), &config, &map);
    assert_eq!(
        spawn,
        vec![
            IVec3::new(0, 0, 0),
            IVec3::new(0, 1, 0),
            IVec3::new(-1, 0, -1),
            IVec3::new(-1, 1, -1),
        ]
    );
    map.insert(IVec3::new(0, 0, 0), 1);
    map.insert(IVec3::new(0, 1, 0), 2);
    let spawn = chunks_to_spawn(IVec3::new(0, 0, 0), &config, &map);
    assert_eq!(spawn[0], IVec3::new(-1, 0, -1));
    assert_eq!(spawn.len(), 4);
}

#[test]
fn despawns_furthest_chunks_first() {
    let config = StreamingConfig::default();
    let mut map = ChunkMap::new();
    map.insert(IVec3::new(10, 0, 0), 1);
    map.insert(IVec3::new(0, 1, -20), 2);
    map.insert(IVec3::new(5, 0, 0), 3);
    map.insert(IVec3::new(7, 0, 7), 4);
    // Drop radius is 6 + 1 = 7: only the chunks at 10 and 20 go, furthest first.
    let drop = chunks_to_despawn(IVec3::new(0, 0, 0), &config, &map);
    assert_eq!(drop, vec![IVec3::new(0, 1, -20), IVec3::new(10, 0, 0)]);
    let capped = StreamingConfig {
        max_despawns_per_frame: 1,
        ..config
    };
    assert_eq!(chunks_to_despawn(IVec3::new(0, 0, 0), &capped, &map), vec![IVec3::new(0, 1, -20)]);
}

#[test]
fn distance_sort_is_stable() {
    let mut chunks = vec![
        IVec3::new(2, 0, 0),
        IVec3::new(0, 1, 2),
        IVec3::new(-1, 0, 0),
        IVec3::new(0, 0, -2),
        IVec3::new(1, 1, 1),
    ];
    sort_by_distance_to(&mut chunks, IVec3::new(0, 0, 0));
    assert_eq!(
        chunks,
        vec![
            IVec3::new(-1, 0, 0),
            IVec3::new(1, 1, 1),
            IVec3::new(2, 0, 0),
            IVec3::new(0, 1, 2),
            IVec3::new(0, 0, -2),
        ]
    );
}
