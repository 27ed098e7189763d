use std::collections::HashSet;

use aquaforge::atlas::tile_of;
use aquaforge::blocks::BlockType;
use aquaforge::coords::UVec2;

#[test]
fn every_block_type_has_a_unique_tile() {
    let tiles: HashSet<UVec2> = [
        BlockType::Stone,
        BlockType::Sand,
        BlockType::Dirt,
        BlockType::Coral,
        BlockType::Kelp,
    ]
    .into_iter()
    .map(tile_of)
    .collect();
    assert_eq!(tiles.len(), 5, "each block must own its own tile");
}
