use aquaforge::atlas::{ATLAS_BYTES, paint_tile, texel_hash, tile_of};
use aquaforge::blocks::BlockType;
use aquaforge::chunk::{Chunk, pick_block};
use aquaforge::chunk_map::{ChunkMap, world_block_to_chunk};
use aquaforge::coords::{IVec3, UVec2, UVec3};
use aquaforge::db::{base_block_id, is_stack_column, seed_block_id, stack_block_id};
use aquaforge::edit::{SelectedBlock, Target, cycle_selected_block, edit_blocks, hotbar_label_text};
use aquaforge::headlights::{Headlights, headlights_label_text, toggle_headlights};
use aquaforge::inventory::{Inventory, Slot, select_slot_with_keys};
use aquaforge::noise::hash2_bits;

#[test]
fn world_block_to_chunk_splits_negative_coordinates() {
    let (chunk, local) = world_block_to_chunk(IVec3::new(-1, -17, 33));
    assert_eq!(chunk, IVec3::new(-1, -2, 2));
    assert_eq!(local, UVec3::new(15, 15, 1));
    let (chunk, local) = world_block_to_chunk(IVec3::new(16, 0, 15));
    assert_eq!(chunk, IVec3::new(1, 0, 0));
    assert_eq!(local, UVec3::new(0, 0, 15));
}

#[test]
fn chunk_map_insert_get_remove_round_trip() {
    let mut map = ChunkMap::new();
    let a = IVec3::new(-3, 1, 7);
    let b = IVec3::new(7, 1, -3);
    assert_eq!(map.get(a), None);
    map.insert(a, 11);
    map.insert(b, 22);
    assert!(map.contains(a));
    assert_eq!(map.get(a), Some(11));
    assert_eq!(map.get(b), Some(22));
    map.insert(a, 33);
    assert_eq!(map.get(a), Some(33));
    assert_eq!(map.remove(a), Some(33));
    assert!(!map.contains(a));
    assert_eq!(map.remove(a), None);
    assert_eq!(map.iter(), vec![(b, 22)]);
}

#[test]
fn chunk_map_iter_lists_every_entry_once() {
    let mut map = ChunkMap::default();
    for x in -2..=2 {
        map.insert(IVec3::new(x, 0, x), (x + 10) as u64);
    }
    let mut entries = map.iter();
    entries.sort_by_key(|e| e.0.x);
    let expected: Vec<(IVec3, u64)> = (-2..=2).map(|x| (IVec3::new(x, 0, x), (x + 10) as u64)).collect();
    assert_eq!(entries, expected);
}

#[test]
fn pick_block_layers_the_seabed() {
    assert_eq!(pick_block(11, 10, false), BlockType::Air);
    assert_eq!(pick_block(10, 10, false), BlockType::Sand);
    assert_eq!(pick_block(10, 10, true), BlockType::Coral);
    assert_eq!(pick_block(8, 10, true), BlockType::Sand);
    assert_eq!(pick_block(7, 10, false), BlockType::Dirt);
    assert_eq!(pick_block(6, 10, false), BlockType::Dirt);
    assert_eq!(pick_block(5, 10, false), BlockType::Stone);
}

#[test]
fn generate_fills_columns_from_their_seabed() {
    let mut seabed = vec![3i32; 256];
    let mut coral = vec![false; 256];
    // Column (2, 5) sits higher and carries coral.
    seabed[2 + 16 * 5] = 20;
    coral[2 + 16 * 5] = true;
    let c = Chunk::generate(IVec3::new(4, 1, -2), &seabed, &coral);
    assert_eq!(c.blocks.len(), 4096);
    // Chunk y = 1 covers world heights 16..32.
    assert_eq!(c.get(0, 0, 0), BlockType::Air);
    assert_eq!(c.get(2, 4, 5), BlockType::Coral);
    assert_eq!(c.get(2, 3, 5), BlockType::Sand);
    assert_eq!(c.get(2, 2, 5), BlockType::Sand);
    assert_eq!(c.get(2, 1, 5), BlockType::Dirt);
    assert_eq!(c.get(2, 0, 5), BlockType::Dirt);
    assert_eq!(c.get(2, 5, 5), BlockType::Air);
}

#[test]
fn hashes_have_exact_values() {
    assert_eq!(hash2_bits(0, 0, 0), 0);
    assert_eq!(hash2_bits(1, 0, 0), 5990108);
    assert_eq!(hash2_bits(-3, 7, 0xAFE1_0E6A), 1646532);
    assert_eq!(texel_hash(BlockType::Stone, 0, 0), 6176948);
    assert_eq!(texel_hash(BlockType::Sand, 5, 9), 2172293);
}

#[test]
fn tiles_are_fixed_per_block() {
    assert_eq!(tile_of(BlockType::Air), UVec2::new(0, 0));
    assert_eq!(tile_of(BlockType::Stone), UVec2::new(0, 0));
    assert_eq!(tile_of(BlockType::Sand), UVec2::new(1, 0));
    assert_eq!(tile_of(BlockType::Dirt), UVec2::new(2, 0));
    assert_eq!(tile_of(BlockType::Coral), UVec2::new(3, 0));
    assert_eq!(tile_of(BlockType::Kelp), UVec2::new(0, 1));
}

#[test]
fn paint_tile_writes_only_its_own_tile() {
    let mut pixels = vec![7u8; ATLAS_BYTES];
    let rgb: Vec<(u8, u8, u8)> = (0..1024u32).map(|i| ((i % 251) as u8, (i / 4) as u8, 3)).collect();
    paint_tile(&mut pixels, BlockType::Kelp, &rgb);
    // Kelp owns tile (0, 1): texel (5, 2) of the tile is atlas texel (5, 34).
    let i = ((34 * 128 + 5) * 4) as usize;
    let c = rgb[2 * 32 + 5];
    assert_eq!(&pixels[i..i + 4], &[c.0, c.1, c.2, 255]);
    // Texel (5, 2) of the atlas belongs to the Stone tile and is untouched.
    let j = ((2 * 128 + 5) * 4) as usize;
    assert_eq!(&pixels[j..j + 4], &[7, 7, 7, 7]);
    let painted = pixels.iter().filter(|b| **b != 7).count();
    assert!(painted <= 32 * 32 * 4);
}

#[test]
fn seed_ids_follow_the_layout() {
    assert_eq!(base_block_id(0), 4);
    assert_eq!(base_block_id(5), 1);
    assert!(is_stack_column(4, 8));
    assert!(!is_stack_column(4, 9));
    assert_eq!(stack_block_id(2), 5);
    assert_eq!(stack_block_id(3), 6);
    assert_eq!(seed_block_id(0, 0, 0), 4);
    assert_eq!(seed_block_id(0, 1, 0), 6);
    assert_eq!(seed_block_id(4, 2, 12), 5);
    assert_eq!(seed_block_id(4, 4, 12), 1);
    assert_eq!(seed_block_id(5, 2, 12), 1);
}

#[test]
fn headlights_toggle_and_label() {
    let mut h = Headlights::default();
    assert!(h.on);
    assert_eq!(headlights_label_text(h.on), "L: Headlights ON");
    toggle_headlights(&mut h, false);
    assert!(h.on);
    toggle_headlights(&mut h, true);
    assert!(!h.on);
    assert_eq!(headlights_label_text(h.on), "L: Headlights OFF");
    toggle_headlights(&mut h, true);
    assert!(h.on);
}

#[test]
fn hotbar_keys_pick_block_and_slot() {
    let mut selected = SelectedBlock::default();
    assert_eq!(selected.0, BlockType::Stone);
    cycle_selected_block(&mut selected, [false, true, false, true, false]);
    assert_eq!(selected.0, BlockType::Coral);
    cycle_selected_block(&mut selected, [false; 5]);
    assert_eq!(selected.0, BlockType::Coral);
    cycle_selected_block(&mut selected, [false, false, false, false, true]);
    assert_eq!(selected.0, BlockType::Kelp);
    assert_eq!(
        hotbar_label_text(selected.0),
        "Hold: Kelp   (1 Stone  2 Sand  3 Dirt  4 Coral  5 Kelp)"
    );

    let mut inv = Inventory::default();
    select_slot_with_keys(&mut inv, [false, false, true, false, false]);
    assert_eq!(inv.selected, 2);
    select_slot_with_keys(&mut inv, [false; 5]);
    assert_eq!(inv.selected, 2);
    select_slot_with_keys(&mut inv, [true, true, false, false, false]);
    assert_eq!(inv.selected, 1);
}

#[test]
fn edits_need_a_lock_held_since_last_frame() {
    let target = Some(Target {
        world_block: IVec3::new(3, 4, 5),
        face_normal: IVec3::new(0, 1, 0),
    });
    let mut was_locked = false;
    // The grabbing click does not edit.
    assert_eq!(edit_blocks(true, &mut was_locked, target, true, false, BlockType::Sand), None);
    assert!(was_locked);
    // Left click breaks the target.
    assert_eq!(
        edit_blocks(true, &mut was_locked, target, true, false, BlockType::Sand),
        Some((IVec3::new(3, 4, 5), BlockType::Air))
    );
    // Right click places the held block against the hit face.
    assert_eq!(
        edit_blocks(true, &mut was_locked, target, false, true, BlockType::Sand),
        Some((IVec3::new(3, 5, 5), BlockType::Sand))
    );
    // Never inside the targeted cell itself.
    let inside = Some(Target {
        world_block: IVec3::new(3, 4, 5),
        face_normal: IVec3::new(0, 0, 0),
    });
    assert_eq!(edit_blocks(true, &mut was_locked, inside, false, true, BlockType::Sand), None);
    // No target, no edit; releasing the lock stops edits.
    assert_eq!(edit_blocks(true, &mut was_locked, None, true, false, BlockType::Sand), None);
    assert_eq!(edit_blocks(false, &mut was_locked, target, true, false, BlockType::Sand), None);
    assert!(!was_locked);
}

#[test]
fn deposit_goes_to_the_first_matching_slot() {
    // With two Coral slots, the active later one loses a unit but the
    // deposit lands in the earlier one: totals survive, the layout does not.
    let mut inv = Inventory::default();
    inv.slots[1] = Slot { block: BlockType::Coral, count: 5 };
    inv.selected = 3;
    let taken = inv.take_selected().unwrap();
    inv.deposit(taken);
    assert_eq!(inv.slots[1].count, 6);
    assert_eq!(inv.slots[3].count, 15);
}

#[test]
fn blocks_are_laid_out_x_major() {
    let mut c = Chunk::empty();
    c.set(1, 0, 0, BlockType::Stone);
    c.set(0, 1, 0, BlockType::Sand);
    c.set(0, 0, 1, BlockType::Dirt);
    c.set(15, 15, 15, BlockType::Kelp);
    assert_eq!(c.blocks.len(), 4096);
    assert_eq!(c.blocks[256], BlockType::Stone);
    assert_eq!(c.blocks[16], BlockType::Sand);
    assert_eq!(c.blocks[1], BlockType::Dirt);
    assert_eq!(c.blocks[4095], BlockType::Kelp);
    assert_eq!(c.get(1, 0, 0), BlockType::Stone);
    assert_eq!(c.get(0, 0, 0), BlockType::Air);
}
