//! Layout of the block texture atlas.
//!
//! Every block type owns one tile of a small square atlas. This module fixes
//! which tile each block uses and where a tile's texels live in the RGBA8
//! pixel buffer, and writes a tile's texels into that buffer.

use vstd::prelude::*;

use crate::blocks::BlockType;
use crate::coords::UVec2;
use vstd::wrapping::u32_specs::{wrapping_add, wrapping_mul};

verus! {

/// Edge length, in tiles, of the atlas.
pub const ATLAS_GRID: u32 = 4;

/// Edge length, in texels, of each tile.
pub const TILE_SIZE: u32 = 32;

/// Edge length, in texels, of the full atlas.
pub const ATLAS_SIZE: u32 = ATLAS_GRID * TILE_SIZE;

/// Length in bytes of the RGBA8 atlas buffer.
pub const ATLAS_BYTES: usize = 128 * 128 * 4;

/// The atlas tile of each block type, as `(tx, ty)` in tile units.
pub open spec fn tile_spec(block: BlockType) -> UVec2 {
    match block {
        BlockType::Air => UVec2 { x: 0, y: 0 },
        BlockType::Stone => UVec2 { x: 0, y: 0 },
        BlockType::Sand => UVec2 { x: 1, y: 0 },
        BlockType::Dirt => UVec2 { x: 2, y: 0 },
        BlockType::Coral => UVec2 { x: 3, y: 0 },
        BlockType::Kelp => UVec2 { x: 0, y: 1 },
    }
}

/// Which atlas tile a block type uses, as `(tx, ty)` in tile units.
///
/// This is the single source of truth: meshers consult it for UVs and the
/// atlas painter for where each block's pattern goes. Air is never meshed
/// but is assigned `(0, 0)` to keep this total.
pub fn tile_of(block: BlockType) -> (t: UVec2)
    ensures
        t == tile_spec(block),
        t.x < ATLAS_GRID && t.y < ATLAS_GRID,
{
    match block {
        BlockType::Air => UVec2 { x: 0, y: 0 },
        BlockType::Stone => UVec2 { x: 0, y: 0 },
        BlockType::Sand => UVec2 { x: 1, y: 0 },
        BlockType::Dirt => UVec2 { x: 2, y: 0 },
        BlockType::Coral => UVec2 { x: 3, y: 0 },
        BlockType::Kelp => UVec2 { x: 0, y: 1 },
    }
}

/// Every non-air block type owns its own tile.
pub proof fn lemma_tiles_distinct(a: BlockType, b: BlockType)
    requires
        !(a is Air),
        !(b is Air),
        a != b,
    ensures
        tile_spec(a) != tile_spec(b),
{
}

/// Byte offset in the atlas buffer of channel `c` of atlas texel `(x, y)`.
pub open spec fn atlas_byte(x: int, y: int, c: int) -> int {
    (y * 128 + x) * 4 + c
}

/// Whether atlas texel `(x, y)` lies in tile `tile`.
pub open spec fn in_tile(tile: UVec2, x: int, y: int) -> bool {
    tile.x * 32 <= x < tile.x * 32 + 32 && tile.y * 32 <= y < tile.y * 32 + 32
}

/// Channel `c` of the opaque RGBA texel made from `color`.
pub open spec fn channel(color: (u8, u8, u8), c: int) -> u8 {
    if c == 0 {
        color.0
    } else if c == 1 {
        color.1
    } else if c == 2 {
        color.2
    } else {
        255u8
    }
}

/// Per-block seed of the texture noise.
pub open spec fn block_seed_spec(block: BlockType) -> u32 {
    match block {
        BlockType::Air => 0u32,
        BlockType::Stone => 0x13AD_BEEFu32,
        BlockType::Sand => 0x5A9D_D11Eu32,
        BlockType::Dirt => 0xD147_FACEu32,
        BlockType::Coral => 0xC0EA_7555u32,
        BlockType::Kelp => 0x8E19_F0E0u32,
    }
}

/// Per-block seed of the texture noise.
pub fn block_seed(block: BlockType) -> (s: u32)
    ensures
        s == block_seed_spec(block),
{
    match block {
        BlockType::Air => 0,
        BlockType::Stone => 0x13AD_BEEF,
        BlockType::Sand => 0x5A9D_D11E,
        BlockType::Dirt => 0xD147_FACE,
        BlockType::Coral => 0xC0EA_7555,
        BlockType::Kelp => 0x8E19_F0E0,
    }
}

/// The 24 low bits of the texture-noise hash of texel `(x, y)` of `block`'s
/// tile. The noise value is this divided by `0x00FF_FFFF`.
pub open spec fn texel_hash_spec(block: BlockType, x: u32, y: u32) -> u32 {
    let seed = block_seed_spec(block);
    let h0 = wrapping_add(wrapping_add(seed, wrapping_mul(x, 0x9E37_79B9)), wrapping_mul(y, 0x85EB_CA6B));
    let h1 = h0 ^ (h0 >> 13u32);
    let h2 = wrapping_mul(h1, 0xC2B2_AE35);
    let h3 = h2 ^ (h2 >> 16u32);
    h3 & 0x00FF_FFFF
}

/// Deterministic texture-noise hash of texel `(x, y)`, seeded off the
/// block type so every tile has its own grain; in `0..=0x00FF_FFFF`.
pub fn texel_hash(block: BlockType, x: u32, y: u32) -> (h: u32)
    ensures
        h == texel_hash_spec(block, x, y),
        h <= 0x00FF_FFFF,
{
    let seed = block_seed(block);
    let mut h = seed.wrapping_add(x.wrapping_mul(0x9E37_79B9)).wrapping_add(y.wrapping_mul(0x85EB_CA6B));
    h = h ^ (h >> 13);
    h = h.wrapping_mul(0xC2B2_AE35);
    h = h ^ (h >> 16);
    let r = h & 0x00FF_FFFF;
    assert(r <= 0x00FF_FFFF) by (bit_vector)
        requires r == h & 0x00FF_FFFF;
    r
}

/// Write one tile of the atlas: texel `(px, py)` of `block`'s tile gets the
/// colour `rgb[py * TILE_SIZE + px]`, fully opaque. Every other byte of the
/// buffer is left as it was.
pub fn paint_tile(pixels: &mut Vec<u8>, block: BlockType, rgb: &Vec<(u8, u8, u8)>)
    requires
        old(pixels)@.len() == ATLAS_BYTES,
        rgb@.len() == TILE_SIZE * TILE_SIZE,
    ensures
        final(pixels)@.len() == ATLAS_BYTES,
        forall|x: int, y: int, c: int|
            #![trigger final(pixels)@[atlas_byte(x, y, c)]]
            0 <= x < 128 && 0 <= y < 128 && 0 <= c < 4 ==> final(pixels)@[atlas_byte(x, y, c)] == if in_tile(
                tile_spec(block),
                x,
                y,
            ) {
                channel(rgb@[(y - tile_spec(block).y * 32) * 32 + (x - tile_spec(block).x * 32)], c)
            } else {
                old(pixels)@[atlas_byte(x, y, c)]
            },
{
    let tile = tile_of(block);
    let ghost before = pixels@;
    let ghost ox = tile.x * 32;
    let ghost oy = tile.y * 32;
    let mut py: u32 = 0;
    while py < TILE_SIZE
        invariant
            pixels@.len() == ATLAS_BYTES,
            rgb@.len() == 1024,
            tile == tile_spec(block),
            tile.x < 4 && tile.y < 4,
            ox == tile.x * 32,
            oy == tile.y * 32,
            py <= 32,
            forall|x: int, y: int, c: int|
                #![trigger pixels@[atlas_byte(x, y, c)]]
                0 <= x < 128 && 0 <= y < 128 && 0 <= c < 4 ==> pixels@[atlas_byte(x, y, c)] == if in_tile(tile, x, y)
                    && y < oy + py {
                    channel(rgb@[(y - oy) * 32 + (x - ox)], c)
                } else {
                    before[atlas_byte(x, y, c)]
                },
        decreases 32 - py,
    {
        let mut px: u32 = 0;
        while px < TILE_SIZE
            invariant
                pixels@.len() == ATLAS_BYTES,
                rgb@.len() == 1024,
                tile == tile_spec(block),
                tile.x < 4 && tile.y < 4,
                ox == tile.x * 32,
                oy == tile.y * 32,
                py < 32,
                px <= 32,
                forall|x: int, y: int, c: int|
                    #![trigger pixels@[atlas_byte(x, y, c)]]
                    0 <= x < 128 && 0 <= y < 128 && 0 <= c < 4 ==> pixels@[atlas_byte(x, y, c)] == if in_tile(tile, x, y)
                        && (y < oy + py || (y == oy + py && x < ox + px)) {
                        channel(rgb@[(y - oy) * 32 + (x - ox)], c)
                    } else {
                        before[atlas_byte(x, y, c)]
                    },
            decreases 32 - px,
        {
            let color = rgb[(py * TILE_SIZE + px) as usize];
            let x = tile.x * TILE_SIZE + px;
            let y = tile.y * TILE_SIZE + py;
            let i = ((y * ATLAS_SIZE + x) * 4) as usize;
            let ghost prev = pixels@;
            assert(i == atlas_byte(x as int, y as int, 0));
            pixels.set(i, color.0);
            pixels.set(i + 1, color.1);
            pixels.set(i + 2, color.2);
            pixels.set(i + 3, 255);
            assert forall|xx: int, yy: int, c: int|
                #![trigger pixels@[atlas_byte(xx, yy, c)]]
                0 <= xx < 128 && 0 <= yy < 128 && 0 <= c < 4 implies pixels@[atlas_byte(xx, yy, c)] == if in_tile(tile, xx, yy)
                    && (yy < oy + py || (yy == oy + py && xx < ox + px + 1)) {
                    channel(rgb@[(yy - oy) * 32 + (xx - ox)], c)
                } else {
                    before[atlas_byte(xx, yy, c)]
                } by {
                if xx == x && yy == y {
                    assert(atlas_byte(xx, yy, c) == i + c);
                } else {
                    assert(prev[atlas_byte(xx, yy, c)] == pixels@[atlas_byte(xx, yy, c)]);
                }
            }
            px = px + 1;
        }
        py = py + 1;
    }
}

} // verus!
