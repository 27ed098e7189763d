//! Integer hashing behind the world's value noise.
//!
//! The noise itself (interpolation, octave sums) is computed in floating
//! point by the application; the deterministic per-cell hash it starts
//! from is integer arithmetic and lives here.

use vstd::prelude::*;
use vstd::wrapping::u32_specs::{wrapping_add, wrapping_mul};

verus! {

/// The 24 low bits of the Wang-style hash of grid cell `(x, y)` mixed with
/// `seed`. The noise value of the cell is this divided by 2^24.
pub open spec fn hash2_spec(x: i32, y: i32, seed: u32) -> u32 {
    let h0 = wrapping_add(wrapping_add(seed, wrapping_mul(x as u32, 0x85EB_CA77)), wrapping_mul(y as u32, 0xC2B2_AE3D));
    let h1 = h0 ^ (h0 >> 13u32);
    let h2 = wrapping_mul(h1, 0x27D4_EB2F);
    let h3 = h2 ^ (h2 >> 16u32);
    h3 & 0x00FF_FFFF
}

/// Deterministic per-cell hash of `(x, y)` under `seed`, in `0..2^24`.
pub fn hash2_bits(x: i32, y: i32, seed: u32) -> (h: u32)
    ensures
        h == hash2_spec(x, y, seed),
        h < 0x0100_0000,
{
    let mut h = seed.wrapping_add((x as u32).wrapping_mul(0x85EB_CA77)).wrapping_add(
        (y as u32).wrapping_mul(0xC2B2_AE3D),
    );
    h = h ^ (h >> 13);
    h = h.wrapping_mul(0x27D4_EB2F);
    h = h ^ (h >> 16);
    let r = h & 0x00FF_FFFF;
    assert(r < 0x0100_0000) by (bit_vector)
        requires r == h & 0x00FF_FFFF;
    r
}

} // verus!
