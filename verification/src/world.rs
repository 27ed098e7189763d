//! Chunk streaming decisions: which chunks to load around the camera and
//! which to drop.
//!
//! Every chunk whose horizontal Chebyshev distance to the camera's chunk is
//! at most `horizontal_radius` (in every vertical slab) should be loaded;
//! loaded chunks further than `horizontal_radius + despawn_hysteresis` are
//! dropped. Work is capped per frame, closest chunks spawning first and
//! furthest chunks dropping first.

use vstd::prelude::*;

use crate::chunk_map::{ChunkMap, split_axis};
use crate::coords::IVec3;
use crate::seq_facts::lemma_filter_none;

verus! {

/// Vertical extent of the world, in chunks.
pub const VERTICAL_CHUNKS: i32 = 2;

/// Seed used by the world generator.
pub const WORLD_SEED: u32 = 0xAFE1_0E6A_u32;

/// Tunables for the on-demand chunk streamer.
#[derive(Clone, Copy, Debug)]
pub struct StreamingConfig {
    /// Load every chunk whose horizontal chunk distance to the camera is at
    /// most this (Chebyshev distance: the chunks form a square ring).
    pub horizontal_radius: i32,
    /// Extra distance band inside which an already-loaded chunk is kept.
    pub despawn_hysteresis: i32,
    /// Cap on chunks generated and spawned per frame.
    pub max_spawns_per_frame: usize,
    /// Cap on chunks despawned per frame.
    pub max_despawns_per_frame: usize,
}

impl Default for StreamingConfig {
    fn default() -> (c: Self)
        ensures
            c.horizontal_radius == 6,
            c.despawn_hysteresis == 1,
            c.max_spawns_per_frame == 4,
            c.max_despawns_per_frame == 8,
    {
        StreamingConfig {
            horizontal_radius: 6,
            despawn_hysteresis: 1,
            max_spawns_per_frame: 4,
            max_despawns_per_frame: 8,
        }
    }
}

/// `v` clamped into `[lo, hi]`.
pub open spec fn clamp_int(v: int, lo: int, hi: int) -> int {
    if v < lo {
        lo
    } else if v > hi {
        hi
    } else {
        v
    }
}

/// Chunk coordinate of the camera whose block cell is `cell` (the floor of
/// its world position). Y is snapped into `0..VERTICAL_CHUNKS`, so a camera
/// above the water or below the world still streams the top or bottom slab.
pub fn camera_chunk_center(cell: IVec3) -> (r: IVec3)
    ensures
        r.x == cell.x as int / 16,
        r.y == clamp_int(cell.y as int / 16, 0, VERTICAL_CHUNKS - 1),
        r.z == cell.z as int / 16,
{
    let (cx, _) = split_axis(cell.x);
    let (cy, _) = split_axis(cell.y);
    let (cz, _) = split_axis(cell.z);
    let y = if cy < 0 {
        0
    } else if cy > VERTICAL_CHUNKS - 1 {
        VERTICAL_CHUNKS - 1
    } else {
        cy
    };
    IVec3 { x: cx, y, z: cz }
}

/// `|v|`.
pub open spec fn abs_int(v: int) -> int {
    if v < 0 {
        -v
    } else {
        v
    }
}

/// Chebyshev distance between two chunk coordinates projected onto XZ.
pub open spec fn cheb(a: IVec3, b: IVec3) -> int {
    let dx = abs_int(a.x - b.x);
    let dz = abs_int(a.z - b.z);
    if dx >= dz {
        dx
    } else {
        dz
    }
}

/// The two coordinate differences and their magnitudes fit in an `i32`.
pub open spec fn cheb_fits(a: IVec3, b: IVec3) -> bool {
    &&& i32::MIN < a.x - b.x <= i32::MAX
    &&& i32::MIN < a.z - b.z <= i32::MAX
}

/// Chebyshev distance between two chunk coords projected onto the XZ
/// plane. Y is ignored because the world only has a few vertical slabs.
pub fn chebyshev_xz(a: IVec3, b: IVec3) -> (r: i32)
    requires
        cheb_fits(a, b),
    ensures
        r == cheb(a, b),
{
    let dx = a.x - b.x;
    let dz = a.z - b.z;
    let ax = if dx < 0 { -dx } else { dx };
    let az = if dz < 0 { -dz } else { dz };
    if ax >= az {
        ax
    } else {
        az
    }
}

/// Number of chunk coordinates within `radius` of a center.
pub open spec fn ring_len(radius: int) -> int {
    if radius < 0 {
        0
    } else {
        (2 * radius + 1) * (2 * radius + 1) * VERTICAL_CHUNKS
    }
}

/// The `i`-th chunk of the ring around `center`: the ring is listed by
/// x offset, then z offset (both from `-radius` to `radius`), then slab.
pub open spec fn ring_cell(center: IVec3, radius: int, i: int) -> IVec3 {
    let w = 2 * radius + 1;
    let h = VERTICAL_CHUNKS as int;
    IVec3 {
        x: (center.x + i / (h * w) - radius) as i32,
        y: (i % h) as i32,
        z: (center.z + (i / h) % w - radius) as i32,
    }
}

/// The ring of chunks within `radius` of `center`, in listing order.
pub open spec fn ring(center: IVec3, radius: int) -> Seq<IVec3> {
    Seq::new(ring_len(radius) as nat, |i: int| ring_cell(center, radius, i))
}

/// Whether `p` is a chunk within `radius` (Chebyshev, horizontal) of
/// `center` in the valid vertical range.
pub open spec fn in_ring(center: IVec3, radius: int, p: IVec3) -> bool {
    &&& center.x - radius <= p.x <= center.x + radius
    &&& center.z - radius <= p.z <= center.z + radius
    &&& 0 <= p.y < VERTICAL_CHUNKS
}

/// `chunks_in_radius` does not overflow for this center and radius.
pub open spec fn ring_fits(center: IVec3, radius: int) -> bool {
    &&& i32::MIN <= 2 * radius + 1
    &&& (2 * radius + 1) * (2 * radius + 1) * VERTICAL_CHUNKS <= i32::MAX
    &&& radius >= 0 ==> {
        &&& i32::MIN <= center.x - radius
        &&& center.x + radius <= i32::MAX
        &&& i32::MIN <= center.z - radius
        &&& center.z + radius <= i32::MAX
    }
}

/// All chunk coords within `radius` (inclusive, Chebyshev) of `center`
/// and within the valid vertical range.
pub fn chunks_in_radius(center: IVec3, radius: i32) -> (out: Vec<IVec3>)
    requires
        ring_fits(center, radius as int),
    ensures
        out@ == ring(center, radius as int),
        forall|i: int| 0 <= i < out@.len() ==> in_ring(center, radius as int, #[trigger] out@[i]),
{
    let ghost w: int = 2 * radius + 1;
    let mut out: Vec<IVec3> = Vec::new();
    if radius < 0 {
        assert(out@ =~= ring(center, radius as int));
        return out;
    }
    assert(w <= 0x10000) by (nonlinear_arith)
        requires w * w * VERTICAL_CHUNKS <= i32::MAX, w >= 1;
    assert(out@.len() == 0 * w * VERTICAL_CHUNKS);
    let mut dx: i32 = -radius;
    while dx <= radius
        invariant
            0 <= radius,
            w == 2 * radius + 1,
            w <= 0x10000,
            ring_fits(center, radius as int),
            -radius <= dx <= radius + 1,
            out@.len() == (dx + radius) * w * VERTICAL_CHUNKS,
            forall|i: int| 0 <= i < out@.len() ==> #[trigger] out@[i] == ring_cell(center, radius as int, i),
            forall|i: int| 0 <= i < out@.len() ==> in_ring(center, radius as int, #[trigger] out@[i]),
        decreases radius + 1 - dx,
    {
        let mut dz: i32 = -radius;
        while dz <= radius
            invariant
                0 <= radius,
                w == 2 * radius + 1,
                w <= 0x10000,
                ring_fits(center, radius as int),
                -radius <= dx <= radius,
                -radius <= dz <= radius + 1,
                out@.len() == (dx + radius) * w * VERTICAL_CHUNKS + (dz + radius) * VERTICAL_CHUNKS,
                forall|i: int| 0 <= i < out@.len() ==> #[trigger] out@[i] == ring_cell(center, radius as int, i),
                forall|i: int| 0 <= i < out@.len() ==> in_ring(center, radius as int, #[trigger] out@[i]),
            decreases radius + 1 - dz,
        {
            let mut cy: i32 = 0;
            while cy < VERTICAL_CHUNKS
                invariant
                    0 <= radius,
                    w == 2 * radius + 1,
                    w <= 0x10000,
                    ring_fits(center, radius as int),
                    -radius <= dx <= radius,
                    -radius <= dz <= radius,
                    0 <= cy <= VERTICAL_CHUNKS,
                    out@.len() == (dx + radius) * w * VERTICAL_CHUNKS + (dz + radius) * VERTICAL_CHUNKS + cy,
                    forall|i: int| 0 <= i < out@.len() ==> #[trigger] out@[i] == ring_cell(center, radius as int, i),
                    forall|i: int| 0 <= i < out@.len() ==> in_ring(center, radius as int, #[trigger] out@[i]),
                decreases VERTICAL_CHUNKS - cy,
            {
                proof {
                    let i = out@.len() as int;
                    let a = dx + radius;
                    let b = dz + radius;
                    let h = VERTICAL_CHUNKS as int;
                    assert(i == a * (h * w) + (b * h + cy)) by (nonlinear_arith)
                        requires i == a * w * h + b * h + cy;
                    assert(i == (a * w + b) * h + cy) by (nonlinear_arith)
                        requires i == a * w * h + b * h + cy;
                    assert(0 <= b * h + cy < h * w) by (nonlinear_arith)
                        requires 0 <= b < w, 0 <= cy < h, h == 2;
                    vstd::arithmetic::div_mod::lemma_fundamental_div_mod_converse(i, VERTICAL_CHUNKS as int * w, a, b * VERTICAL_CHUNKS + cy);
                    vstd::arithmetic::div_mod::lemma_fundamental_div_mod_converse(i, VERTICAL_CHUNKS as int, a * w + b, cy as int);
                    vstd::arithmetic::div_mod::lemma_fundamental_div_mod_converse(a * w + b, w, a, b);
                }
                out.push(IVec3 { x: center.x + dx, y: cy, z: center.z + dz });
                cy = cy + 1;
            }
            assert(out@.len() == (dx + radius) * w * VERTICAL_CHUNKS + (dz + 1 + radius) * VERTICAL_CHUNKS);
            dz = dz + 1;
        }
        assert(out@.len() == (dx + 1 + radius) * w * VERTICAL_CHUNKS) by (nonlinear_arith)
            requires out@.len() == (dx + radius) * w * VERTICAL_CHUNKS + (dz + radius) * VERTICAL_CHUNKS, dz == radius + 1, w == 2 * radius + 1;
        dx = dx + 1;
    }
    assert(out@.len() == ring_len(radius as int)) by (nonlinear_arith)
        requires out@.len() == (dx + radius) * w * VERTICAL_CHUNKS, dx == radius + 1, w == 2 * radius + 1, radius >= 0;
    assert(out@ =~= ring(center, radius as int));
    out
}

/// Whether chunk `p` is not recorded in `loaded`.
pub open spec fn not_loaded(loaded: Map<IVec3, u64>) -> spec_fn(IVec3) -> bool {
    |p: IVec3| !loaded.contains_key(p)
}

/// The chunks of the ring around `center` that are not loaded, in ring order.
pub open spec fn missing_spec(center: IVec3, radius: int, loaded: Map<IVec3, u64>) -> Seq<IVec3> {
    ring(center, radius).filter(not_loaded(loaded))
}

/// Chunks within `radius` of `center` that `chunk_map` does not hold yet,
/// in the order of [`chunks_in_radius`].
pub fn missing_chunks_in_radius(center: IVec3, radius: i32, chunk_map: &ChunkMap) -> (out: Vec<IVec3>)
    requires
        ring_fits(center, radius as int),
    ensures
        out@ == missing_spec(center, radius as int, chunk_map.view()),
        forall|i: int| 0 <= i < out@.len() ==> in_ring(center, radius as int, #[trigger] out@[i]),
{
    let all = chunks_in_radius(center, radius);
    let mut out: Vec<IVec3> = Vec::new();
    let mut i: usize = 0;
    while i < all.len()
        invariant
            i <= all@.len(),
            out@ == all@.take(i as int).filter(not_loaded(chunk_map.view())),
            forall|k: int| 0 <= k < all@.len() ==> in_ring(center, radius as int, #[trigger] all@[k]),
            forall|k: int| 0 <= k < out@.len() ==> in_ring(center, radius as int, #[trigger] out@[k]),
        decreases all@.len() - i,
    {
        let c = all[i];
        proof {
            assert(all@.take(i + 1) =~= all@.take(i as int).push(c));
            all@.take(i as int).lemma_filter_push(c, not_loaded(chunk_map.view()));
        }
        if !chunk_map.contains(c) {
            out.push(c);
        }
        i = i + 1;
    }
    assert(all@.take(all@.len() as int) =~= all@);
    out
}

/// Whether `p` is loaded in `loaded` and further than `radius` from `center`.
pub open spec fn loaded_outside(loaded: Map<IVec3, u64>, center: IVec3, radius: int, p: IVec3) -> bool {
    loaded.contains_key(p) && cheb(p, center) > radius
}

/// Every loaded chunk is close enough to `center` for its distance to be
/// computed without overflow.
pub open spec fn loaded_fit(loaded: Map<IVec3, u64>, center: IVec3) -> bool {
    forall|p: IVec3| #[trigger] loaded.contains_key(p) ==> cheb_fits(p, center)
}

/// Whether `p` is the position of one of the first `i` entries.
spec fn seen_before(entries: Seq<(IVec3, u64)>, i: int, p: IVec3) -> bool {
    exists|l: int| 0 <= l < i && #[trigger] entries[l].0 == p
}

/// Loaded chunks further than `radius` from `center`, each once, in the
/// map's own order.
pub fn loaded_chunks_outside_radius(chunk_map: &ChunkMap, center: IVec3, radius: i32) -> (out: Vec<IVec3>)
    requires
        loaded_fit(chunk_map.view(), center),
    ensures
        forall|i: int| 0 <= i < out@.len() ==> loaded_outside(chunk_map.view(), center, radius as int, #[trigger] out@[i]),
        forall|p: IVec3| #[trigger] loaded_outside(chunk_map.view(), center, radius as int, p) ==> out@.contains(p),
        out@.no_duplicates(),
{
    let entries = chunk_map.iter();
    let mut out: Vec<IVec3> = Vec::new();
    let mut i: usize = 0;
    while i < entries.len()
        invariant
            i <= entries@.len(),
            loaded_fit(chunk_map.view(), center),
            forall|k: int| 0 <= k < entries@.len() ==> #[trigger] chunk_map.view().contains_key(entries@[k].0),
            forall|k: int, l: int| 0 <= k < l < entries@.len() ==> entries@[k].0 != entries@[l].0,
            forall|k: int| 0 <= k < out@.len() ==> loaded_outside(chunk_map.view(), center, radius as int, #[trigger] out@[k]),
            forall|k: int| 0 <= k < out@.len() ==> seen_before(entries@, i as int, #[trigger] out@[k]),
            forall|l: int| 0 <= l < i && loaded_outside(chunk_map.view(), center, radius as int, #[trigger] entries@[l].0) ==> out@.contains(entries@[l].0),
            out@.no_duplicates(),
        decreases entries@.len() - i,
    {
        let pos = entries[i].0;
        assert(chunk_map.view().contains_key(pos));
        assert(cheb_fits(pos, center));
        if chebyshev_xz(pos, center) > radius {
            proof {
                assert forall|k: int| 0 <= k < out@.len() implies out@[k] != pos by {
                    assert(seen_before(entries@, i as int, out@[k]));
                    let l = choose|l: int| 0 <= l < i && #[trigger] entries@[l].0 == out@[k];
                }
            }
            let ghost prev_out = out@;
            out.push(pos);
            proof {
                assert forall|k: int| 0 <= k < out@.len() implies seen_before(entries@, i + 1, #[trigger] out@[k]) by {
                    if k < out@.len() - 1 {
                        assert(seen_before(entries@, i as int, out@[k]));
                        let l = choose|l: int| 0 <= l < i && #[trigger] entries@[l].0 == out@[k];
                        assert(entries@[l].0 == out@[k]);
                    } else {
                        assert(entries@[i as int].0 == out@[k]);
                    }
                }
                assert forall|l: int| 0 <= l < i + 1 && loaded_outside(chunk_map.view(), center, radius as int, #[trigger] entries@[l].0) implies out@.contains(entries@[l].0) by {
                    if l < i {
                        assert(prev_out.contains(entries@[l].0));
                        let k = choose|k: int| 0 <= k < prev_out.len() && prev_out[k] == entries@[l].0;
                        assert(out@[k] == entries@[l].0);
                    } else {
                        assert(out@[out@.len() - 1] == entries@[l].0);
                    }
                }
            }
        }
        i = i + 1;
    }
    proof {
        assert forall|p: IVec3| #[trigger] loaded_outside(chunk_map.view(), center, radius as int, p) implies out@.contains(p) by {
            let l = choose|l: int| 0 <= l < entries@.len() && entries@[l].0 == p;
            assert(loaded_outside(chunk_map.view(), center, radius as int, entries@[l].0));
        }
    }
    out
}

/// Whether `s` is in nondecreasing order of `key`.
pub open spec fn sorted_by(s: Seq<IVec3>, key: spec_fn(IVec3) -> int) -> bool {
    forall|i: int, j: int| 0 <= i < j < s.len() ==> key(#[trigger] s[i]) <= key(#[trigger] s[j])
}

/// Whether a chunk's key is `d`.
pub open spec fn has_key(key: spec_fn(IVec3) -> int, d: int) -> spec_fn(IVec3) -> bool {
    |c: IVec3| key(c) == d
}

/// `sorted` is the stable sort of `orig` by `key`: in key order, and the
/// chunks sharing any one key keep their relative order from the input.
pub open spec fn stable_sort_of(sorted: Seq<IVec3>, orig: Seq<IVec3>, key: spec_fn(IVec3) -> int) -> bool {
    &&& sorted_by(sorted, key)
    &&& forall|d: int| #[trigger] sorted.filter(has_key(key, d)) == orig.filter(has_key(key, d))
}

/// Whether some position `t < n` of `perm` holds `s`.
spec fn perm_hits(perm: Seq<int>, n: int, s: int) -> bool {
    exists|t: int| 0 <= t < n && #[trigger] perm[t] == s
}

/// Stable insertion sort of `items` by the precomputed `keys`.
fn stable_sort_keyed(items: &Vec<IVec3>, keys: &Vec<i32>, Ghost(key): Ghost<spec_fn(IVec3) -> int>) -> (r: Vec<IVec3>)
    requires
        items@.len() == keys@.len(),
        forall|i: int| 0 <= i < items@.len() ==> keys@[i] == key(#[trigger] items@[i]),
    ensures
        stable_sort_of(r@, items@, key),
        r@.len() == items@.len(),
        forall|s: int| 0 <= s < items@.len() ==> r@.contains(#[trigger] items@[s]),
        forall|t: int| 0 <= t < r@.len() ==> items@.contains(#[trigger] r@[t]),
        items@.no_duplicates() ==> r@.no_duplicates(),
{
    let mut out: Vec<IVec3> = Vec::new();
    let mut out_keys: Vec<i32> = Vec::new();
    let mut i: usize = 0;
    let ghost mut perm: Seq<int> = Seq::empty();
    proof {
        reveal(Seq::filter);
        assert(items@.take(0) =~= out@);
    }
    while i < items.len()
        invariant
            i <= items@.len(),
            items@.len() == keys@.len(),
            forall|t: int| 0 <= t < items@.len() ==> keys@[t] == key(#[trigger] items@[t]),
            out@.len() == out_keys@.len(),
            out@.len() == i,
            forall|t: int| 0 <= t < out@.len() ==> out_keys@[t] == key(#[trigger] out@[t]),
            stable_sort_of(out@, items@.take(i as int), key),
            perm.len() == i,
            forall|t: int| 0 <= t < i ==> 0 <= #[trigger] perm[t] < i && out@[t] == items@[perm[t]],
            forall|t1: int, t2: int| 0 <= t1 < t2 < i ==> #[trigger] perm[t1] != #[trigger] perm[t2],
            forall|s: int| 0 <= s < i ==> #[trigger] perm_hits(perm, i as int, s),
        decreases items@.len() - i,
    {
        let x = items[i];
        let k = keys[i];
        let mut j: usize = 0;
        while j < out.len() && out_keys[j] <= k
            invariant
                j <= out@.len(),
                out@.len() == out_keys@.len(),
                forall|t: int| 0 <= t < j ==> out_keys@[t] <= k,
            decreases out@.len() - j,
        {
            j = j + 1;
        }
        let ghost before = out@;
        let ghost src = items@.take(i as int);
        proof {
            assert forall|t: int| j <= t < before.len() implies key(#[trigger] before[t]) > k by {
                assert(out_keys@[j as int] == key(before[j as int]));
                assert(key(before[j as int]) > k);
                if t > j {
                    assert(key(before[j as int]) <= key(before[t]));
                }
            }
        }
        out.insert(j, x);
        out_keys.insert(j, k);
        proof {
            let old_perm = perm;
            perm = old_perm.take(j as int) + seq![i as int] + old_perm.skip(j as int);
            assert forall|t: int| 0 <= t < i + 1 implies 0 <= #[trigger] perm[t] < i + 1 && out@[t] == items@[perm[t]] by {
                if t < j {
                    assert(perm[t] == old_perm[t]);
                } else if t > j {
                    assert(perm[t] == old_perm[t - 1]);
                }
            }
            assert forall|t1: int, t2: int| 0 <= t1 < t2 < i + 1 implies #[trigger] perm[t1] != #[trigger] perm[t2] by {
                let o1 = if t1 < j { t1 } else { t1 - 1 };
                let o2 = if t2 < j { t2 } else { t2 - 1 };
                if t1 != j && t2 != j {
                    assert(perm[t1] == old_perm[o1] && perm[t2] == old_perm[o2]);
                } else if t1 == j {
                    assert(perm[t2] == old_perm[o2]);
                } else {
                    assert(perm[t1] == old_perm[o1]);
                }
            }
            assert forall|s2: int| 0 <= s2 < i + 1 implies #[trigger] perm_hits(perm, i + 1, s2) by {
                if s2 == i {
                    assert(perm[j as int] == s2);
                } else {
                    assert(perm_hits(old_perm, i as int, s2));
                    let t = choose|t: int| 0 <= t < i && #[trigger] old_perm[t] == s2;
                    if t < j {
                        assert(perm[t] == s2);
                    } else {
                        assert(perm[t + 1] == s2);
                    }
                }
            }
            let after = out@;
            let lo = before.take(j as int);
            let hi = before.skip(j as int);
            assert(after =~= lo + seq![x] + hi);
            assert(before =~= lo + hi);
            assert(items@.take(i + 1) =~= src.push(x));
            assert forall|d: int| #[trigger] after.filter(has_key(key, d)) == items@.take(i + 1).filter(has_key(key, d)) by {
                let p = has_key(key, d);
                Seq::filter_distributes_over_add(lo + seq![x], hi, p);
                Seq::filter_distributes_over_add(lo, seq![x], p);
                Seq::filter_distributes_over_add(lo, hi, p);
                src.lemma_filter_push(x, p);
                assert(src.filter(p) == before.filter(p));
                assert(Seq::<IVec3>::empty().push(x) =~= seq![x]);
                Seq::<IVec3>::empty().lemma_filter_push(x, p);
                assert(Seq::<IVec3>::empty().filter(p) =~= Seq::<IVec3>::empty()) by {
                    reveal(Seq::filter);
                }
                if key(x) == d {
                    assert forall|t: int| 0 <= t < hi.len() implies !p(#[trigger] hi[t]) by {
                        assert(hi[t] == before[j + t]);
                    }
                    lemma_filter_none(hi, p);
                    assert(seq![x].filter(p) =~= seq![x]);
                    assert(after.filter(p) =~= lo.filter(p).push(x));
                    assert(before.filter(p) =~= lo.filter(p));
                } else {
                    assert(seq![x].filter(p) =~= Seq::<IVec3>::empty());
                    assert(after.filter(p) =~= before.filter(p));
                }
            }
            assert forall|a: int, b: int| 0 <= a < b < after.len() implies key(#[trigger] after[a]) <= key(#[trigger] after[b]) by {
                if a < j && b < j {
                    assert(after[a] == before[a] && after[b] == before[b]);
                } else if a < j && b == j {
                    assert(after[a] == before[a]);
                    assert(out_keys@[a] == key(before[a]));
                } else if a < j {
                    assert(after[a] == before[a] && after[b] == before[b - 1]);
                } else if a == j {
                    assert(after[b] == before[b - 1]);
                } else {
                    assert(after[a] == before[a - 1] && after[b] == before[b - 1]);
                }
            }
            assert forall|t: int| 0 <= t < out@.len() implies out_keys@[t] == key(#[trigger] out@[t]) by {
                if t < j {
                    assert(out@[t] == before[t]);
                } else if t > j {
                    assert(out@[t] == before[t - 1]);
                }
            }
        }
        i = i + 1;
    }
    assert(items@.take(items@.len() as int) =~= items@);
    proof {
        assert forall|s2: int| 0 <= s2 < items@.len() implies out@.contains(#[trigger] items@[s2]) by {
            assert(perm_hits(perm, i as int, s2));
            let t = choose|t: int| 0 <= t < i && #[trigger] perm[t] == s2;
            assert(out@[t] == items@[s2]);
        }
        assert forall|t: int| 0 <= t < out@.len() implies items@.contains(#[trigger] out@[t]) by {
            assert(out@[t] == items@[perm[t]]);
        }
        if items@.no_duplicates() {
            assert forall|t1: int, t2: int| 0 <= t1 < out@.len() && 0 <= t2 < out@.len() && t1 != t2 implies out@[t1] != out@[t2] by {
                if t1 < t2 {
                    assert(perm[t1] != perm[t2]);
                } else {
                    assert(perm[t2] != perm[t1]);
                }
            }
        }
    }
    out
}

/// Distance of a chunk to `center`, the key chunks are streamed in by.
pub open spec fn dist_key(center: IVec3) -> spec_fn(IVec3) -> int {
    |c: IVec3| cheb(c, center)
}

/// Negated distance to `center`: sorting by it puts the furthest first.
pub open spec fn far_key(center: IVec3) -> spec_fn(IVec3) -> int {
    |c: IVec3| -cheb(c, center)
}

/// Sort in place by ascending Chebyshev distance to `center` (stably), so
/// closer chunks get spawned first.
pub fn sort_by_distance_to(chunks: &mut Vec<IVec3>, center: IVec3)
    requires
        forall|i: int| 0 <= i < old(chunks)@.len() ==> cheb_fits(#[trigger] old(chunks)@[i], center),
    ensures
        stable_sort_of(final(chunks)@, old(chunks)@, dist_key(center)),
        final(chunks)@.len() == old(chunks)@.len(),
        forall|s: int| 0 <= s < old(chunks)@.len() ==> final(chunks)@.contains(#[trigger] old(chunks)@[s]),
        forall|t: int| 0 <= t < final(chunks)@.len() ==> old(chunks)@.contains(#[trigger] final(chunks)@[t]),
{
    let mut keys: Vec<i32> = Vec::new();
    let mut i: usize = 0;
    while i < chunks.len()
        invariant
            i <= chunks@.len(),
            keys@.len() == i,
            forall|t: int| 0 <= t < chunks@.len() ==> cheb_fits(#[trigger] chunks@[t], center),
            forall|t: int| 0 <= t < i ==> keys@[t] == (dist_key(center))(#[trigger] chunks@[t]),
        decreases chunks@.len() - i,
    {
        keys.push(chebyshev_xz(chunks[i], center));
        i = i + 1;
    }
    let sorted = stable_sort_keyed(chunks, &keys, Ghost(dist_key(center)));
    *chunks = sorted;
}

/// Every chunk within `radius` of `center` in the valid vertical range is
/// listed by [`chunks_in_radius`].
pub proof fn lemma_ring_contains(center: IVec3, radius: int, p: IVec3)
    requires
        ring_fits(center, radius),
        in_ring(center, radius, p),
    ensures
        ring(center, radius).contains(p),
{
    let w = 2 * radius + 1;
    let h = VERTICAL_CHUNKS as int;
    let a = p.x - center.x + radius;
    let b = p.z - center.z + radius;
    let c = p.y as int;
    let i = a * (h * w) + (b * h + c);
    assert(0 <= b * h + c < h * w) by (nonlinear_arith)
        requires 0 <= b < w, 0 <= c < h, h == 2;
    assert(i == (a * w + b) * h + c) by (nonlinear_arith)
        requires i == a * (h * w) + (b * h + c);
    assert(0 <= i < w * w * h) by (nonlinear_arith)
        requires i == a * (h * w) + (b * h + c), 0 <= a < w, 0 <= b * h + c < h * w;
    vstd::arithmetic::div_mod::lemma_fundamental_div_mod_converse(i, h * w, a, b * h + c);
    vstd::arithmetic::div_mod::lemma_fundamental_div_mod_converse(i, h, a * w + b, c);
    vstd::arithmetic::div_mod::lemma_fundamental_div_mod_converse(a * w + b, w, a, b);
    assert(ring(center, radius)[i] == p);
}

/// The chunks to generate and spawn this frame: the not-yet-loaded chunks
/// within `horizontal_radius` of `center`, closest first (ties in listing
/// order), at most `max_spawns_per_frame` of them.
pub fn chunks_to_spawn(center: IVec3, config: &StreamingConfig, chunk_map: &ChunkMap) -> (out: Vec<IVec3>)
    requires
        ring_fits(center, config.horizontal_radius as int),
    ensures
        out@.len() <= config.max_spawns_per_frame,
        forall|i: int|
            0 <= i < out@.len() ==> in_ring(center, config.horizontal_radius as int, #[trigger] out@[i])
                && !chunk_map.view().contains_key(out@[i]),
        exists|sorted: Seq<IVec3>|
            stable_sort_of(sorted, missing_spec(center, config.horizontal_radius as int, chunk_map.view()), dist_key(center))
            && #[trigger] sorted.len() == missing_spec(center, config.horizontal_radius as int, chunk_map.view()).len()
            && out@ == sorted.take(
                if config.max_spawns_per_frame < sorted.len() {
                    config.max_spawns_per_frame as int
                } else {
                    sorted.len() as int
                },
            ),
{
    let mut to_spawn = missing_chunks_in_radius(center, config.horizontal_radius, chunk_map);
    let ghost missing = to_spawn@;
    proof {
        assert forall|i: int| 0 <= i < missing.len() implies cheb_fits(#[trigger] missing[i], center) by {
            assert(in_ring(center, config.horizontal_radius as int, missing[i]));
        }
    }
    sort_by_distance_to(&mut to_spawn, center);
    let n = if config.max_spawns_per_frame < to_spawn.len() {
        config.max_spawns_per_frame
    } else {
        to_spawn.len()
    };
    let mut out: Vec<IVec3> = Vec::new();
    let mut i: usize = 0;
    while i < n
        invariant
            i <= n <= to_spawn@.len(),
            out@ == to_spawn@.take(i as int),
        decreases n - i,
    {
        out.push(to_spawn[i]);
        proof {
            assert(to_spawn@.take(i + 1) =~= to_spawn@.take(i as int).push(to_spawn@[i as int]));
        }
        i = i + 1;
    }
    assert(to_spawn@.len() == missing.len());
    proof {
        assert forall|k: int| 0 <= k < out@.len() implies in_ring(center, config.horizontal_radius as int, #[trigger] out@[k])
            && !chunk_map.view().contains_key(out@[k]) by {
            assert(out@[k] == to_spawn@[k]);
            assert(missing.contains(to_spawn@[k]));
            let s2 = choose|s2: int| 0 <= s2 < missing.len() && missing[s2] == to_spawn@[k];
            assert(in_ring(center, config.horizontal_radius as int, missing[s2]));
            ring(center, config.horizontal_radius as int).lemma_filter_pred(not_loaded(chunk_map.view()), s2);
        }
    }
    out
}

/// The chunks to despawn this frame: loaded chunks further than
/// `horizontal_radius + despawn_hysteresis` from `center`, furthest first,
/// at most `max_despawns_per_frame` of them. Among chunks at equal distance
/// the choice follows the map's own order.
pub fn chunks_to_despawn(center: IVec3, config: &StreamingConfig, chunk_map: &ChunkMap) -> (out: Vec<IVec3>)
    requires
        loaded_fit(chunk_map.view(), center),
        i32::MIN <= config.horizontal_radius + config.despawn_hysteresis <= i32::MAX,
    ensures
        ({
            let r = config.horizontal_radius + config.despawn_hysteresis;
            &&& out@.len() <= config.max_despawns_per_frame
            &&& out@.no_duplicates()
            &&& forall|i: int| 0 <= i < out@.len() ==> loaded_outside(chunk_map.view(), center, r, #[trigger] out@[i])
            &&& sorted_by(out@, far_key(center))
            &&& out@.len() < config.max_despawns_per_frame ==> forall|p: IVec3|
                #[trigger] loaded_outside(chunk_map.view(), center, r, p) ==> out@.contains(p)
            &&& forall|p: IVec3, i: int|
                #[trigger] loaded_outside(chunk_map.view(), center, r, p) && !out@.contains(p) && 0 <= i < out@.len()
                    ==> cheb(p, center) <= cheb(#[trigger] out@[i], center)
        }),
{
    let drop_radius = config.horizontal_radius + config.despawn_hysteresis;
    let outside = loaded_chunks_outside_radius(chunk_map, center, drop_radius);
    let mut keys: Vec<i32> = Vec::new();
    let mut i: usize = 0;
    while i < outside.len()
        invariant
            i <= outside@.len(),
            keys@.len() == i,
            loaded_fit(chunk_map.view(), center),
            forall|t: int| 0 <= t < outside@.len() ==> loaded_outside(chunk_map.view(), center, drop_radius as int, #[trigger] outside@[t]),
            forall|t: int| 0 <= t < i ==> keys@[t] == (far_key(center))(#[trigger] outside@[t]),
        decreases outside@.len() - i,
    {
        assert(chunk_map.view().contains_key(outside@[i as int]));
        let d = chebyshev_xz(outside[i], center);
        keys.push(-d);
        i = i + 1;
    }
    let sorted = stable_sort_keyed(&outside, &keys, Ghost(far_key(center)));
    let n = if config.max_despawns_per_frame < sorted.len() {
        config.max_despawns_per_frame
    } else {
        sorted.len()
    };
    let mut out: Vec<IVec3> = Vec::new();
    let mut i: usize = 0;
    while i < n
        invariant
            i <= n <= sorted@.len(),
            out@ == sorted@.take(i as int),
        decreases n - i,
    {
        out.push(sorted[i]);
        proof {
            assert(sorted@.take(i + 1) =~= sorted@.take(i as int).push(sorted@[i as int]));
        }
        i = i + 1;
    }
    proof {
        let r = drop_radius as int;
        let m = chunk_map.view();
        assert forall|t: int| 0 <= t < sorted@.len() implies loaded_outside(m, center, r, #[trigger] sorted@[t]) by {
            assert(outside@.contains(sorted@[t]));
        }
        assert forall|p: IVec3| #[trigger] loaded_outside(m, center, r, p) implies sorted@.contains(p) by {
            assert(outside@.contains(p));
            let s2 = choose|s2: int| 0 <= s2 < outside@.len() && outside@[s2] == p;
            assert(sorted@.contains(outside@[s2]));
        }
        assert forall|p: IVec3, k: int|
            #[trigger] loaded_outside(m, center, r, p) && !out@.contains(p) && 0 <= k < out@.len()
            implies cheb(p, center) <= cheb(#[trigger] out@[k], center) by {
            assert(sorted@.contains(p));
            let t = choose|t: int| 0 <= t < sorted@.len() && sorted@[t] == p;
            if t < n {
                assert(out@[t] == p);
            }
            assert(out@[k] == sorted@[k]);
            assert((far_key(center))(sorted@[k]) <= (far_key(center))(sorted@[t]));
        }
        assert forall|k1: int, k2: int| 0 <= k1 < out@.len() && 0 <= k2 < out@.len() && k1 != k2 implies out@[k1] != out@[k2] by {
            assert(out@[k1] == sorted@[k1] && out@[k2] == sorted@[k2]);
        }
        assert forall|k1: int, k2: int| 0 <= k1 < k2 < out@.len() implies (far_key(center))(#[trigger] out@[k1]) <= (far_key(center))(#[trigger] out@[k2]) by {
            assert(out@[k1] == sorted@[k1] && out@[k2] == sorted@[k2]);
        }
        if out@.len() < config.max_despawns_per_frame {
            assert(out@ =~= sorted@);
        }
    }
    out
}

/// A chunk inside the load ring is never picked for despawning while the
/// hysteresis is non-negative, so streaming does not thrash at the edge.
pub proof fn lemma_loaded_ring_is_kept(loaded: Map<IVec3, u64>, center: IVec3, config: StreamingConfig, p: IVec3)
    requires
        config.despawn_hysteresis >= 0,
        in_ring(center, config.horizontal_radius as int, p),
    ensures
        !loaded_outside(loaded, center, config.horizontal_radius + config.despawn_hysteresis, p),
{
}

} // verus!
