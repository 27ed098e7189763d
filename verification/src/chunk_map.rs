//! Lookup from chunk grid coordinates to the entity holding that chunk, and
//! the split of world-block coordinates into chunk and local coordinates.

use std::collections::HashMap;

use vstd::prelude::*;
use vstd::std_specs::iter::IteratorSpec;

use crate::chunk::CHUNK_SIZE;
use crate::coords::{IVec3, UVec3};

verus! {

broadcast use vstd::std_specs::hash::group_hash_axioms;

/// Integer key of a chunk position: each coordinate, shifted to be
/// non-negative, occupies its own 32-bit field of a 96-bit number.
pub open spec fn chunk_key(p: IVec3) -> u128 {
    ((p.x as int + 0x8000_0000) * 0x1_0000_0000_0000_0000 + (p.y as int + 0x8000_0000) * 0x1_0000_0000
        + (p.z as int + 0x8000_0000)) as u128
}

/// Distinct chunk positions have distinct keys.
proof fn lemma_chunk_key_injective(p: IVec3, q: IVec3)
    requires
        chunk_key(p) == chunk_key(q),
    ensures
        p == q,
{
    let w: int = 0x1_0000_0000;
    let (a1, b1, c1) = (p.x as int + 0x8000_0000, p.y as int + 0x8000_0000, p.z as int + 0x8000_0000);
    let (a2, b2, c2) = (q.x as int + 0x8000_0000, q.y as int + 0x8000_0000, q.z as int + 0x8000_0000);
    let k1: int = (a1 * w + b1) * w + c1;
    let k2: int = (a2 * w + b2) * w + c2;
    assert(k1 == a1 * 0x1_0000_0000_0000_0000 + b1 * w + c1) by (nonlinear_arith)
        requires w == 0x1_0000_0000, k1 == (a1 * w + b1) * w + c1;
    assert(k2 == a2 * 0x1_0000_0000_0000_0000 + b2 * w + c2) by (nonlinear_arith)
        requires w == 0x1_0000_0000, k2 == (a2 * w + b2) * w + c2;
    assert(0 <= a1 * w + b1 && a1 * w + b1 < w * w) by (nonlinear_arith)
        requires 0 <= a1 < w, 0 <= b1 < w;
    assert(0 <= k1 < w * w * w) by (nonlinear_arith)
        requires 0 <= a1 * w + b1 < w * w, 0 <= c1 < w, k1 == (a1 * w + b1) * w + c1;
    assert(w * w * w == 0x1_0000_0000_0000_0000_0000_0000) by (nonlinear_arith)
        requires w == 0x1_0000_0000;
    assert(0 <= a2 * w + b2 && a2 * w + b2 < w * w) by (nonlinear_arith)
        requires 0 <= a2 < w, 0 <= b2 < w;
    assert(0 <= k2 < w * w * w) by (nonlinear_arith)
        requires 0 <= a2 * w + b2 < w * w, 0 <= c2 < w, k2 == (a2 * w + b2) * w + c2;
    assert(k1 == k2);
    vstd::arithmetic::div_mod::lemma_fundamental_div_mod_converse(k1, w, a1 * w + b1, c1);
    vstd::arithmetic::div_mod::lemma_fundamental_div_mod_converse(k2, w, a2 * w + b2, c2);
    vstd::arithmetic::div_mod::lemma_fundamental_div_mod_converse(a1 * w + b1, w, a1, b1);
    vstd::arithmetic::div_mod::lemma_fundamental_div_mod_converse(a2 * w + b2, w, a2, b2);
}

/// The key of a chunk position.
fn key_of(p: IVec3) -> (k: u128)
    ensures
        k == chunk_key(p),
{
    let a: u128 = (p.x as i64 + 0x8000_0000) as u128;
    let b: u128 = (p.y as i64 + 0x8000_0000) as u128;
    let c: u128 = (p.z as i64 + 0x8000_0000) as u128;
    assert(a * 0x1_0000_0000_0000_0000 + b * 0x1_0000_0000 + c < 0x1_0000_0000_0000_0000_0000_0000) by (nonlinear_arith)
        requires a < 0x1_0000_0000, b < 0x1_0000_0000, c < 0x1_0000_0000;
    a * 0x1_0000_0000_0000_0000 + b * 0x1_0000_0000 + c
}

/// Maps a chunk-grid coordinate (one unit per `CHUNK_SIZE` blocks) to the
/// entity id that owns that chunk's data and mesh.
pub struct ChunkMap {
    entities: HashMap<u128, (IVec3, u64)>,
}

impl Default for ChunkMap {
    fn default() -> (m: Self)
        ensures
            m.view() == Map::<IVec3, u64>::empty(),
    {
        ChunkMap::new()
    }
}

impl ChunkMap {
    /// Every entry is filed under its own position's key.
    #[verifier::type_invariant]
    spec fn keys_match(self) -> bool {
        forall|k: u128| #[trigger] self.entities@.contains_key(k) ==> chunk_key(self.entities@[k].0) == k
    }

    /// The chunks held, by position.
    pub closed spec fn view(self) -> Map<IVec3, u64> {
        Map::new(
            |p: IVec3| self.entities@.contains_key(chunk_key(p)),
            |p: IVec3| self.entities@[chunk_key(p)].1,
        )
    }

    /// An empty map.
    pub fn new() -> (m: ChunkMap)
        ensures
            m.view() == Map::<IVec3, u64>::empty(),
    {
        let m = ChunkMap { entities: HashMap::new() };
        assert(m.view() =~= Map::<IVec3, u64>::empty());
        m
    }

    /// Record `entity` as the holder of the chunk at `chunk_pos`.
    pub fn insert(&mut self, chunk_pos: IVec3, entity: u64)
        ensures
            final(self).view() == old(self).view().insert(chunk_pos, entity),
    {
        proof {
            use_type_invariant(&*self);
        }
        let k = key_of(chunk_pos);
        let ghost before = self.view();
        let mut entities: HashMap<u128, (IVec3, u64)> = HashMap::new();
        std::mem::swap(&mut entities, &mut self.entities);
        entities.insert(k, (chunk_pos, entity));
        self.entities = entities;
        proof {
            assert forall|p: IVec3| #[trigger] self.entities@.contains_key(chunk_key(p)) && p != chunk_pos implies chunk_key(p) != k by {
                if chunk_key(p) == k {
                    lemma_chunk_key_injective(p, chunk_pos);
                }
            }
            assert(self.view() =~= before.insert(chunk_pos, entity));
        }
    }

    /// The entity holding the chunk at `chunk_pos`, if any.
    pub fn get(&self, chunk_pos: IVec3) -> (r: Option<u64>)
        ensures
            r == if self.view().contains_key(chunk_pos) {
                Some(self.view()[chunk_pos])
            } else {
                None
            },
    {
        let k = key_of(chunk_pos);
        match self.entities.get(&k) {
            Some(entry) => Some(entry.1),
            None => None,
        }
    }

    /// Whether a chunk is recorded at `chunk_pos`.
    pub fn contains(&self, chunk_pos: IVec3) -> (r: bool)
        ensures
            r == self.view().contains_key(chunk_pos),
    {
        let k = key_of(chunk_pos);
        self.entities.contains_key(&k)
    }

    /// Forget the chunk at `chunk_pos`, returning its entity if there was one.
    pub fn remove(&mut self, chunk_pos: IVec3) -> (r: Option<u64>)
        ensures
            r == if old(self).view().contains_key(chunk_pos) {
                Some(old(self).view()[chunk_pos])
            } else {
                None
            },
            final(self).view() == old(self).view().remove(chunk_pos),
    {
        proof {
            use_type_invariant(&*self);
        }
        let k = key_of(chunk_pos);
        let ghost before = self.view();
        let mut entities: HashMap<u128, (IVec3, u64)> = HashMap::new();
        std::mem::swap(&mut entities, &mut self.entities);
        let removed = entities.remove(&k);
        self.entities = entities;
        let r = match removed {
            Some(entry) => Some(entry.1),
            None => None,
        };
        proof {
            assert forall|p: IVec3| p != chunk_pos implies chunk_key(p) != k by {
                if chunk_key(p) == k {
                    lemma_chunk_key_injective(p, chunk_pos);
                }
            }
            assert(self.view() =~= before.remove(chunk_pos));
        }
        r
    }

    /// Every recorded `(chunk_pos, entity)` pair, each position once, in
    /// the map's own (unspecified) order.
    pub fn iter(&self) -> (r: Vec<(IVec3, u64)>)
        ensures
            forall|i: int| 0 <= i < r@.len() ==> #[trigger] self.view().contains_key(r@[i].0) && self.view()[r@[i].0] == r@[i].1,
            forall|p: IVec3| #[trigger] self.view().contains_key(p) ==> exists|i: int| 0 <= i < r@.len() && r@[i].0 == p,
            forall|i: int, j: int| 0 <= i < j < r@.len() ==> r@[i].0 != r@[j].0,
    {
        proof {
            use_type_invariant(self);
        }
        let ghost pairs = vstd::std_specs::hash::spec_hash_map_iter(&self.entities).remaining();
        let mut out: Vec<(IVec3, u64)> = Vec::new();
        for entry in it: self.entities.iter()
            invariant
                it.seq() == pairs,
                pairs.no_duplicates(),
                out@.len() == it.index(),
                forall|i: int| 0 <= i < it.index() ==> #[trigger] out@[i] == *pairs[i].1,
        {
            out.push(*entry.1);
        }
        proof {
            let m = self.entities@;
            assert(out@.len() == pairs.len());
            assert(pairs.len() == m.dom().len());
            assert forall|i: int| 0 <= i < out@.len() implies #[trigger] self.view().contains_key(out@[i].0)
                && self.view()[out@[i].0] == out@[i].1 by {
                assert(m.contains_key(*pairs[i].0));
                assert(m[*pairs[i].0] == *pairs[i].1);
                assert(chunk_key(out@[i].0) == *pairs[i].0);
            }
            assert forall|p: IVec3| #[trigger] self.view().contains_key(p) implies exists|i: int| 0 <= i < out@.len() && out@[i].0 == p by {
                let k = chunk_key(p);
                assert(m.contains_key(k));
                assert(pairs.contains((&k, &m[k])));
                let i = choose|i: int| 0 <= i < pairs.len() && pairs[i] == (&k, &m[k]);
                assert(out@[i] == m[k]);
                lemma_chunk_key_injective(m[k].0, p);
            }
            assert forall|i: int, j: int| 0 <= i < j < out@.len() implies out@[i].0 != out@[j].0 by {
                assert(m.contains_key(*pairs[i].0) && m[*pairs[i].0] == *pairs[i].1);
                assert(m.contains_key(*pairs[j].0) && m[*pairs[j].0] == *pairs[j].1);
                if out@[i].0 == out@[j].0 {
                    assert(*pairs[i].0 == *pairs[j].0);
                    assert(pairs[i] == pairs[j]);
                }
            }
        }
        out
    }
}

/// Floor division of `x` by the chunk size, with the non-negative remainder.
pub(crate) fn split_axis(x: i32) -> (r: (i32, u32))
    ensures
        r.0 == x as int / 16,
        r.1 == x as int % 16,
        r.1 < CHUNK_SIZE,
        r.0 * 16 + r.1 == x,
{
    let size: i32 = CHUNK_SIZE as i32;
    let q = x / size;
    let m = x % size;
    if m < 0 {
        (q - 1, (m + size) as u32)
    } else {
        (q, m as u32)
    }
}

/// After `insert(p, e)`, `get(p)` returns `e`, and after `remove(p)`,
/// `contains(p)` is false; no other position is affected by either.
pub proof fn lemma_insert_get_remove(m: Map<IVec3, u64>, p: IVec3, e: u64, q: IVec3)
    ensures
        m.insert(p, e).contains_key(p) && m.insert(p, e)[p] == e,
        !m.remove(p).contains_key(p),
        q != p ==> m.insert(p, e).contains_key(q) == m.contains_key(q) && m.insert(p, e)[q] == m[q],
        q != p ==> m.remove(p).contains_key(q) == m.contains_key(q) && m.remove(p)[q] == m[q],
{
}

/// Split a world-space block coordinate into `(chunk_pos, local_coords)`.
///
/// `local_coords` is always in `0..CHUNK_SIZE` on each axis, and
/// `chunk_pos * CHUNK_SIZE + local_coords == world_block`.
pub fn world_block_to_chunk(world_block: IVec3) -> (r: (IVec3, UVec3))
    ensures
        r.0.x == world_block.x as int / 16,
        r.0.y == world_block.y as int / 16,
        r.0.z == world_block.z as int / 16,
        r.1.x == world_block.x as int % 16,
        r.1.y == world_block.y as int % 16,
        r.1.z == world_block.z as int % 16,
        r.1.x < CHUNK_SIZE && r.1.y < CHUNK_SIZE && r.1.z < CHUNK_SIZE,
        r.0.x * 16 + r.1.x == world_block.x,
        r.0.y * 16 + r.1.y == world_block.y,
        r.0.z * 16 + r.1.z == world_block.z,
{
    let (cx, lx) = split_axis(world_block.x);
    let (cy, ly) = split_axis(world_block.y);
    let (cz, lz) = split_axis(world_block.z);
    (IVec3 { x: cx, y: cy, z: cz }, UVec3 { x: lx, y: ly, z: lz })
}

} // verus!
