//! Greedy chunk meshing with per-vertex ambient occlusion.
//!
//! Each of the six axis-aligned face directions is swept one 2D slice at a
//! time. Every cell whose face in that direction is exposed contributes a
//! mask cell holding its block type and the ambient-occlusion level at each
//! of the face's four corners; neighbouring cells fuse into one quad only
//! when their mask cells are equal.
//!
//! Faces are numbered `0..6`: +X, -X, +Y, -Y, +Z, -Z. For face `f` the
//! normal axis is `f / 2` and the normal points towards positive
//! coordinates when `f` is even.

use vstd::prelude::*;

use crate::blocks::{BlockType, block_is_opaque};
use crate::chunk::{CHUNK_SIZE, Chunk, cell_index, in_chunk};
use crate::coords::{IVec3, UVec3};
use crate::seq_facts::{lemma_filter_all, lemma_filter_none};

verus! {

/// Number of face directions of a cube.
pub const FACE_COUNT: usize = 6;

/// +1 for faces pointing towards positive coordinates, -1 otherwise.
pub open spec fn face_sign(f: int) -> int {
    if f % 2 == 0 {
        1
    } else {
        -1
    }
}

/// The point of face `f`'s frame that sits at `a` along the face normal and
/// at `(b, c)` along the face's first and second in-plane axes.
///
/// The in-plane axes are the two remaining axes in increasing order.
pub open spec fn face_point(f: int, a: int, b: int, c: int) -> (int, int, int) {
    if f / 2 == 0 {
        (a, b, c)
    } else if f / 2 == 1 {
        (b, a, c)
    } else {
        (b, c, a)
    }
}

/// Which end of a face rectangle vertex `i` of face `f` sits at, as
/// `(at high u end, at high v end)`. Vertices are wound counter-clockwise
/// seen from outside the cube.
pub open spec fn corner_end(f: int, i: int) -> (bool, bool) {
    let table: Seq<Seq<(bool, bool)>> = seq![
        seq![(false, true), (false, false), (true, false), (true, true)],
        seq![(false, false), (false, true), (true, true), (true, false)],
        seq![(false, true), (true, true), (true, false), (false, false)],
        seq![(false, false), (true, false), (true, true), (false, true)],
        seq![(false, false), (true, false), (true, true), (false, true)],
        seq![(true, false), (false, false), (false, true), (true, true)],
    ];
    table[f][i]
}

/// Whether the cell reached from `cell` by one step along face `f`'s normal
/// and `(d1, d2)` steps along its in-plane axes is an opaque cell of `c`.
pub open spec fn opaque_near(c: Chunk, f: int, cell: (int, int, int), d1: int, d2: int) -> bool {
    let o = face_point(f, face_sign(f), d1, d2);
    c.opaque_at(cell.0 + o.0, cell.1 + o.1, cell.2 + o.2)
}

/// Classic three-neighbour ambient occlusion at vertex `i` of face `f` of
/// `cell`: 0 is fully occluded, 3 is not occluded at all.
pub open spec fn corner_ao_spec(c: Chunk, f: int, cell: (int, int, int), i: int) -> u8 {
    let ends = corner_end(f, i);
    let us: int = if ends.0 {
        1
    } else {
        -1
    };
    let vs: int = if ends.1 {
        1
    } else {
        -1
    };
    let s1 = opaque_near(c, f, cell, us, 0);
    let s2 = opaque_near(c, f, cell, 0, vs);
    let corner = opaque_near(c, f, cell, us, vs);
    if s1 && s2 {
        0
    } else {
        (3 - ((if s1 {
            1int
        } else {
            0
        }) + (if s2 {
            1int
        } else {
            0
        }) + (if corner {
            1int
        } else {
            0
        }))) as u8
    }
}

/// One cell of a face-sweep mask: the block type and the AO level at each
/// of the face's four vertices. Two mask cells merge only when equal.
#[derive(Clone, Copy, Debug)]
pub struct MaskCell {
    pub block: BlockType,
    pub ao: [u8; 4],
}

/// The mask cell of slice `s`, in-plane position `(u, v)`, for face `f`:
/// `None` when the cell is air or its face is hidden by an opaque neighbour.
pub open spec fn face_mask_spec(c: Chunk, f: int, s: int, u: int, v: int) -> Option<MaskCell> {
    let cell = face_point(f, s, u, v);
    let block = c.block_at(cell.0, cell.1, cell.2);
    if block is Air {
        None
    } else if opaque_near(c, f, cell, 0, 0) {
        None
    } else {
        Some(
            MaskCell {
                block,
                ao: [
                    corner_ao_spec(c, f, cell, 0),
                    corner_ao_spec(c, f, cell, 1),
                    corner_ao_spec(c, f, cell, 2),
                    corner_ao_spec(c, f, cell, 3),
                ],
            },
        )
    }
}

/// The outward normal of face `f` as an integer vector.
pub fn face_normal(f: usize) -> (n: IVec3)
    requires
        f < FACE_COUNT,
    ensures
        n.x == face_point(f as int, face_sign(f as int), 0, 0).0,
        n.y == face_point(f as int, face_sign(f as int), 0, 0).1,
        n.z == face_point(f as int, face_sign(f as int), 0, 0).2,
        (n.x as int, n.y as int, n.z as int) == outward_normal(f as int),
{
    let sign: i32 = if f % 2 == 0 { 1 } else { -1 };
    let p = face_point_i(f, sign, 0, 0);
    IVec3 { x: p.0, y: p.1, z: p.2 }
}

/// Place `(a, b, c)` in face `f`'s frame (see [`face_point`]).
fn face_point_i(f: usize, a: i32, b: i32, c: i32) -> (r: (i32, i32, i32))
    requires
        f < FACE_COUNT,
    ensures
        r.0 == face_point(f as int, a as int, b as int, c as int).0,
        r.1 == face_point(f as int, a as int, b as int, c as int).1,
        r.2 == face_point(f as int, a as int, b as int, c as int).2,
{
    if f / 2 == 0 {
        (a, b, c)
    } else if f / 2 == 1 {
        (b, a, c)
    } else {
        (b, c, a)
    }
}

/// Exec form of [`corner_end`].
fn corner_end_of(f: usize, i: usize) -> (r: (bool, bool))
    requires
        f < FACE_COUNT,
        i < 4,
    ensures
        r == corner_end(f as int, i as int),
{
    let table: [[(bool, bool); 4]; 6] = [
        [(false, true), (false, false), (true, false), (true, true)],
        [(false, false), (false, true), (true, true), (true, false)],
        [(false, true), (true, true), (true, false), (false, false)],
        [(false, false), (true, false), (true, true), (false, true)],
        [(false, false), (true, false), (true, true), (false, true)],
        [(true, false), (false, false), (false, true), (true, true)],
    ];
    table[f][i]
}

impl Chunk {
    /// Whether the neighbour of `cell` one step along face `f`'s normal and
    /// `(d1, d2)` along its in-plane axes is opaque.
    fn opaque_near_exec(&self, f: usize, cell: (usize, usize, usize), d1: i32, d2: i32) -> (r: bool)
        requires
            self.full(),
            f < FACE_COUNT,
            cell.0 < CHUNK_SIZE && cell.1 < CHUNK_SIZE && cell.2 < CHUNK_SIZE,
            -1 <= d1 <= 1,
            -1 <= d2 <= 1,
        ensures
            r == opaque_near(*self, f as int, (cell.0 as int, cell.1 as int, cell.2 as int), d1 as int, d2 as int),
    {
        let sign: i32 = if f % 2 == 0 { 1 } else { -1 };
        let o = face_point_i(f, sign, d1, d2);
        self.is_opaque_at(cell.0 as i32 + o.0, cell.1 as i32 + o.1, cell.2 as i32 + o.2)
    }

    /// Classic three-neighbour AO for vertex `i` of face `f` of `cell`,
    /// from 0 (fully occluded) to 3 (no occlusion).
    fn corner_ao(&self, f: usize, cell: (usize, usize, usize), i: usize) -> (r: u8)
        requires
            self.full(),
            f < FACE_COUNT,
            i < 4,
            cell.0 < CHUNK_SIZE && cell.1 < CHUNK_SIZE && cell.2 < CHUNK_SIZE,
        ensures
            r == corner_ao_spec(*self, f as int, (cell.0 as int, cell.1 as int, cell.2 as int), i as int),
            r <= 3,
    {
        let ends = corner_end_of(f, i);
        let u_sign: i32 = if ends.0 { 1 } else { -1 };
        let v_sign: i32 = if ends.1 { 1 } else { -1 };
        let s1 = self.opaque_near_exec(f, cell, u_sign, 0);
        let s2 = self.opaque_near_exec(f, cell, 0, v_sign);
        let c = self.opaque_near_exec(f, cell, u_sign, v_sign);
        if s1 && s2 {
            0
        } else {
            let n: u8 = (if s1 { 1u8 } else { 0u8 }) + (if s2 { 1u8 } else { 0u8 }) + (if c { 1u8 } else { 0u8 });
            3 - n
        }
    }

    /// Mask contribution of one cell on a slice: `None` if the cell is air
    /// or its face in direction `f` is culled by an opaque neighbour.
    pub fn face_mask_cell(&self, f: usize, s: usize, u: usize, v: usize) -> (r: Option<MaskCell>)
        requires
            self.full(),
            f < FACE_COUNT,
            s < CHUNK_SIZE && u < CHUNK_SIZE && v < CHUNK_SIZE,
        ensures
            r == face_mask_spec(*self, f as int, s as int, u as int, v as int),
    {
        let p = face_point_i(f, s as i32, u as i32, v as i32);
        let cell: (usize, usize, usize) = (p.0 as usize, p.1 as usize, p.2 as usize);
        let block = self.get(cell.0, cell.1, cell.2);
        if block.is_air() {
            return None;
        }
        if self.opaque_near_exec(f, cell, 0, 0) {
            return None;
        }
        let a0 = self.corner_ao(f, cell, 0);
        let a1 = self.corner_ao(f, cell, 1);
        let a2 = self.corner_ao(f, cell, 2);
        let a3 = self.corner_ao(f, cell, 3);
        Some(MaskCell { block, ao: [a0, a1, a2, a3] })
    }
}

/// A merged rectangle of one face slice: cells `u0..u1` by `v0..v1` of
/// slice `slice` in direction `face`, all with mask cell `cell`.
#[derive(Clone, Copy, Debug)]
pub struct Quad {
    pub face: usize,
    pub slice: usize,
    pub u0: usize,
    pub u1: usize,
    pub v0: usize,
    pub v1: usize,
    pub cell: MaskCell,
}

/// One mesh vertex in integer form: its corner position in chunk-local
/// block units, the face direction (which fixes the normal), the AO level
/// at this corner, the block (which fixes the atlas tile) and which end of
/// the tile rectangle the corner maps to.
#[derive(Clone, Copy, Debug)]
pub struct MeshVertex {
    pub position: UVec3,
    pub face: usize,
    pub ao: u8,
    pub block: BlockType,
    pub u_high: bool,
    pub v_high: bool,
}

/// A chunk mesh: its merged quads plus the vertex and triangle-index
/// buffers they expand to (four vertices and two triangles per quad).
#[derive(Clone, Debug)]
pub struct ChunkMesh {
    pub quads: Vec<Quad>,
    pub vertices: Vec<MeshVertex>,
    pub indices: Vec<u32>,
}

/// Whether cell `(u, v)` lies inside quad `q`.
pub open spec fn in_quad(q: Quad, u: int, v: int) -> bool {
    q.u0 <= u < q.u1 && q.v0 <= v < q.v1
}

/// Whether some quad of `qs` covers cell `(u, v)`.
pub open spec fn covered(qs: Seq<Quad>, u: int, v: int) -> bool {
    exists|j: int| 0 <= j < qs.len() && in_quad(#[trigger] qs[j], u, v)
}

/// What is left of mask `m` at `(u, v)` once the quads `qs` are placed.
pub open spec fn remaining(m: spec_fn(int, int) -> Option<MaskCell>, qs: Seq<Quad>, u: int, v: int) -> Option<MaskCell> {
    if covered(qs, u, v) {
        None
    } else {
        m(u, v)
    }
}

/// Whether `(u, v)` is a cell of a slice.
pub open spec fn in_slice(u: int, v: int) -> bool {
    0 <= u < 16 && 0 <= v < 16
}

/// `q` is the quad the greedy sweep places after `placed`: it starts at the
/// first remaining cell in row-major `(v, u)` order, holds only remaining
/// cells equal to its own, is as wide as row `v0` allows, and as tall as
/// the rows below allow for that width.
pub open spec fn greedy_step(m: spec_fn(int, int) -> Option<MaskCell>, placed: Seq<Quad>, q: Quad) -> bool {
    &&& q.u0 < q.u1 <= 16
    &&& q.v0 < q.v1 <= 16
    &&& forall|u: int, v: int|
        #![trigger remaining(m, placed, u, v)]
        in_quad(q, u, v) ==> remaining(m, placed, u, v) == Some(q.cell)
    &&& forall|u: int, v: int|
        #![trigger remaining(m, placed, u, v)]
        in_slice(u, v) && (v < q.v0 || (v == q.v0 && u < q.u0)) ==> remaining(m, placed, u, v) is None
    &&& (q.u1 == 16 || remaining(m, placed, q.u1 as int, q.v0 as int) != Some(q.cell))
    &&& (q.v1 == 16 || exists|u: int|
        q.u0 <= u < q.u1 && #[trigger] remaining(m, placed, u, q.v1 as int) != Some(q.cell))
}

/// `qs` is the greedy decomposition of mask `m`: each quad is the greedy
/// step after the ones before it, and together they leave nothing.
pub open spec fn greedy_cover(m: spec_fn(int, int) -> Option<MaskCell>, qs: Seq<Quad>) -> bool {
    &&& forall|k: int| 0 <= k < qs.len() ==> greedy_step(m, qs.take(k), #[trigger] qs[k])
    &&& forall|u: int, v: int| #![trigger remaining(m, qs, u, v)] in_slice(u, v) ==> remaining(m, qs, u, v) is None
}

/// The face mask of slice `s` in direction `f` of chunk `c`.
pub open spec fn slice_mask(c: Chunk, f: int, s: int) -> spec_fn(int, int) -> Option<MaskCell> {
    |u: int, v: int| face_mask_spec(c, f, s, u, v)
}

/// Whether a quad belongs to slice `s` of direction `f`.
pub open spec fn on_slice(f: int, s: int) -> spec_fn(Quad) -> bool {
    |q: Quad| q.face == f && q.slice == s
}

/// The quads of `qs` that belong to slice `s` of direction `f`, in order.
pub open spec fn slice_quads(qs: Seq<Quad>, f: int, s: int) -> Seq<Quad> {
    qs.filter(on_slice(f, s))
}

/// Vertex `i` of quad `q`.
pub open spec fn quad_vertex(q: Quad, i: int) -> MeshVertex {
    let ends = corner_end(q.face as int, i);
    let u: int = if ends.0 {
        q.u1 as int
    } else {
        q.u0 as int
    };
    let v: int = if ends.1 {
        q.v1 as int
    } else {
        q.v0 as int
    };
    let plane: int = if face_sign(q.face as int) > 0 {
        q.slice + 1
    } else {
        q.slice as int
    };
    let p = face_point(q.face as int, plane, u, v);
    MeshVertex {
        position: UVec3 { x: p.0 as u32, y: p.1 as u32, z: p.2 as u32 },
        face: q.face,
        ao: q.cell.ao[i],
        block: q.cell.block,
        u_high: ends.0,
        v_high: ends.1,
    }
}

/// The four vertices of quad `q`.
pub open spec fn quad_vertices(q: Quad) -> Seq<MeshVertex> {
    seq![quad_vertex(q, 0), quad_vertex(q, 1), quad_vertex(q, 2), quad_vertex(q, 3)]
}

/// The two triangles of a quad whose first vertex is `base`. The split runs
/// along the 1-3 diagonal when that one has the weaker AO contrast, so
/// interpolated AO does not tear.
pub open spec fn quad_indices(base: int, ao: [u8; 4]) -> Seq<u32> {
    if (ao[0] as int + ao[2] as int) < (ao[1] as int + ao[3] as int) {
        seq![base as u32, (base + 1) as u32, (base + 3) as u32, (base + 1) as u32, (base + 2) as u32, (base + 3) as u32]
    } else {
        seq![base as u32, (base + 1) as u32, (base + 2) as u32, base as u32, (base + 2) as u32, (base + 3) as u32]
    }
}

/// The vertex buffer of a sequence of quads.
pub open spec fn mesh_vertices(qs: Seq<Quad>) -> Seq<MeshVertex>
    decreases qs.len(),
{
    if qs.len() == 0 {
        Seq::empty()
    } else {
        mesh_vertices(qs.drop_last()) + quad_vertices(qs.last())
    }
}

/// The index buffer of a sequence of quads.
pub open spec fn mesh_indices(qs: Seq<Quad>) -> Seq<u32>
    decreases qs.len(),
{
    if qs.len() == 0 {
        Seq::empty()
    } else {
        mesh_indices(qs.drop_last()) + quad_indices(4 * (qs.len() - 1), qs.last().cell.ao)
    }
}

/// Largest number of quads a chunk mesh can hold: one per face cell.
pub const MAX_QUADS: usize = 6 * 16 * 16 * 16;

impl ChunkMesh {
    /// The buffers are exactly what the quads expand to.
    pub open spec fn wf(self) -> bool {
        &&& self.vertices@ == mesh_vertices(self.quads@)
        &&& self.indices@ == mesh_indices(self.quads@)
        &&& self.quads@.len() <= MAX_QUADS
        &&& forall|k: int| 0 <= k < self.quads@.len() ==> #[trigger] quad_in_range(self.quads@[k])
    }
}

/// A quad with its face, slice and rectangle inside the chunk.
pub open spec fn quad_in_range(q: Quad) -> bool {
    &&& q.face < 6
    &&& q.slice < 16
    &&& q.u0 < q.u1 <= 16
    &&& q.v0 < q.v1 <= 16
}

/// Buffer lengths follow the quad count.
pub proof fn lemma_mesh_lengths(qs: Seq<Quad>)
    ensures
        mesh_vertices(qs).len() == 4 * qs.len(),
        mesh_indices(qs).len() == 6 * qs.len(),
    decreases qs.len(),
{
    if qs.len() > 0 {
        lemma_mesh_lengths(qs.drop_last());
    }
}

/// Append quad `q` and its four vertices and six indices to `out`.
fn emit_quad(out: &mut ChunkMesh, q: Quad)
    requires
        old(out).wf(),
        old(out).quads@.len() < MAX_QUADS,
        quad_in_range(q),
    ensures
        final(out).wf(),
        final(out).quads@ == old(out).quads@.push(q),
{
    proof {
        lemma_mesh_lengths(out.quads@);
    }
    let ghost old_quads = out.quads@;
    let ghost old_indices = out.indices@;
    let base: u32 = out.vertices.len() as u32;
    let plane: usize = if q.face % 2 == 0 { q.slice + 1 } else { q.slice };
    let mut i: usize = 0;
    while i < 4
        invariant
            0 <= i <= 4,
            out.quads@ == old_quads,
            out.indices@ == old_indices,
            quad_in_range(q),
            plane == (if face_sign(q.face as int) > 0 { q.slice + 1 } else { q.slice as int }),
            out.vertices@ == mesh_vertices(old_quads) + quad_vertices(q).take(i as int),
        decreases 4 - i,
    {
        let ends = corner_end_of(q.face, i);
        let u = if ends.0 { q.u1 } else { q.u0 };
        let v = if ends.1 { q.v1 } else { q.v0 };
        let p = face_point_i(q.face, plane as i32, u as i32, v as i32);
        let vertex = MeshVertex {
            position: UVec3 { x: p.0 as u32, y: p.1 as u32, z: p.2 as u32 },
            face: q.face,
            ao: q.cell.ao[i],
            block: q.cell.block,
            u_high: ends.0,
            v_high: ends.1,
        };
        assert(vertex == quad_vertex(q, i as int));
        out.vertices.push(vertex);
        proof {
            assert(quad_vertices(q).take(i + 1) =~= quad_vertices(q).take(i as int).push(quad_vertex(q, i as int)));
        }
        i = i + 1;
    }
    let ao = q.cell.ao;
    let flip = (ao[0] as u32 + ao[2] as u32) < (ao[1] as u32 + ao[3] as u32);
    assert(flip == ((q.cell.ao[0] as int + q.cell.ao[2] as int) < (q.cell.ao[1] as int + q.cell.ao[3] as int)));
    if flip {
        out.indices.push(base);
        out.indices.push(base + 1);
        out.indices.push(base + 3);
        out.indices.push(base + 1);
        out.indices.push(base + 2);
        out.indices.push(base + 3);
    } else {
        out.indices.push(base);
        out.indices.push(base + 1);
        out.indices.push(base + 2);
        out.indices.push(base);
        out.indices.push(base + 2);
        out.indices.push(base + 3);
    }
    assert(base == 4 * old_quads.len());
    assert(out.indices@ =~= old_indices + quad_indices(4 * old_quads.len() as int, q.cell.ao));
    out.quads.push(q);
    proof {
        let qs = out.quads@;
        assert(qs.drop_last() =~= old_quads);
        assert(quad_vertices(q).take(4) =~= quad_vertices(q));
        assert(out.vertices@ =~= mesh_vertices(qs));
        assert(out.indices@ =~= mesh_indices(qs));
        assert forall|k: int| 0 <= k < qs.len() implies #[trigger] quad_in_range(qs[k]) by {
            if k < old_quads.len() {
                assert(qs[k] == old_quads[k]);
            }
        }
    }
}

/// Flat position of slice cell `(u, v)` in a sweep mask.
pub open spec fn mask_idx(u: int, v: int) -> int {
    u * 16 + v
}

/// Placing one more quad covers exactly the cells it adds.
proof fn lemma_covered_push(qs: Seq<Quad>, q: Quad, u: int, v: int)
    ensures
        covered(qs.push(q), u, v) == (covered(qs, u, v) || in_quad(q, u, v)),
{
    let qs2 = qs.push(q);
    if covered(qs, u, v) {
        let j = choose|j: int| 0 <= j < qs.len() && in_quad(#[trigger] qs[j], u, v);
        assert(qs2[j] == qs[j]);
    }
    if in_quad(q, u, v) {
        assert(qs2[qs.len() as int] == q);
    }
    if covered(qs2, u, v) {
        let j = choose|j: int| 0 <= j < qs2.len() && in_quad(#[trigger] qs2[j], u, v);
        if j < qs.len() {
            assert(qs2[j] == qs[j]);
        }
    }
}

/// Whether mask cells `(a, v)` for `u0 <= a < u1` all equal `Some(cell)`.
fn row_matches(mask: &Vec<Option<MaskCell>>, u0: usize, u1: usize, v: usize, cell: &MaskCell) -> (r: bool)
    requires
        mask@.len() == 256,
        u0 <= u1 <= 16,
        v < 16,
    ensures
        r == (forall|a: int| u0 <= a < u1 ==> #[trigger] mask@[mask_idx(a, v as int)] == Some(*cell)),
{
    let mut a: usize = u0;
    while a < u1
        invariant
            mask@.len() == 256,
            u0 <= a <= u1 <= 16,
            v < 16,
            forall|b: int| u0 <= b < a ==> #[trigger] mask@[mask_idx(b, v as int)] == Some(*cell),
        decreases u1 - a,
    {
        assert(a * 16 + v == mask_idx(a as int, v as int));
        if !same_cell(&mask[a * 16 + v], cell) {
            return false;
        }
        a = a + 1;
    }
    true
}

/// Whether mask entry `m` holds exactly `cell`.
fn same_cell(m: &Option<MaskCell>, cell: &MaskCell) -> (r: bool)
    ensures
        r == (*m == Some(*cell)),
{
    match m {
        None => false,
        Some(c) => {
            if c.block == cell.block && c.ao[0] == cell.ao[0] && c.ao[1] == cell.ao[1] && c.ao[2]
                == cell.ao[2] && c.ao[3] == cell.ao[3] {
                assert(c.ao =~= cell.ao);
                true
            } else {
                false
            }
        },
    }
}

/// Clear the mask entries of the cells covered by `q`.
fn clear_quad(mask: &mut Vec<Option<MaskCell>>, q: &Quad)
    requires
        old(mask)@.len() == 256,
        q.u0 < q.u1 <= 16,
        q.v0 < q.v1 <= 16,
    ensures
        final(mask)@.len() == 256,
        forall|a: int, b: int|
            #![trigger final(mask)@[mask_idx(a, b)]]
            in_slice(a, b) ==> final(mask)@[mask_idx(a, b)] == if in_quad(*q, a, b) {
                None
            } else {
                old(mask)@[mask_idx(a, b)]
            },
{
    let ghost before = mask@;
    let mut b: usize = q.v0;
    while b < q.v1
        invariant
            mask@.len() == 256,
            q.u0 < q.u1 <= 16,
            q.v0 <= b <= q.v1 <= 16,
            forall|x: int, y: int|
                #![trigger mask@[mask_idx(x, y)]]
                in_slice(x, y) ==> mask@[mask_idx(x, y)] == if in_quad(*q, x, y) && y < b {
                    None
                } else {
                    before[mask_idx(x, y)]
                },
        decreases q.v1 - b,
    {
        let mut a: usize = q.u0;
        while a < q.u1
            invariant
                mask@.len() == 256,
                q.u0 <= a <= q.u1 <= 16,
                q.v0 <= b < q.v1 <= 16,
                forall|x: int, y: int|
                    #![trigger mask@[mask_idx(x, y)]]
                    in_slice(x, y) ==> mask@[mask_idx(x, y)] == if in_quad(*q, x, y) && (y < b || (
                    y == b && x < a)) {
                        None
                    } else {
                        before[mask_idx(x, y)]
                    },
            decreases q.u1 - a,
        {
            let ghost prev = mask@;
            let i = a * 16 + b;
            assert(i == mask_idx(a as int, b as int));
            mask.set(i, None);
            assert forall|x: int, y: int| #![trigger mask@[mask_idx(x, y)]] in_slice(x, y) implies mask@[mask_idx(x, y)]
                == if in_quad(*q, x, y) && (y < b || (y == b && x < a + 1)) {
                None
            } else {
                before[mask_idx(x, y)]
            } by {
                if x != a || y != b {
                    assert(mask_idx(x, y) != mask_idx(a as int, b as int));
                    assert(mask@[mask_idx(x, y)] == prev[mask_idx(x, y)]);
                }
            }
            a = a + 1;
        }
        b = b + 1;
    }
}

/// Grow a rectangle of cells equal to `cell` from `(u, v)`: first as wide
/// as row `v` allows, then as tall as the following rows allow.
fn grow_quad(mask: &Vec<Option<MaskCell>>, u: usize, v: usize, cell: &MaskCell) -> (r: (usize, usize))
    requires
        mask@.len() == 256,
        u < 16,
        v < 16,
        mask@[mask_idx(u as int, v as int)] == Some(*cell),
    ensures
        1 <= r.0 && u + r.0 <= 16,
        1 <= r.1 && v + r.1 <= 16,
        forall|a: int, b: int|
            #![trigger mask@[mask_idx(a, b)]]
            u <= a < u + r.0 && v <= b < v + r.1 ==> mask@[mask_idx(a, b)] == Some(*cell),
        u + r.0 == 16 || mask@[mask_idx(u + r.0, v as int)] != Some(*cell),
        v + r.1 == 16 || exists|a: int| u <= a < u + r.0 && #[trigger] mask@[mask_idx(a, v + r.1)] != Some(*cell),
{
    let mut du: usize = 1;
    while u + du < CHUNK_SIZE && row_matches(mask, u + du, u + du + 1, v, cell)
        invariant
            mask@.len() == 256,
            u < 16,
            v < 16,
            1 <= du,
            u + du <= 16,
            forall|a: int| u <= a < u + du ==> #[trigger] mask@[mask_idx(a, v as int)] == Some(*cell),
        decreases 16 - du,
    {
        du = du + 1;
    }
    let mut dv: usize = 1;
    while v + dv < CHUNK_SIZE && row_matches(mask, u, u + du, v + dv, cell)
        invariant
            mask@.len() == 256,
            u + du <= 16,
            u < u + du,
            v < 16,
            1 <= dv,
            v + dv <= 16,
            forall|a: int, b: int|
                #![trigger mask@[mask_idx(a, b)]]
                u <= a < u + du && v <= b < v + dv ==> mask@[mask_idx(a, b)] == Some(*cell),
        decreases 16 - dv,
    {
        dv = dv + 1;
    }
    (du, dv)
}

/// A rectangle grown by [`grow_quad`] at the first remaining cell is the
/// greedy step after `sq`.
proof fn lemma_greedy_step(
    m: spec_fn(int, int) -> Option<MaskCell>,
    sq: Seq<Quad>,
    mask: Seq<Option<MaskCell>>,
    q: Quad,
)
    requires
        mask.len() == 256,
        forall|a: int, b: int|
            #![trigger mask[mask_idx(a, b)]]
            in_slice(a, b) ==> mask[mask_idx(a, b)] == remaining(m, sq, a, b),
        forall|a: int, b: int|
            #![trigger remaining(m, sq, a, b)]
            in_slice(a, b) && (b < q.v0 || (b == q.v0 && a < q.u0)) ==> remaining(m, sq, a, b) is None,
        q.u0 < q.u1 <= 16,
        q.v0 < q.v1 <= 16,
        forall|a: int, b: int|
            #![trigger mask[mask_idx(a, b)]]
            q.u0 <= a < q.u1 && q.v0 <= b < q.v1 ==> mask[mask_idx(a, b)] == Some(q.cell),
        q.u1 == 16 || mask[mask_idx(q.u1 as int, q.v0 as int)] != Some(q.cell),
        q.v1 == 16 || exists|a: int| q.u0 <= a < q.u1 && #[trigger] mask[mask_idx(a, q.v1 as int)] != Some(q.cell),
    ensures
        greedy_step(m, sq, q),
{
    assert forall|a: int, b: int| #![trigger remaining(m, sq, a, b)] in_quad(q, a, b) implies remaining(m, sq, a, b)
        == Some(q.cell) by {
        assert(mask[mask_idx(a, b)] == Some(q.cell));
    }
    if q.u1 < 16 {
        assert(mask[mask_idx(q.u1 as int, q.v0 as int)] != Some(q.cell));
    }
    if q.v1 < 16 {
        let a = choose|a: int| q.u0 <= a < q.u1 && #[trigger] mask[mask_idx(a, q.v1 as int)] != Some(q.cell);
        assert(remaining(m, sq, a, q.v1 as int) != Some(q.cell));
    }
}

/// After placing `q` (a greedy step after `sq`) and clearing its cells from
/// the mask, the mask again shows what remains, and every earlier greedy
/// step still holds of the longer sequence.
proof fn lemma_place(
    m: spec_fn(int, int) -> Option<MaskCell>,
    sq: Seq<Quad>,
    q: Quad,
    before: Seq<Option<MaskCell>>,
    after: Seq<Option<MaskCell>>,
)
    requires
        greedy_step(m, sq, q),
        forall|k: int| 0 <= k < sq.len() ==> greedy_step(m, sq.take(k), #[trigger] sq[k]),
        before.len() == 256,
        after.len() == 256,
        forall|a: int, b: int|
            #![trigger before[mask_idx(a, b)]]
            in_slice(a, b) ==> before[mask_idx(a, b)] == remaining(m, sq, a, b),
        forall|a: int, b: int|
            #![trigger after[mask_idx(a, b)]]
            in_slice(a, b) ==> after[mask_idx(a, b)] == if in_quad(q, a, b) {
                None
            } else {
                before[mask_idx(a, b)]
            },
    ensures
        forall|a: int, b: int|
            #![trigger after[mask_idx(a, b)]]
            in_slice(a, b) ==> after[mask_idx(a, b)] == remaining(m, sq.push(q), a, b),
        forall|a: int, b: int|
            #![trigger remaining(m, sq.push(q), a, b)]
            (remaining(m, sq, a, b) is None || in_quad(q, a, b)) ==> remaining(m, sq.push(q), a, b) is None,
        forall|k: int| 0 <= k < sq.push(q).len() ==> greedy_step(m, sq.push(q).take(k), #[trigger] sq.push(q)[k]),
{
    let sq2 = sq.push(q);
    assert forall|a: int, b: int| #![trigger remaining(m, sq2, a, b)] true implies remaining(m, sq2, a, b) == if in_quad(q, a, b) {
        None
    } else {
        remaining(m, sq, a, b)
    } by {
        lemma_covered_push(sq, q, a, b);
    }
    assert forall|a: int, b: int| #![trigger after[mask_idx(a, b)]] in_slice(a, b) implies after[mask_idx(a, b)]
        == remaining(m, sq2, a, b) by {
        assert(remaining(m, sq2, a, b) == if in_quad(q, a, b) {
            None
        } else {
            remaining(m, sq, a, b)
        });
    }
    assert forall|k: int| 0 <= k < sq2.len() implies greedy_step(m, sq2.take(k), #[trigger] sq2[k]) by {
        if k < sq.len() {
            assert(sq2.take(k) =~= sq.take(k));
            assert(sq2[k] == sq[k]);
        } else {
            assert(sq2.take(k) =~= sq);
        }
    }
}

impl Chunk {
    /// The face mask of slice `s` in direction `f`, flattened by [`mask_idx`].
    fn slice_mask_exec(&self, f: usize, s: usize) -> (mask: Vec<Option<MaskCell>>)
        requires
            self.full(),
            f < FACE_COUNT,
            s < CHUNK_SIZE,
        ensures
            mask@.len() == 256,
            forall|a: int, b: int|
                #![trigger mask@[mask_idx(a, b)]]
                in_slice(a, b) ==> mask@[mask_idx(a, b)] == face_mask_spec(*self, f as int, s as int, a, b),
    {
        let mut mask: Vec<Option<MaskCell>> = Vec::new();
        let mut u: usize = 0;
        while u < CHUNK_SIZE
            invariant
                self.full(),
                f < FACE_COUNT,
                s < CHUNK_SIZE,
                u <= 16,
                mask@.len() == 16 * u,
                forall|a: int, b: int|
                    #![trigger mask@[mask_idx(a, b)]]
                    0 <= a < u && 0 <= b < 16 ==> mask@[mask_idx(a, b)] == face_mask_spec(*self, f as int, s as int, a, b),
            decreases 16 - u,
        {
            let mut v: usize = 0;
            while v < CHUNK_SIZE
                invariant
                    self.full(),
                    f < FACE_COUNT,
                    s < CHUNK_SIZE,
                    u < 16,
                    v <= 16,
                    mask@.len() == 16 * u + v,
                    forall|a: int, b: int|
                        #![trigger mask@[mask_idx(a, b)]]
                        (0 <= a < u && 0 <= b < 16) || (a == u && 0 <= b < v) ==> mask@[mask_idx(a, b)]
                            == face_mask_spec(*self, f as int, s as int, a, b),
                decreases 16 - v,
            {
                let cell = self.face_mask_cell(f, s, u, v);
                assert(mask@.len() == mask_idx(u as int, v as int));
                mask.push(cell);
                v = v + 1;
            }
            u = u + 1;
        }
        mask
    }

    /// Greedy-mesh slice `s` of direction `f`, appending the merged quads
    /// (and their vertices and indices) to `out`.
    ///
    /// A rectangle starts at the first remaining cell in row-major order,
    /// grows along `u` while cells match, then along `v` while every cell of
    /// the next row matches.
    #[verifier::rlimit(40)]
    fn greedy_sweep_slice(&self, f: usize, s: usize, out: &mut ChunkMesh)
        requires
            self.full(),
            f < FACE_COUNT,
            s < CHUNK_SIZE,
            old(out).wf(),
            old(out).quads@.len() + 256 <= MAX_QUADS,
        ensures
            final(out).wf(),
            old(out).quads@.len() <= final(out).quads@.len() <= old(out).quads@.len() + 256,
            final(out).quads@.take(old(out).quads@.len() as int) == old(out).quads@,
            forall|k: int|
                old(out).quads@.len() <= k < final(out).quads@.len() ==> (#[trigger] final(out).quads@[k]).face == f
                    && final(out).quads@[k].slice == s,
            greedy_cover(slice_mask(*self, f as int, s as int), final(out).quads@.skip(old(out).quads@.len() as int)),
    {
        let ghost m = slice_mask(*self, f as int, s as int);
        let ghost start = out.quads@.len();
        let ghost old_quads = out.quads@;
        let mut mask = self.slice_mask_exec(f, s);
        assert(out.quads@.skip(start as int) =~= Seq::<Quad>::empty());
        assert forall|a: int, b: int| #![trigger mask@[mask_idx(a, b)]] in_slice(a, b) implies mask@[mask_idx(a, b)]
            == remaining(m, out.quads@.skip(start as int), a, b) by {
            assert(!covered(out.quads@.skip(start as int), a, b));
        }
        let mut v: usize = 0;
        let mut u: usize = 0;
        while v < CHUNK_SIZE
            invariant
                self.full(),
                f < FACE_COUNT,
                s < CHUNK_SIZE,
                m == slice_mask(*self, f as int, s as int),
                v <= 16,
                u <= 16,
                v == 16 ==> u == 0,
                out.wf(),
                start == old_quads.len(),
                start <= out.quads@.len(),
                start + 256 <= MAX_QUADS,
                out.quads@.len() <= start + 16 * v + u,
                out.quads@.take(start as int) == old_quads,
                forall|k: int| start <= k < out.quads@.len() ==> (#[trigger] out.quads@[k]).face == f && out.quads@[k].slice == s,
                mask@.len() == 256,
                forall|a: int, b: int|
                    #![trigger mask@[mask_idx(a, b)]]
                    in_slice(a, b) ==> mask@[mask_idx(a, b)] == remaining(m, out.quads@.skip(start as int), a, b),
                forall|a: int, b: int|
                    #![trigger remaining(m, out.quads@.skip(start as int), a, b)]
                    in_slice(a, b) && (b < v || (b == v && a < u)) ==> remaining(m, out.quads@.skip(start as int), a, b) is None,
                forall|k: int|
                    0 <= k < out.quads@.skip(start as int).len() ==> greedy_step(
                        m,
                        out.quads@.skip(start as int).take(k),
                        #[trigger] out.quads@.skip(start as int)[k],
                    ),
            decreases 17 * (16 - v) + (16 - u),
        {
            if u == CHUNK_SIZE {
                u = 0;
                v = v + 1;
                continue;
            }
            let ghost sq = out.quads@.skip(start as int);
            assert(u * 16 + v == mask_idx(u as int, v as int));
            let here = mask[u * 16 + v];
            match here {
                None => {
                    assert(remaining(m, sq, u as int, v as int) is None);
                    u = u + 1;
                },
                Some(cell) => {
                    let (du, dv) = grow_quad(&mask, u, v, &cell);
                    let q = Quad { face: f, slice: s, u0: u, u1: u + du, v0: v, v1: v + dv, cell };
                    proof {
                        lemma_greedy_step(m, sq, mask@, q);
                    }
                    emit_quad(out, q);
                    let ghost before_clear = mask@;
                    clear_quad(&mut mask, &q);
                    proof {
                        let sq2 = out.quads@.skip(start as int);
                        assert(sq2 =~= sq.push(q));
                        lemma_place(m, sq, q, before_clear, mask@);
                        assert(out.quads@.take(start as int) =~= old_quads);
                    }
                    u = u + du;
                },
            }
        }
    }
}

/// Position of slice `s` of direction `f` in sweep order.
pub open spec fn slice_key(f: int, s: int) -> int {
    16 * f + s
}

/// Appending the quads of slice `(f, s)` after those of all earlier slices
/// keeps the earlier slices' quads and makes the new ones slice `(f, s)`'s.
proof fn lemma_append_slice(c: Chunk, before: Seq<Quad>, after: Seq<Quad>, f: int, s: int)
    requires
        0 <= f < 6,
        0 <= s < 16,
        before.len() <= after.len(),
        after.take(before.len() as int) == before,
        forall|k: int| 0 <= k < before.len() ==> slice_key((#[trigger] before[k]).face as int, before[k].slice as int) < slice_key(f, s),
        forall|k: int| before.len() <= k < after.len() ==> (#[trigger] after[k]).face == f && after[k].slice == s,
        greedy_cover(slice_mask(c, f, s), after.skip(before.len() as int)),
        forall|f2: int, s2: int|
            0 <= f2 < 6 && 0 <= s2 < 16 && slice_key(f2, s2) < slice_key(f, s) ==> greedy_cover(
                slice_mask(c, f2, s2),
                #[trigger] slice_quads(before, f2, s2),
            ),
    ensures
        forall|f2: int, s2: int|
            0 <= f2 < 6 && 0 <= s2 < 16 && slice_key(f2, s2) <= slice_key(f, s) ==> greedy_cover(
                slice_mask(c, f2, s2),
                #[trigger] slice_quads(after, f2, s2),
            ),
{
    let added = after.skip(before.len() as int);
    assert(after =~= before + added);
    assert forall|f2: int, s2: int|
        0 <= f2 < 6 && 0 <= s2 < 16 && slice_key(f2, s2) <= slice_key(f, s) implies greedy_cover(
        slice_mask(c, f2, s2),
        #[trigger] slice_quads(after, f2, s2),
    ) by {
        Seq::filter_distributes_over_add(before, added, on_slice(f2, s2));
        if f2 == f && s2 == s {
            lemma_filter_none(before, on_slice(f2, s2));
            lemma_filter_all(added, on_slice(f2, s2));
            assert(slice_quads(after, f2, s2) =~= added);
        } else {
            assert forall|i: int| 0 <= i < added.len() implies !(on_slice(f2, s2))(#[trigger] added[i]) by {
                assert(added[i] == after[before.len() + i]);
            }
            lemma_filter_none(added, on_slice(f2, s2));
            assert(slice_quads(after, f2, s2) =~= slice_quads(before, f2, s2));
        }
    }
}

impl Chunk {
    /// Build this chunk's mesh with the greedy mesher.
    ///
    /// Each of the six face directions is swept one slice at a time, in
    /// order; the quads of each slice are the greedy decomposition of that
    /// slice's face mask. Out-of-chunk neighbours count as transparent, so
    /// the chunk's outer shell is always drawn.
    pub fn build_mesh(&self) -> (mesh: ChunkMesh)
        requires
            self.full(),
        ensures
            mesh.wf(),
            forall|k: int| 0 <= k < mesh.quads@.len() ==> (#[trigger] mesh.quads@[k]).face < 6 && mesh.quads@[k].slice < 16,
            forall|k1: int, k2: int|
                0 <= k1 < k2 < mesh.quads@.len() ==> slice_key((#[trigger] mesh.quads@[k1]).face as int, mesh.quads@[k1].slice as int)
                    <= slice_key((#[trigger] mesh.quads@[k2]).face as int, mesh.quads@[k2].slice as int),
            forall|f: int, s: int|
                0 <= f < 6 && 0 <= s < 16 ==> greedy_cover(
                    slice_mask(*self, f, s),
                    #[trigger] slice_quads(mesh.quads@, f, s),
                ),
    {
        let mut out = ChunkMesh { quads: Vec::new(), vertices: Vec::new(), indices: Vec::new() };
        proof {
            assert(out.vertices@ =~= mesh_vertices(out.quads@));
            assert(out.indices@ =~= mesh_indices(out.quads@));
        }
        let mut f: usize = 0;
        while f < FACE_COUNT
            invariant
                self.full(),
                f <= 6,
                out.wf(),
                out.quads@.len() <= 256 * slice_key(f as int, 0),
                forall|k: int| 0 <= k < out.quads@.len() ==> slice_key((#[trigger] out.quads@[k]).face as int, out.quads@[k].slice as int) < slice_key(f as int, 0),
                forall|k1: int, k2: int|
                    0 <= k1 < k2 < out.quads@.len() ==> slice_key((#[trigger] out.quads@[k1]).face as int, out.quads@[k1].slice as int)
                        <= slice_key((#[trigger] out.quads@[k2]).face as int, out.quads@[k2].slice as int),
                forall|f2: int, s2: int|
                    0 <= f2 < 6 && 0 <= s2 < 16 && slice_key(f2, s2) < slice_key(f as int, 0) ==> greedy_cover(
                        slice_mask(*self, f2, s2),
                        #[trigger] slice_quads(out.quads@, f2, s2),
                    ),
            decreases 6 - f,
        {
            let mut s: usize = 0;
            while s < CHUNK_SIZE
                invariant
                    self.full(),
                    f < 6,
                    s <= 16,
                    out.wf(),
                    out.quads@.len() <= 256 * slice_key(f as int, s as int),
                    forall|k: int| 0 <= k < out.quads@.len() ==> slice_key((#[trigger] out.quads@[k]).face as int, out.quads@[k].slice as int) < slice_key(f as int, s as int),
                    forall|k1: int, k2: int|
                        0 <= k1 < k2 < out.quads@.len() ==> slice_key((#[trigger] out.quads@[k1]).face as int, out.quads@[k1].slice as int)
                            <= slice_key((#[trigger] out.quads@[k2]).face as int, out.quads@[k2].slice as int),
                    forall|f2: int, s2: int|
                        0 <= f2 < 6 && 0 <= s2 < 16 && slice_key(f2, s2) < slice_key(f as int, s as int) ==> greedy_cover(
                            slice_mask(*self, f2, s2),
                            #[trigger] slice_quads(out.quads@, f2, s2),
                        ),
                decreases 16 - s,
            {
                let ghost before = out.quads@;
                self.greedy_sweep_slice(f, s, &mut out);
                proof {
                    lemma_append_slice(*self, before, out.quads@, f as int, s as int);
                    assert forall|k: int| 0 <= k < out.quads@.len() implies slice_key((#[trigger] out.quads@[k]).face as int, out.quads@[k].slice as int) < slice_key(f as int, s as int + 1) by {
                        if k < before.len() {
                            assert(out.quads@.take(before.len() as int)[k] == before[k]);
                        }
                    }
                    assert forall|k1: int, k2: int|
                        0 <= k1 < k2 < out.quads@.len() implies slice_key((#[trigger] out.quads@[k1]).face as int, out.quads@[k1].slice as int)
                            <= slice_key((#[trigger] out.quads@[k2]).face as int, out.quads@[k2].slice as int) by {
                        if k1 < before.len() {
                            assert(out.quads@.take(before.len() as int)[k1] == before[k1]);
                        }
                        if k2 < before.len() {
                            assert(out.quads@.take(before.len() as int)[k2] == before[k2]);
                        }
                    }
                }
                s = s + 1;
            }
            f = f + 1;
        }
        proof {
            assert forall|k: int| 0 <= k < out.quads@.len() implies (#[trigger] out.quads@[k]).face < 6 && out.quads@[k].slice < 16 by {
                assert(quad_in_range(out.quads@[k]));
            }
        }
        out
    }
}

/// The greedy decomposition of a slice mask partitions its present cells:
/// every present cell lies in exactly one quad, that quad carries the
/// cell's own block and AO, and absent cells lie in no quad.
pub proof fn lemma_greedy_partition(m: spec_fn(int, int) -> Option<MaskCell>, qs: Seq<Quad>, u: int, v: int)
    requires
        greedy_cover(m, qs),
        in_slice(u, v),
    ensures
        forall|k: int| 0 <= k < qs.len() && in_quad(#[trigger] qs[k], u, v) ==> m(u, v) == Some(qs[k].cell),
        forall|k1: int, k2: int|
            0 <= k1 < qs.len() && 0 <= k2 < qs.len() && in_quad(#[trigger] qs[k1], u, v) && in_quad(#[trigger] qs[k2], u, v)
                ==> k1 == k2,
        m(u, v) is Some ==> exists|k: int| 0 <= k < qs.len() && in_quad(#[trigger] qs[k], u, v),
{
    assert forall|k1: int, k2: int|
        0 <= k1 < qs.len() && 0 <= k2 < qs.len() && in_quad(#[trigger] qs[k1], u, v) && in_quad(#[trigger] qs[k2], u, v)
        implies k1 == k2 by {
        if k1 < k2 {
            assert(greedy_step(m, qs.take(k2), qs[k2]));
            assert(qs.take(k2)[k1] == qs[k1]);
            assert(covered(qs.take(k2), u, v));
            assert(remaining(m, qs.take(k2), u, v) == Some(qs[k2].cell));
        } else if k2 < k1 {
            assert(greedy_step(m, qs.take(k1), qs[k1]));
            assert(qs.take(k1)[k2] == qs[k2]);
            assert(covered(qs.take(k1), u, v));
            assert(remaining(m, qs.take(k1), u, v) == Some(qs[k1].cell));
        }
    }
    assert forall|k: int| 0 <= k < qs.len() && in_quad(#[trigger] qs[k], u, v) implies m(u, v) == Some(qs[k].cell) by {
        assert(greedy_step(m, qs.take(k), qs[k]));
        if covered(qs.take(k), u, v) {
            let j = choose|j: int| 0 <= j < qs.take(k).len() && in_quad(#[trigger] qs.take(k)[j], u, v);
            assert(qs.take(k)[j] == qs[j]);
            assert(in_quad(qs[j], u, v));
        }
        assert(remaining(m, qs.take(k), u, v) == Some(qs[k].cell));
    }
    if m(u, v) is Some {
        assert(remaining(m, qs, u, v) is None);
    }
}

/// A slice whose exposed faces all share one block and AO pattern and
/// fill the whole slice (a flat shelf) collapses into a single quad.
pub proof fn lemma_uniform_slice_is_one_quad(m: spec_fn(int, int) -> Option<MaskCell>, qs: Seq<Quad>, c: MaskCell)
    requires
        greedy_cover(m, qs),
        forall|u: int, v: int| #![trigger m(u, v)] in_slice(u, v) ==> m(u, v) == Some(c),
    ensures
        qs.len() == 1,
        qs[0].u0 == 0 && qs[0].u1 == 16 && qs[0].v0 == 0 && qs[0].v1 == 16,
        qs[0].cell == c,
{
    assert(in_slice(0, 0));
    assert(m(0, 0) == Some(c));
    assert(remaining(m, qs, 0, 0) is None);
    assert(qs.len() > 0);
    let q = qs[0];
    assert(greedy_step(m, qs.take(0), q));
    assert(qs.take(0) =~= Seq::<Quad>::empty());
    let e = Seq::<Quad>::empty();
    assert forall|u: int, v: int| in_slice(u, v) implies remaining(m, e, u, v) == Some(c) by {
        assert(!covered(e, u, v));
    }
    assert(remaining(m, e, q.u0 as int, q.v0 as int) == Some(q.cell));
    if q.v0 > 0 || q.u0 > 0 {
        assert(remaining(m, e, 0, 0) is None);
    }
    if q.u1 < 16 {
        assert(in_slice(q.u1 as int, q.v0 as int));
        assert(m(q.u1 as int, q.v0 as int) == Some(c));
        assert(remaining(m, e, q.u1 as int, q.v0 as int) == Some(c));
    }
    if q.v1 < 16 {
        let u = choose|u: int| q.u0 <= u < q.u1 && #[trigger] remaining(m, e, u, q.v1 as int) != Some(q.cell);
        assert(remaining(m, e, u, q.v1 as int) == Some(c));
    }
    if qs.len() > 1 {
        let q1 = qs[1];
        assert(greedy_step(m, qs.take(1), q1));
        assert(qs.take(1)[0] == q);
        assert(in_quad(q, q1.u0 as int, q1.v0 as int));
        assert(covered(qs.take(1), q1.u0 as int, q1.v0 as int));
        assert(remaining(m, qs.take(1), q1.u0 as int, q1.v0 as int) == Some(q1.cell));
    }
}

/// A slice with no exposed face gets no quad.
pub proof fn lemma_empty_slice_has_no_quads(m: spec_fn(int, int) -> Option<MaskCell>, qs: Seq<Quad>)
    requires
        greedy_cover(m, qs),
        forall|u: int, v: int| #![trigger m(u, v)] in_slice(u, v) ==> m(u, v) is None,
    ensures
        qs.len() == 0,
{
    if qs.len() > 0 {
        let q = qs[0];
        assert(greedy_step(m, qs.take(0), q));
        let e = Seq::<Quad>::empty();
        assert(qs.take(0) =~= e);
        assert(in_slice(q.u0 as int, q.v0 as int));
        assert(!covered(e, q.u0 as int, q.v0 as int));
        assert(remaining(m, e, q.u0 as int, q.v0 as int) == Some(q.cell));
    }
}

/// An all-air chunk meshes to nothing.
///
/// `quads` is any quad sequence with the guarantees of [`Chunk::build_mesh`].
pub proof fn lemma_air_chunk_has_no_quads(c: Chunk, quads: Seq<Quad>)
    requires
        forall|x: int, y: int, z: int| #![trigger c.block_at(x, y, z)] in_chunk(x, y, z) ==> c.block_at(x, y, z) is Air,
        forall|k: int| 0 <= k < quads.len() ==> (#[trigger] quads[k]).face < 6 && quads[k].slice < 16,
        forall|f: int, s: int|
            0 <= f < 6 && 0 <= s < 16 ==> greedy_cover(slice_mask(c, f, s), #[trigger] slice_quads(quads, f, s)),
    ensures
        quads.len() == 0,
{
    if quads.len() > 0 {
        let q = quads[0];
        let f = q.face as int;
        let s = q.slice as int;
        assert forall|u: int, v: int| #![trigger (slice_mask(c, f, s))(u, v)] in_slice(u, v) implies (slice_mask(c, f, s))(u, v) is None by {
            let cell = face_point(f, s, u, v);
            assert(c.block_at(cell.0, cell.1, cell.2) is Air);
        }
        assert(greedy_cover(slice_mask(c, f, s), slice_quads(quads, f, s)));
        lemma_empty_slice_has_no_quads(slice_mask(c, f, s), slice_quads(quads, f, s));
        quads.lemma_filter_contains(on_slice(f, s), 0);
    }
}

/// The chunk's outer shell is always drawn: a solid cell whose neighbour
/// across face `f` lies outside the chunk has that face in the mask.
pub proof fn lemma_shell_faces_visible(c: Chunk, f: int, s: int, u: int, v: int)
    requires
        0 <= f < 6,
        in_slice(s, u),
        in_slice(u, v),
        !(c.block_at(face_point(f, s, u, v).0, face_point(f, s, u, v).1, face_point(f, s, u, v).2) is Air),
        s + face_sign(f) < 0 || s + face_sign(f) >= 16,
    ensures
        face_mask_spec(c, f, s, u, v) is Some,
{
}

/// Each visible face of a chunk is drawn by exactly one quad of its mesh,
/// with the face's own block and corner AO; hidden faces are not drawn.
///
/// `quads` is any quad sequence with the guarantee of [`Chunk::build_mesh`].
pub proof fn lemma_each_visible_face_drawn_once(c: Chunk, quads: Seq<Quad>, f: int, s: int, u: int, v: int)
    requires
        forall|f2: int, s2: int|
            0 <= f2 < 6 && 0 <= s2 < 16 ==> greedy_cover(slice_mask(c, f2, s2), #[trigger] slice_quads(quads, f2, s2)),
        0 <= f < 6,
        0 <= s < 16,
        in_slice(u, v),
    ensures
        ({
            let qs = slice_quads(quads, f, s);
            &&& forall|k: int| 0 <= k < qs.len() && in_quad(#[trigger] qs[k], u, v) ==> face_mask_spec(c, f, s, u, v) == Some(qs[k].cell)
            &&& forall|k1: int, k2: int|
                0 <= k1 < qs.len() && 0 <= k2 < qs.len() && in_quad(#[trigger] qs[k1], u, v) && in_quad(#[trigger] qs[k2], u, v)
                    ==> k1 == k2
            &&& face_mask_spec(c, f, s, u, v) is Some ==> exists|k: int| 0 <= k < qs.len() && in_quad(#[trigger] qs[k], u, v)
        }),
{
    let qs = slice_quads(quads, f, s);
    assert(greedy_cover(slice_mask(c, f, s), qs));
    lemma_greedy_partition(slice_mask(c, f, s), qs, u, v);
}

/// Outward unit normal of face `f`: +X, -X, +Y, -Y, +Z, -Z.
pub open spec fn outward_normal(f: int) -> (int, int, int) {
    if f == 0 {
        (1, 0, 0)
    } else if f == 1 {
        (-1, 0, 0)
    } else if f == 2 {
        (0, 1, 0)
    } else if f == 3 {
        (0, -1, 0)
    } else if f == 4 {
        (0, 0, 1)
    } else {
        (0, 0, -1)
    }
}

/// The position of vertex `v` as integer coordinates.
pub open spec fn vertex_pos(v: MeshVertex) -> (int, int, int) {
    (v.position.x as int, v.position.y as int, v.position.z as int)
}

/// `a - b`, componentwise.
pub open spec fn sub3(a: (int, int, int), b: (int, int, int)) -> (int, int, int) {
    (a.0 - b.0, a.1 - b.1, a.2 - b.2)
}

/// The cross product `a x b`.
pub open spec fn cross3(a: (int, int, int), b: (int, int, int)) -> (int, int, int) {
    (a.1 * b.2 - a.2 * b.1, a.2 * b.0 - a.0 * b.2, a.0 * b.1 - a.1 * b.0)
}

/// The (unnormalised) normal `(p1 - p0) x (p2 - p0)` of triangle `p0 p1 p2`;
/// it points to the side from which the triangle is seen counter-clockwise.
pub open spec fn triangle_normal(p0: (int, int, int), p1: (int, int, int), p2: (int, int, int)) -> (int, int, int) {
    cross3(sub3(p1, p0), sub3(p2, p0))
}

/// The dot product `a . b`.
pub open spec fn dot3(a: (int, int, int), b: (int, int, int)) -> int {
    a.0 * b.0 + a.1 * b.1 + a.2 * b.2
}

/// Whether `c` is a strictly positive multiple of the unit axis vector `n`:
/// it points along `n`, with length `c . n > 0`.
pub open spec fn positive_multiple(c: (int, int, int), n: (int, int, int)) -> bool {
    let l = dot3(c, n);
    l > 0 && c == (l * n.0, l * n.1, l * n.2)
}

/// Vertex `i` of the mesh of `qs` is vertex `i % 4` of quad `i / 4`.
proof fn lemma_mesh_vertex_at(qs: Seq<Quad>, k: int, i: int)
    requires
        0 <= k < qs.len(),
        0 <= i < 4,
    ensures
        mesh_vertices(qs).len() == 4 * qs.len(),
        mesh_vertices(qs)[4 * k + i] == quad_vertex(qs[k], i),
    decreases qs.len(),
{
    lemma_mesh_lengths(qs);
    lemma_mesh_lengths(qs.drop_last());
    if k < qs.len() - 1 {
        lemma_mesh_vertex_at(qs.drop_last(), k, i);
        assert(qs.drop_last()[k] == qs[k]);
    }
}

/// Index `6k + j` of the mesh of `qs` is index `j` of quad `k`'s pair of
/// triangles, offset by the quad's first vertex `4k`.
proof fn lemma_mesh_index_at(qs: Seq<Quad>, k: int, j: int)
    requires
        0 <= k < qs.len(),
        0 <= j < 6,
    ensures
        mesh_indices(qs).len() == 6 * qs.len(),
        mesh_indices(qs)[6 * k + j] == quad_indices(4 * k, qs[k].cell.ao)[j],
    decreases qs.len(),
{
    lemma_mesh_lengths(qs);
    lemma_mesh_lengths(qs.drop_last());
    if k < qs.len() - 1 {
        lemma_mesh_index_at(qs.drop_last(), k, j);
        assert(qs.drop_last()[k] == qs[k]);
    }
}

/// Triangle `t` of quad `q`, taken through local vertex numbers `0..4`,
/// faces outwards.
proof fn lemma_quad_triangle_outward(q: Quad, t: int)
    requires
        quad_in_range(q),
        0 <= t < 2,
    ensures
        ({
            let idx = quad_indices(0, q.cell.ao);
            &&& 0 <= idx[3 * t] < 4
            &&& 0 <= idx[3 * t + 1] < 4
            &&& 0 <= idx[3 * t + 2] < 4
            &&& positive_multiple(
                triangle_normal(
                    vertex_pos(quad_vertex(q, idx[3 * t] as int)),
                    vertex_pos(quad_vertex(q, idx[3 * t + 1] as int)),
                    vertex_pos(quad_vertex(q, idx[3 * t + 2] as int)),
                ),
                outward_normal(q.face as int),
            )
        }),
{
    let f = q.face as int;
    let ao = q.cell.ao;
    let flip = (ao[0] as int + ao[2] as int) < (ao[1] as int + ao[3] as int);
    let du: int = q.u1 - q.u0;
    let dv: int = q.v1 - q.v0;
    let l: int = du * dv;
    assert(l > 0) by (nonlinear_arith)
        requires du > 0, dv > 0, l == du * dv;
    let idx = quad_indices(0, ao);
    let p0 = vertex_pos(quad_vertex(q, idx[3 * t] as int));
    let p1 = vertex_pos(quad_vertex(q, idx[3 * t + 1] as int));
    let p2 = vertex_pos(quad_vertex(q, idx[3 * t + 2] as int));
    let d1 = sub3(p1, p0);
    let d2 = sub3(p2, p0);
    let n = outward_normal(f);
    // By face, diagonal and triangle: both edge vectors lie in the face
    // plane as steps of `du` along u and `dv` along v.
    if f == 0 {
        if flip {
            if t == 0 {
                assert(cross3(d1, d2) == (l, 0int, 0int)) by (nonlinear_arith)
                    requires d1 == (0int, 0int, -dv), d2 == (0int, du, 0int), l == du * dv;
            } else {
                assert(cross3(d1, d2) == (l, 0int, 0int)) by (nonlinear_arith)
                    requires d1 == (0int, du, 0int), d2 == (0int, du, dv), l == du * dv;
            }
        } else {
            if t == 0 {
                assert(cross3(d1, d2) == (l, 0int, 0int)) by (nonlinear_arith)
                    requires d1 == (0int, 0int, -dv), d2 == (0int, du, -dv), l == du * dv;
            } else {
                assert(cross3(d1, d2) == (l, 0int, 0int)) by (nonlinear_arith)
                    requires d1 == (0int, du, -dv), d2 == (0int, du, 0int), l == du * dv;
            }
        }
        assert(positive_multiple(cross3(d1, d2), n)) by (nonlinear_arith)
            requires cross3(d1, d2) == (l, 0int, 0int), n == (1int, 0int, 0int), l > 0;
    } else if f == 1 {
        if flip {
            if t == 0 {
                assert(cross3(d1, d2) == (-l, 0int, 0int)) by (nonlinear_arith)
                    requires d1 == (0int, 0int, dv), d2 == (0int, du, 0int), l == du * dv;
            } else {
                assert(cross3(d1, d2) == (-l, 0int, 0int)) by (nonlinear_arith)
                    requires d1 == (0int, du, 0int), d2 == (0int, du, -dv), l == du * dv;
            }
        } else {
            if t == 0 {
                assert(cross3(d1, d2) == (-l, 0int, 0int)) by (nonlinear_arith)
                    requires d1 == (0int, 0int, dv), d2 == (0int, du, dv), l == du * dv;
            } else {
                assert(cross3(d1, d2) == (-l, 0int, 0int)) by (nonlinear_arith)
                    requires d1 == (0int, du, dv), d2 == (0int, du, 0int), l == du * dv;
            }
        }
        assert(positive_multiple(cross3(d1, d2), n)) by (nonlinear_arith)
            requires cross3(d1, d2) == (-l, 0int, 0int), n == (-1int, 0int, 0int), l > 0;
    } else if f == 2 {
        if flip {
            if t == 0 {
                assert(cross3(d1, d2) == (0int, l, 0int)) by (nonlinear_arith)
                    requires d1 == (du, 0int, 0int), d2 == (0int, 0int, -dv), l == du * dv;
            } else {
                assert(cross3(d1, d2) == (0int, l, 0int)) by (nonlinear_arith)
                    requires d1 == (0int, 0int, -dv), d2 == (-du, 0int, -dv), l == du * dv;
            }
        } else {
            if t == 0 {
                assert(cross3(d1, d2) == (0int, l, 0int)) by (nonlinear_arith)
                    requires d1 == (du, 0int, 0int), d2 == (du, 0int, -dv), l == du * dv;
            } else {
                assert(cross3(d1, d2) == (0int, l, 0int)) by (nonlinear_arith)
                    requires d1 == (du, 0int, -dv), d2 == (0int, 0int, -dv), l == du * dv;
            }
        }
        assert(positive_multiple(cross3(d1, d2), n)) by (nonlinear_arith)
            requires cross3(d1, d2) == (0int, l, 0int), n == (0int, 1int, 0int), l > 0;
    } else if f == 3 {
        if flip {
            if t == 0 {
                assert(cross3(d1, d2) == (0int, -l, 0int)) by (nonlinear_arith)
                    requires d1 == (du, 0int, 0int), d2 == (0int, 0int, dv), l == du * dv;
            } else {
                assert(cross3(d1, d2) == (0int, -l, 0int)) by (nonlinear_arith)
                    requires d1 == (0int, 0int, dv), d2 == (-du, 0int, dv), l == du * dv;
            }
        } else {
            if t == 0 {
                assert(cross3(d1, d2) == (0int, -l, 0int)) by (nonlinear_arith)
                    requires d1 == (du, 0int, 0int), d2 == (du, 0int, dv), l == du * dv;
            } else {
                assert(cross3(d1, d2) == (0int, -l, 0int)) by (nonlinear_arith)
                    requires d1 == (du, 0int, dv), d2 == (0int, 0int, dv), l == du * dv;
            }
        }
        assert(positive_multiple(cross3(d1, d2), n)) by (nonlinear_arith)
            requires cross3(d1, d2) == (0int, -l, 0int), n == (0int, -1int, 0int), l > 0;
    } else if f == 4 {
        if flip {
            if t == 0 {
                assert(cross3(d1, d2) == (0int, 0int, l)) by (nonlinear_arith)
                    requires d1 == (du, 0int, 0int), d2 == (0int, dv, 0int), l == du * dv;
            } else {
                assert(cross3(d1, d2) == (0int, 0int, l)) by (nonlinear_arith)
                    requires d1 == (0int, dv, 0int), d2 == (-du, dv, 0int), l == du * dv;
            }
        } else {
            if t == 0 {
                assert(cross3(d1, d2) == (0int, 0int, l)) by (nonlinear_arith)
                    requires d1 == (du, 0int, 0int), d2 == (du, dv, 0int), l == du * dv;
            } else {
                assert(cross3(d1, d2) == (0int, 0int, l)) by (nonlinear_arith)
                    requires d1 == (du, dv, 0int), d2 == (0int, dv, 0int), l == du * dv;
            }
        }
        assert(positive_multiple(cross3(d1, d2), n)) by (nonlinear_arith)
            requires cross3(d1, d2) == (0int, 0int, l), n == (0int, 0int, 1int), l > 0;
    } else {
        if flip {
            if t == 0 {
                assert(cross3(d1, d2) == (0int, 0int, -l)) by (nonlinear_arith)
                    requires d1 == (-du, 0int, 0int), d2 == (0int, dv, 0int), l == du * dv;
            } else {
                assert(cross3(d1, d2) == (0int, 0int, -l)) by (nonlinear_arith)
                    requires d1 == (0int, dv, 0int), d2 == (du, dv, 0int), l == du * dv;
            }
        } else {
            if t == 0 {
                assert(cross3(d1, d2) == (0int, 0int, -l)) by (nonlinear_arith)
                    requires d1 == (-du, 0int, 0int), d2 == (-du, dv, 0int), l == du * dv;
            } else {
                assert(cross3(d1, d2) == (0int, 0int, -l)) by (nonlinear_arith)
                    requires d1 == (-du, dv, 0int), d2 == (0int, dv, 0int), l == du * dv;
            }
        }
        assert(positive_multiple(cross3(d1, d2), n)) by (nonlinear_arith)
            requires cross3(d1, d2) == (0int, 0int, -l), n == (0int, 0int, -1int), l > 0;
    }
}

/// Every triangle of a well-formed chunk mesh (such as the one
/// [`Chunk::build_mesh`] returns) is made of three vertices of its own quad
/// and is wound counter-clockwise seen from outside the block: the normal
/// `(p1 - p0) x (p2 - p0)` of its vertex positions is a positive multiple of
/// the outward normal of the quad's face, so back-face culling keeps it.
pub proof fn lemma_mesh_triangles_face_outward(m: ChunkMesh, k: int, t: int)
    requires
        m.wf(),
        0 <= k < m.quads@.len(),
        0 <= t < 2,
    ensures
        6 * k + 6 <= m.indices@.len(),
        ({
            let i0 = m.indices@[6 * k + 3 * t] as int;
            let i1 = m.indices@[6 * k + 3 * t + 1] as int;
            let i2 = m.indices@[6 * k + 3 * t + 2] as int;
            &&& 4 * k <= i0 < 4 * k + 4
            &&& 4 * k <= i1 < 4 * k + 4
            &&& 4 * k <= i2 < 4 * k + 4
            &&& i0 != i1 && i1 != i2 && i0 != i2
            &&& positive_multiple(
                triangle_normal(vertex_pos(m.vertices@[i0]), vertex_pos(m.vertices@[i1]), vertex_pos(m.vertices@[i2])),
                outward_normal(m.quads@[k].face as int),
            )
        }),
{
    let qs = m.quads@;
    let q = qs[k];
    assert(quad_in_range(q));
    lemma_quad_triangle_outward(q, t);
    let idx = quad_indices(0, q.cell.ao);
    lemma_mesh_index_at(qs, k, 3 * t);
    lemma_mesh_index_at(qs, k, 3 * t + 1);
    lemma_mesh_index_at(qs, k, 3 * t + 2);
    assert(4 * k + 4 <= 4 * MAX_QUADS);
    lemma_mesh_vertex_at(qs, k, idx[3 * t] as int);
    lemma_mesh_vertex_at(qs, k, idx[3 * t + 1] as int);
    lemma_mesh_vertex_at(qs, k, idx[3 * t + 2] as int);
}

} // verus!
