//! Chunks: fixed-size 3D arrays of blocks, and column-driven generation.

use vstd::prelude::*;

use crate::blocks::{BlockType, block_is_opaque};
use crate::coords::IVec3;

verus! {

/// Edge length of a chunk, in blocks.
pub const CHUNK_SIZE: usize = 16;

/// Number of cells in a chunk.
pub const CHUNK_VOLUME: usize = CHUNK_SIZE * CHUNK_SIZE * CHUNK_SIZE;

/// Number of columns (x, z pairs) in a chunk.
pub const CHUNK_COLUMNS: usize = CHUNK_SIZE * CHUNK_SIZE;

/// Flat index of cell `(x, y, z)`, laid out as `blocks[x][y][z]`: z varies
/// fastest, then y, then x.
pub open spec fn cell_index(x: int, y: int, z: int) -> int {
    (x * 16 + y) * 16 + z
}

/// Flat index of column `(x, z)` in per-column inputs.
pub open spec fn column_index(x: int, z: int) -> int {
    x + 16 * z
}

/// Whether `(x, y, z)` lies inside a chunk.
pub open spec fn in_chunk(x: int, y: int, z: int) -> bool {
    0 <= x < 16 && 0 <= y < 16 && 0 <= z < 16
}

/// The block the generator places at world height `wy` in a column whose
/// seabed surface is at `seabed`; `coral_top` says whether the column's
/// surface cell is decorated with coral.
pub open spec fn pick_block_spec(wy: int, seabed: int, coral_top: bool) -> BlockType {
    if wy > seabed {
        BlockType::Air
    } else if wy == seabed {
        if coral_top {
            BlockType::Coral
        } else {
            BlockType::Sand
        }
    } else if wy >= seabed - 2 {
        BlockType::Sand
    } else if wy >= seabed - 4 {
        BlockType::Dirt
    } else {
        BlockType::Stone
    }
}

/// A fixed-size 3D grid of blocks.
#[derive(Clone, Debug)]
pub struct Chunk {
    /// Block data, indexed as `blocks[x][y][z]`: cell `(x, y, z)` is at
    /// `(x * CHUNK_SIZE + y) * CHUNK_SIZE + z`.
    pub blocks: Vec<BlockType>,
}

impl Chunk {
    /// The block stored for cell `(x, y, z)`.
    pub open spec fn block_at(self, x: int, y: int, z: int) -> BlockType {
        self.blocks@[cell_index(x, y, z)]
    }

    /// Whether `(x, y, z)` is inside this chunk and holds an opaque block.
    pub open spec fn opaque_at(self, x: int, y: int, z: int) -> bool {
        in_chunk(x, y, z) && block_is_opaque(self.block_at(x, y, z))
    }

    /// Whether the chunk holds a full grid of cells.
    pub open spec fn full(self) -> bool {
        self.blocks@.len() >= CHUNK_VOLUME
    }

    /// An empty (all-air) chunk.
    pub fn empty() -> (c: Chunk)
        ensures
            c.blocks@.len() == CHUNK_VOLUME,
            forall|i: int| 0 <= i < CHUNK_VOLUME ==> #[trigger] c.blocks@[i] == BlockType::Air,
    {
        let mut blocks: Vec<BlockType> = Vec::new();
        let mut i: usize = 0;
        while i < CHUNK_VOLUME
            invariant
                i <= CHUNK_VOLUME,
                blocks@.len() == i,
                forall|j: int| 0 <= j < i ==> #[trigger] blocks@[j] == BlockType::Air,
            decreases CHUNK_VOLUME - i,
        {
            blocks.push(BlockType::Air);
            i = i + 1;
        }
        Chunk { blocks }
    }

    /// Generate a chunk of the underwater world from its columns.
    ///
    /// `chunk_pos` is the chunk's coordinate in the chunk grid. For the
    /// column `(x, z)`, `seabed[x + 16 * z]` is the world height of the
    /// seabed surface and `coral[x + 16 * z]` says whether that surface
    /// cell carries coral.
    pub fn generate(chunk_pos: IVec3, seabed: &Vec<i32>, coral: &Vec<bool>) -> (c: Chunk)
        requires
            seabed@.len() == CHUNK_COLUMNS,
            coral@.len() == CHUNK_COLUMNS,
            forall|i: int| 0 <= i < CHUNK_COLUMNS ==> #[trigger] seabed@[i] >= i32::MIN + 4,
            i32::MIN <= chunk_pos.y * 16,
            chunk_pos.y * 16 + 15 <= i32::MAX,
        ensures
            c.blocks@.len() == CHUNK_VOLUME,
            forall|x: int, y: int, z: int|
                #![trigger c.block_at(x, y, z)]
                in_chunk(x, y, z) ==> c.block_at(x, y, z) == pick_block_spec(
                    chunk_pos.y * 16 + y,
                    seabed@[column_index(x, z)] as int,
                    coral@[column_index(x, z)],
                ),
    {
        let mut blocks: Vec<BlockType> = Vec::new();
        let base_y: i32 = chunk_pos.y * 16;
        let mut x: usize = 0;
        while x < CHUNK_SIZE
            invariant
                x <= 16,
                base_y == chunk_pos.y * 16,
                base_y + 15 <= i32::MAX,
                seabed@.len() == CHUNK_COLUMNS,
                coral@.len() == CHUNK_COLUMNS,
                forall|i: int| 0 <= i < CHUNK_COLUMNS ==> #[trigger] seabed@[i] >= i32::MIN + 4,
                blocks@.len() == 256 * x,
                forall|xx: int, y: int, z: int|
                    #![trigger cell_index(xx, y, z)]
                    in_chunk(xx, y, z) && xx < x ==> blocks@[cell_index(xx, y, z)]
                        == pick_block_spec(
                        base_y + y,
                        seabed@[column_index(xx, z)] as int,
                        coral@[column_index(xx, z)],
                    ),
            decreases 16 - x,
        {
            let mut y: usize = 0;
            while y < CHUNK_SIZE
                invariant
                    x < 16,
                    y <= 16,
                    base_y == chunk_pos.y * 16,
                    base_y + 15 <= i32::MAX,
                    seabed@.len() == CHUNK_COLUMNS,
                    coral@.len() == CHUNK_COLUMNS,
                    forall|i: int| 0 <= i < CHUNK_COLUMNS ==> #[trigger] seabed@[i] >= i32::MIN + 4,
                    blocks@.len() == 256 * x + 16 * y,
                    forall|xx: int, yy: int, z: int|
                        #![trigger cell_index(xx, yy, z)]
                        in_chunk(xx, yy, z) && (xx < x || (xx == x && yy < y))
                            ==> blocks@[cell_index(xx, yy, z)] == pick_block_spec(
                            base_y + yy,
                            seabed@[column_index(xx, z)] as int,
                            coral@[column_index(xx, z)],
                        ),
                decreases 16 - y,
            {
                let mut z: usize = 0;
                while z < CHUNK_SIZE
                    invariant
                        x < 16,
                        y < 16,
                        z <= 16,
                        base_y == chunk_pos.y * 16,
                        base_y + 15 <= i32::MAX,
                        seabed@.len() == CHUNK_COLUMNS,
                        coral@.len() == CHUNK_COLUMNS,
                        forall|i: int| 0 <= i < CHUNK_COLUMNS ==> #[trigger] seabed@[i] >= i32::MIN + 4,
                        blocks@.len() == 256 * x + 16 * y + z,
                        forall|xx: int, yy: int, zz: int|
                            #![trigger cell_index(xx, yy, zz)]
                            in_chunk(xx, yy, zz) && (xx < x || (xx == x && yy < y) || (xx == x
                                && yy == y && zz < z)) ==> blocks@[cell_index(xx, yy, zz)]
                                == pick_block_spec(
                                base_y + yy,
                                seabed@[column_index(xx, zz)] as int,
                                coral@[column_index(xx, zz)],
                            ),
                    decreases 16 - z,
                {
                    let col = x + CHUNK_SIZE * z;
                    let wy: i32 = base_y + y as i32;
                    let block = pick_block(wy, seabed[col], coral[col]);
                    proof {
                        assert(cell_index(x as int, y as int, z as int) == blocks@.len());
                    }
                    blocks.push(block);
                    z = z + 1;
                }
                y = y + 1;
            }
            x = x + 1;
        }
        let c = Chunk { blocks };
        assert forall|x: int, y: int, z: int| #![trigger c.block_at(x, y, z)] in_chunk(x, y, z)
            implies c.block_at(x, y, z) == pick_block_spec(
            chunk_pos.y * 16 + y,
            seabed@[column_index(x, z)] as int,
            coral@[column_index(x, z)],
        ) by {
            assert(c.blocks@[cell_index(x, y, z)] == blocks@[cell_index(x, y, z)]);
        }
        c
    }

    /// Flat index of `(x, y, z)` into `blocks`.
    fn idx(x: usize, y: usize, z: usize) -> (i: usize)
        requires
            cell_index(x as int, y as int, z as int) <= usize::MAX,
        ensures
            i == cell_index(x as int, y as int, z as int),
    {
        (x * CHUNK_SIZE + y) * CHUNK_SIZE + z
    }

    /// The block at `(x, y, z)`.
    pub fn get(&self, x: usize, y: usize, z: usize) -> (b: BlockType)
        requires
            cell_index(x as int, y as int, z as int) < self.blocks@.len(),
        ensures
            b == self.block_at(x as int, y as int, z as int),
    {
        let len = self.blocks.len();
        assert(cell_index(x as int, y as int, z as int) < len);
        self.blocks[Self::idx(x, y, z)]
    }

    /// Overwrite the block at `(x, y, z)`.
    pub fn set(&mut self, x: usize, y: usize, z: usize, block: BlockType)
        requires
            cell_index(x as int, y as int, z as int) < old(self).blocks@.len(),
        ensures
            final(self).blocks@ == old(self).blocks@.update(
                cell_index(x as int, y as int, z as int),
                block,
            ),
    {
        let len = self.blocks.len();
        assert(cell_index(x as int, y as int, z as int) < len);
        let i = Self::idx(x, y, z);
        self.blocks.set(i, block);
    }

    /// Whether the cell at `(x, y, z)` is inside this chunk and opaque.
    /// Out-of-chunk cells are treated as non-opaque, so the outer shell of
    /// a chunk always renders and is not darkened by missing neighbours.
    pub fn is_opaque_at(&self, x: i32, y: i32, z: i32) -> (r: bool)
        requires
            self.full(),
        ensures
            r == self.opaque_at(x as int, y as int, z as int),
    {
        let size: i32 = CHUNK_SIZE as i32;
        if 0 <= x && x < size && 0 <= y && y < size && 0 <= z && z < size {
            self.get(x as usize, y as usize, z as usize).is_opaque()
        } else {
            false
        }
    }
}

/// Pick which block belongs at world height `wy` of a column whose seabed
/// surface is at `seabed`; `coral_top` decorates the surface cell with coral.
pub fn pick_block(wy: i32, seabed: i32, coral_top: bool) -> (b: BlockType)
    requires
        seabed >= i32::MIN + 4,
    ensures
        b == pick_block_spec(wy as int, seabed as int, coral_top),
{
    if wy > seabed {
        return BlockType::Air;
    }
    if wy == seabed {
        if coral_top {
            return BlockType::Coral;
        }
        return BlockType::Sand;
    }
    if wy >= seabed - 2 {
        return BlockType::Sand;
    }
    if wy >= seabed - 4 {
        return BlockType::Dirt;
    }
    BlockType::Stone
}

/// The seabed layering: air above the surface; at the surface coral where
/// decorated and sand otherwise; sand in the two cells below the surface;
/// dirt in the two cells below those; stone further down. The coral flag
/// matters only at the surface cell.
pub proof fn lemma_seabed_layers(wy: int, seabed: int, coral_top: bool)
    ensures
        wy > seabed ==> pick_block_spec(wy, seabed, coral_top) == BlockType::Air,
        wy == seabed && coral_top ==> pick_block_spec(wy, seabed, coral_top) == BlockType::Coral,
        wy == seabed && !coral_top ==> pick_block_spec(wy, seabed, coral_top) == BlockType::Sand,
        seabed - 2 <= wy < seabed ==> pick_block_spec(wy, seabed, coral_top) == BlockType::Sand,
        seabed - 4 <= wy < seabed - 2 ==> pick_block_spec(wy, seabed, coral_top) == BlockType::Dirt,
        wy < seabed - 4 ==> pick_block_spec(wy, seabed, coral_top) == BlockType::Stone,
        wy != seabed ==> pick_block_spec(wy, seabed, true) == pick_block_spec(wy, seabed, false),
{
}

} // verus!
