//! Voxel block definitions.

use vstd::prelude::*;

verus! {

/// A single cube in the voxel grid.
#[derive(Clone, Copy, Debug, PartialEq, Eq, Structural)]
pub enum BlockType {
    /// Empty space: flooded water below the surface, never rendered.
    Air,
    /// Compacted seafloor rock.
    Stone,
    /// Sandy seabed, the topmost layer in most places.
    Sand,
    /// Darker sediment found between sand and stone.
    Dirt,
    /// Lively coral outcrop.
    Coral,
    /// Kelp: a green, slightly translucent column that marks a plant.
    Kelp,
}

/// Whether a block fills its cube and hides the faces of its neighbours.
pub open spec fn block_is_opaque(b: BlockType) -> bool {
    !(b is Air || b is Kelp)
}

impl BlockType {
    /// Whether the block occupies the full cube and hides neighbour faces.
    pub fn is_opaque(self) -> (r: bool)
        ensures
            r == block_is_opaque(self),
    {
        match self {
            BlockType::Air | BlockType::Kelp => false,
            _ => true,
        }
    }

    /// Whether the block is empty (renders no geometry of its own).
    pub fn is_air(self) -> (r: bool)
        ensures
            r == (self is Air),
    {
        match self {
            BlockType::Air => true,
            _ => false,
        }
    }
}

} // verus!
