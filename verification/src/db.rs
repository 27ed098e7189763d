//! Rules for the seed contents of the block database: which block-type id
//! each cell of the starting chunk gets.

use vstd::prelude::*;

verus! {

/// Block-type id of air in the seed tables.
pub const AIR_ID: i32 = 1;

/// Block-type id of sand in the seed tables.
pub const SAND_ID: i32 = 4;

/// Block-type id of coral in the seed tables.
pub const CORAL_ID: i32 = 5;

/// Block-type id of seaweed in the seed tables.
pub const SEAWEED_ID: i32 = 6;

/// Id first written for a seed cell at height `y`: a sand floor at the
/// bottom layer, air above it.
pub fn base_block_id(y: i32) -> (id: i32)
    ensures
        id == if y == 0 {
            SAND_ID
        } else {
            AIR_ID
        },
{
    if y == 0 {
        SAND_ID
    } else {
        AIR_ID
    }
}

/// Whether seed column `(x, z)` carries a coral/seaweed stack: every
/// fourth column along each axis, starting at 0.
pub fn is_stack_column(x: i32, z: i32) -> (r: bool)
    requires
        0 <= x,
        0 <= z,
    ensures
        r == (x % 4 == 0 && z % 4 == 0),
{
    x % 4 == 0 && z % 4 == 0
}

/// Id of the stack cell at height `y` (heights 1 to 3): coral on even
/// heights, seaweed on odd ones.
pub fn stack_block_id(y: i32) -> (id: i32)
    requires
        0 <= y,
    ensures
        id == if y % 2 == 0 {
            CORAL_ID
        } else {
            SEAWEED_ID
        },
{
    if y % 2 == 0 {
        CORAL_ID
    } else {
        SEAWEED_ID
    }
}

/// The id a seeded cell ends with: stack columns hold their stack at
/// heights 1 to 3, every other cell keeps its base id.
pub open spec fn seeded_id(x: int, y: int, z: int) -> i32 {
    if x % 4 == 0 && z % 4 == 0 && 1 <= y < 4 {
        if y % 2 == 0 {
            CORAL_ID
        } else {
            SEAWEED_ID
        }
    } else if y == 0 {
        SAND_ID
    } else {
        AIR_ID
    }
}

/// The id of seed cell `(x, y, z)` once the stacks are written.
pub fn seed_block_id(x: i32, y: i32, z: i32) -> (id: i32)
    requires
        0 <= x,
        0 <= y,
        0 <= z,
    ensures
        id == seeded_id(x as int, y as int, z as int),
{
    if is_stack_column(x, z) && 1 <= y && y < 4 {
        stack_block_id(y)
    } else {
        base_block_id(y)
    }
}

/// The seeded starting chunk: sand at height 0, and in every fourth column
/// along each axis a stack of seaweed at height 1, coral at 2 and seaweed at
/// 3; every other cell is air.
pub proof fn lemma_seed_layout(x: int, y: int, z: int)
    requires
        0 <= x,
        0 <= y,
        0 <= z,
    ensures
        y == 0 ==> seeded_id(x, y, z) == 4,
        x % 4 == 0 && z % 4 == 0 && y == 1 ==> seeded_id(x, y, z) == 6,
        x % 4 == 0 && z % 4 == 0 && y == 2 ==> seeded_id(x, y, z) == 5,
        x % 4 == 0 && z % 4 == 0 && y == 3 ==> seeded_id(x, y, z) == 6,
        y >= 4 ==> seeded_id(x, y, z) == 1,
        !(x % 4 == 0 && z % 4 == 0) && y >= 1 ==> seeded_id(x, y, z) == 1,
{
}

} // verus!
