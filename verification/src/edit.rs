//! Player-driven block editing decisions: what the held block is, what a
//! click breaks or places, and the hotbar label.

use vstd::prelude::*;

use crate::blocks::BlockType;
use crate::coords::IVec3;
use crate::inventory::{HOTBAR_SLOTS, last_pressed};

verus! {

/// The block type the player will place on right-click.
#[derive(Clone, Copy, Debug)]
pub struct SelectedBlock(pub BlockType);

impl Default for SelectedBlock {
    fn default() -> (s: Self)
        ensures
            s.0 == BlockType::Stone,
    {
        SelectedBlock(BlockType::Stone)
    }
}

/// The result of a successful voxel raycast.
#[derive(Clone, Copy, Debug)]
pub struct Target {
    /// World-space coordinate of the hit block.
    pub world_block: IVec3,
    /// Outward-pointing normal of the face the ray entered through (zero
    /// when the ray started inside the block). Adding it to `world_block`
    /// gives the cell a placed block would occupy.
    pub face_normal: IVec3,
}

/// The block currently under the crosshair, if any.
#[derive(Clone, Copy, Debug)]
pub struct TargetedBlock(pub Option<Target>);

impl Default for TargetedBlock {
    fn default() -> (t: Self)
        ensures
            t.0 is None,
    {
        TargetedBlock(None)
    }
}

/// The block held by hotbar key `i` (key `i + 1`).
pub open spec fn hotbar_block_spec(i: int) -> BlockType {
    if i == 0 {
        BlockType::Stone
    } else if i == 1 {
        BlockType::Sand
    } else if i == 2 {
        BlockType::Dirt
    } else if i == 3 {
        BlockType::Coral
    } else {
        BlockType::Kelp
    }
}

/// The block held by hotbar key `i` (key `i + 1`).
pub fn hotbar_block(i: usize) -> (b: BlockType)
    requires
        i < HOTBAR_SLOTS,
    ensures
        b == hotbar_block_spec(i as int),
{
    match i {
        0 => BlockType::Stone,
        1 => BlockType::Sand,
        2 => BlockType::Dirt,
        3 => BlockType::Coral,
        _ => BlockType::Kelp,
    }
}

/// Hold the block of the hotbar key just pressed; when several were, the
/// highest-numbered key wins, and with none the held block stays.
pub fn cycle_selected_block(selected: &mut SelectedBlock, just_pressed: [bool; HOTBAR_SLOTS])
    ensures
        last_pressed(just_pressed@, -1) == -1 ==> final(selected).0 == old(selected).0,
        last_pressed(just_pressed@, -1) != -1 ==> final(selected).0 == hotbar_block_spec(last_pressed(just_pressed@, -1)),
{
    let mut i: usize = 0;
    while i < HOTBAR_SLOTS
        invariant
            i <= HOTBAR_SLOTS,
            last_pressed(just_pressed@.take(i as int), -1) == -1 ==> selected.0 == old(selected).0,
            last_pressed(just_pressed@.take(i as int), -1) != -1 ==> selected.0 == hotbar_block_spec(
                last_pressed(just_pressed@.take(i as int), -1),
            ),
            -1 <= last_pressed(just_pressed@.take(i as int), -1) < i,
        decreases HOTBAR_SLOTS - i,
    {
        proof {
            assert(just_pressed@.take(i + 1).drop_last() =~= just_pressed@.take(i as int));
        }
        if just_pressed[i] {
            selected.0 = hotbar_block(i);
        }
        i = i + 1;
    }
    assert(just_pressed@.take(HOTBAR_SLOTS as int) =~= just_pressed@);
}

/// The block write a click asks for: `(cell, block)`.
///
/// Edits happen only when the cursor was already locked on the previous
/// frame (so the grabbing click does not also edit); `was_locked` carries
/// that state across frames. A left click breaks the targeted block; a
/// right click places the held block against the targeted face, but never
/// inside the targeted cell itself.
pub open spec fn edit_spec(
    locked: bool,
    was_locked: bool,
    target: Option<Target>,
    left: bool,
    right: bool,
    held: BlockType,
) -> Option<(IVec3, BlockType)> {
    if !(locked && was_locked) {
        None
    } else {
        match target {
            None => None,
            Some(t) => if left {
                Some((t.world_block, BlockType::Air))
            } else if right && t.face_normal != (IVec3 { x: 0, y: 0, z: 0 }) {
                Some((
                    IVec3 {
                        x: (t.world_block.x + t.face_normal.x) as i32,
                        y: (t.world_block.y + t.face_normal.y) as i32,
                        z: (t.world_block.z + t.face_normal.z) as i32,
                    },
                    held,
                ))
            } else {
                None
            },
        }
    }
}

/// Whether `a + b` fits in `i32` on every axis.
pub open spec fn add_fits(a: IVec3, b: IVec3) -> bool {
    &&& i32::MIN <= a.x + b.x <= i32::MAX
    &&& i32::MIN <= a.y + b.y <= i32::MAX
    &&& i32::MIN <= a.z + b.z <= i32::MAX
}

/// Decide this frame's block edit from the cursor lock state, the target
/// under the crosshair and the mouse buttons just pressed; updates
/// `was_locked` to this frame's lock state.
pub fn edit_blocks(
    locked: bool,
    was_locked: &mut bool,
    target: Option<Target>,
    left: bool,
    right: bool,
    held: BlockType,
) -> (r: Option<(IVec3, BlockType)>)
    requires
        target matches Some(t) ==> (locked && *old(was_locked) && !left && right ==> add_fits(t.world_block, t.face_normal)),
    ensures
        r == edit_spec(locked, *old(was_locked), target, left, right, held),
        *final(was_locked) == locked,
{
    let should_act = locked && *was_locked;
    *was_locked = locked;
    if !should_act {
        return None;
    }
    match target {
        None => None,
        Some(t) => {
            if left {
                Some((t.world_block, BlockType::Air))
            } else if right {
                let place = IVec3 {
                    x: t.world_block.x + t.face_normal.x,
                    y: t.world_block.y + t.face_normal.y,
                    z: t.world_block.z + t.face_normal.z,
                };
                if t.face_normal != (IVec3 { x: 0, y: 0, z: 0 }) {
                    Some((place, held))
                } else {
                    None
                }
            } else {
                None
            }
        },
    }
}

/// The hotbar label shown while `block` is held.
pub fn hotbar_label_text(block: BlockType) -> (s: String)
    ensures
        s@ == match block {
            BlockType::Air => "Hold: Air   (1 Stone  2 Sand  3 Dirt  4 Coral  5 Kelp)"@,
            BlockType::Stone => "Hold: Stone   (1 Stone  2 Sand  3 Dirt  4 Coral  5 Kelp)"@,
            BlockType::Sand => "Hold: Sand   (1 Stone  2 Sand  3 Dirt  4 Coral  5 Kelp)"@,
            BlockType::Dirt => "Hold: Dirt   (1 Stone  2 Sand  3 Dirt  4 Coral  5 Kelp)"@,
            BlockType::Coral => "Hold: Coral   (1 Stone  2 Sand  3 Dirt  4 Coral  5 Kelp)"@,
            BlockType::Kelp => "Hold: Kelp   (1 Stone  2 Sand  3 Dirt  4 Coral  5 Kelp)"@,
        },
{
    match block {
        BlockType::Air => "Hold: Air   (1 Stone  2 Sand  3 Dirt  4 Coral  5 Kelp)".to_owned(),
        BlockType::Stone => "Hold: Stone   (1 Stone  2 Sand  3 Dirt  4 Coral  5 Kelp)".to_owned(),
        BlockType::Sand => "Hold: Sand   (1 Stone  2 Sand  3 Dirt  4 Coral  5 Kelp)".to_owned(),
        BlockType::Dirt => "Hold: Dirt   (1 Stone  2 Sand  3 Dirt  4 Coral  5 Kelp)".to_owned(),
        BlockType::Coral => "Hold: Coral   (1 Stone  2 Sand  3 Dirt  4 Coral  5 Kelp)".to_owned(),
        BlockType::Kelp => "Hold: Kelp   (1 Stone  2 Sand  3 Dirt  4 Coral  5 Kelp)".to_owned(),
    }
}

/// A click edits only when the cursor was locked on this and the previous
/// frame and a block is targeted. A left click writes air into the targeted
/// cell; otherwise a right click writes the held block into the cell next to
/// the hit face (target plus face normal, on every axis), which is never the
/// targeted cell itself; a zero normal places nothing.
pub proof fn lemma_edit_writes(
    locked: bool,
    was_locked: bool,
    target: Option<Target>,
    left: bool,
    right: bool,
    held: BlockType,
)
    requires
        target matches Some(t) ==> add_fits(t.world_block, t.face_normal),
    ensures
        edit_spec(locked, was_locked, target, left, right, held) is Some <==> (locked && was_locked && target is Some
            && (left || (right && (target->0.face_normal.x != 0 || target->0.face_normal.y != 0
            || target->0.face_normal.z != 0)))),
        edit_spec(locked, was_locked, target, left, right, held) matches Some(w) ==> ({
            let t = target->0;
            &&& left ==> w.0 == t.world_block && w.1 == BlockType::Air
            &&& !left ==> w.0.x == t.world_block.x + t.face_normal.x && w.0.y == t.world_block.y
                + t.face_normal.y && w.0.z == t.world_block.z + t.face_normal.z && w.1 == held
                && w.0 != t.world_block
        }),
{
}

} // verus!
