//! Integer grid coordinates and the world-block / chunk split.

use vstd::prelude::*;

verus! {

/// A signed integer 3D grid coordinate (world blocks or chunk positions).
#[derive(Clone, Copy, Debug, PartialEq, Eq, Structural)]
pub struct IVec3 {
    pub x: i32,
    pub y: i32,
    pub z: i32,
}

/// An unsigned integer 3D coordinate (cells inside a chunk, mesh corners).
#[derive(Clone, Copy, Debug, PartialEq, Eq, Structural)]
pub struct UVec3 {
    pub x: u32,
    pub y: u32,
    pub z: u32,
}

/// An unsigned integer 2D coordinate (atlas tiles).
#[derive(Clone, Copy, Debug, PartialEq, Eq, Hash, Structural)]
pub struct UVec2 {
    pub x: u32,
    pub y: u32,
}

impl UVec2 {
    /// Builds a coordinate from its two components.
    pub fn new(x: u32, y: u32) -> (r: UVec2)
        ensures
            r == (UVec2 { x, y }),
    {
        UVec2 { x, y }
    }
}

impl IVec3 {
    /// Builds a coordinate from its three components.
    pub fn new(x: i32, y: i32, z: i32) -> (r: IVec3)
        ensures
            r == (IVec3 { x, y, z }),
    {
        IVec3 { x, y, z }
    }
}

impl UVec3 {
    /// Builds a coordinate from its three components.
    pub fn new(x: u32, y: u32, z: u32) -> (r: UVec3)
        ensures
            r == (UVec3 { x, y, z }),
    {
        UVec3 { x, y, z }
    }
}

} // verus!
