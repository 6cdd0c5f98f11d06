//! Voxels: material kinds, cube sides, and the faces and vertices built from
//! them.

use vstd::prelude::*;
use crate::math::IVec3;

verus! {

/// The material of a voxel. Zero is empty space; any other value is solid.
pub type Kind = u8;

/// The kind of an empty voxel.
pub const EMPTY: Kind = 0;

/// Number of sides of a voxel.
pub const SIDE_COUNT: usize = 6;

/// A side of a voxel, named by the direction it faces.
#[derive(Clone, Copy, Debug, PartialEq, Eq, Structural, Hash)]
pub enum Side {
    Right,
    Left,
    Up,
    Down,
    Front,
    Back,
}

/// The sides in index order.
pub const SIDES: [Side; SIDE_COUNT] = [
    Side::Right,
    Side::Left,
    Side::Up,
    Side::Down,
    Side::Front,
    Side::Back,
];

/// For every side of a voxel, by side index, whether that side is hidden.
pub type FacesOcclusion = [bool; SIDE_COUNT];

/// The occlusion buffer as nested sequences.
pub open spec fn occlusion_view(buffer: Seq<FacesOcclusion>) -> Seq<Seq<bool>> {
    Seq::new(buffer.len(), |i: int| buffer[i]@)
}

/// The side with index `i`.
pub open spec fn side_at(i: int) -> Side {
    if i == 0 {
        Side::Right
    } else if i == 1 {
        Side::Left
    } else if i == 2 {
        Side::Up
    } else if i == 3 {
        Side::Down
    } else if i == 4 {
        Side::Front
    } else {
        Side::Back
    }
}

/// The unit vector that points out of a voxel through `side`.
pub open spec fn dir_of(side: Side) -> IVec3 {
    match side {
        Side::Right => IVec3 { x: 1, y: 0, z: 0 },
        Side::Left => IVec3 { x: -1i32, y: 0, z: 0 },
        Side::Up => IVec3 { x: 0, y: 1, z: 0 },
        Side::Down => IVec3 { x: 0, y: -1i32, z: 0 },
        Side::Front => IVec3 { x: 0, y: 0, z: 1 },
        Side::Back => IVec3 { x: 0, y: 0, z: -1i32 },
    }
}

impl Side {
    /// The index of the side in [`SIDES`].
    pub open spec fn index_spec(self) -> int {
        match self {
            Side::Right => 0,
            Side::Left => 1,
            Side::Up => 2,
            Side::Down => 3,
            Side::Front => 4,
            Side::Back => 5,
        }
    }

    /// The index of the side in [`SIDES`].
    pub fn index(self) -> (i: usize)
        ensures
            i == self.index_spec(),
            i < SIDE_COUNT,
            side_at(i as int) == self,
    {
        match self {
            Side::Right => 0,
            Side::Left => 1,
            Side::Up => 2,
            Side::Down => 3,
            Side::Front => 4,
            Side::Back => 5,
        }
    }

    /// The side with index `i`.
    pub fn from_index(i: usize) -> (side: Side)
        requires
            i < SIDE_COUNT,
        ensures
            side == side_at(i as int),
            side.index_spec() == i,
    {
        if i == 0 {
            Side::Right
        } else if i == 1 {
            Side::Left
        } else if i == 2 {
            Side::Up
        } else if i == 3 {
            Side::Down
        } else if i == 4 {
            Side::Front
        } else {
            Side::Back
        }
    }
}

/// The unit vector that points out of a voxel through `side`.
pub fn get_side_dir(side: Side) -> (dir: IVec3)
    ensures
        dir == dir_of(side),
{
    match side {
        Side::Right => IVec3 { x: 1, y: 0, z: 0 },
        Side::Left => IVec3 { x: -1, y: 0, z: 0 },
        Side::Up => IVec3 { x: 0, y: 1, z: 0 },
        Side::Down => IVec3 { x: 0, y: -1, z: 0 },
        Side::Front => IVec3 { x: 0, y: 0, z: 1 },
        Side::Back => IVec3 { x: 0, y: 0, z: -1 },
    }
}

/// The outward normal of the faces on `side`.
pub fn get_side_normal(side: Side) -> (normal: IVec3)
    ensures
        normal == dir_of(side),
{
    get_side_dir(side)
}

/// A rectangle of voxel faces on one side of a chunk, merged into one quad.
///
/// The four vertices are the voxels at the corners of the rectangle, in the
/// order of the corners of the unit cube's face on that side.
#[derive(Clone, Copy, Debug, PartialEq, Eq)]
pub struct VoxelFace {
    pub vertices: [IVec3; 4],
    pub side: Side,
    pub kind: Kind,
}

/// A vertex of a chunk's mesh, in the chunk's local space.
#[derive(Clone, Copy, Debug, PartialEq, Eq)]
pub struct VoxelVertex {
    pub position: IVec3,
    pub normal: IVec3,
}

} // verus!
