//! Chunks: fixed cubes of voxels, and the mappings between world positions,
//! chunk coordinates, local voxel coordinates and buffer indices.

use vstd::prelude::*;
use crate::math::IVec3;
use crate::math::is_within_cubic_bounds;
use crate::math::within_cubic_bounds;
use crate::voxel::Kind;
use crate::voxel::EMPTY;
use crate::world::WorldError;

verus! {

/// Side length of a chunk, in voxels.
pub const AXIS_SIZE: usize = 16;

/// Number of voxels in a chunk.
pub const BUFFER_SIZE: usize = AXIS_SIZE * AXIS_SIZE * AXIS_SIZE;

/// The bits of a buffer index that hold the `x` coordinate.
pub const X_MASK: usize = 0b_1111_0000_0000;

/// The bits of a buffer index that hold the `z` coordinate.
pub const Z_MASK: usize = 0b_0000_1111_0000;

/// The bits of a buffer index that hold the `y` coordinate.
pub const Y_MASK: usize = 0b_0000_0000_1111;

/// The position of the `x` coordinate in a buffer index.
pub const X_SHIFT: usize = 8;

/// The position of the `z` coordinate in a buffer index.
pub const Z_SHIFT: usize = 4;

/// The position of the `y` coordinate in a buffer index.
pub const Y_SHIFT: usize = 0;

/// Every component of `pos` is a valid local coordinate.
pub open spec fn within_bounds(pos: IVec3) -> bool {
    within_cubic_bounds(pos, 0, AXIS_SIZE - 1)
}

/// The buffer index of a local coordinate: `x` is the most significant
/// digit in base `AXIS_SIZE`, then `z`, then `y`.
pub open spec fn index_of(local: IVec3) -> int {
    local.x * (AXIS_SIZE * AXIS_SIZE) + local.z * AXIS_SIZE + local.y
}

/// The local coordinate stored at a buffer index.
pub open spec fn xyz_of(index: int) -> IVec3 {
    IVec3 {
        x: ((index / (AXIS_SIZE * AXIS_SIZE) as int) % AXIS_SIZE as int) as i32,
        y: (index % AXIS_SIZE as int) as i32,
        z: ((index / AXIS_SIZE as int) % AXIS_SIZE as int) as i32,
    }
}

/// The chunk coordinate that contains a world position: the floor of the
/// position divided by the chunk's side length, axis by axis.
pub open spec fn local_of(world: IVec3) -> IVec3 {
    IVec3 {
        x: (world.x as int / AXIS_SIZE as int) as i32,
        y: (world.y as int / AXIS_SIZE as int) as i32,
        z: (world.z as int / AXIS_SIZE as int) as i32,
    }
}

/// Whether the world origin of the chunk at `local` is representable.
pub open spec fn world_fits(local: IVec3) -> bool {
    &&& i32::MIN <= local.x * AXIS_SIZE <= i32::MAX
    &&& i32::MIN <= local.y * AXIS_SIZE <= i32::MAX
    &&& i32::MIN <= local.z * AXIS_SIZE <= i32::MAX
}

/// The voxels of one chunk, stored by buffer index.
pub struct Chunk {
    voxel_kind: Vec<Kind>,
}

impl View for Chunk {
    type V = Seq<Kind>;

    /// The kinds of the chunk's voxels, by buffer index.
    closed spec fn view(&self) -> Seq<Kind> {
        self.voxel_kind@
    }
}

impl Default for Chunk {
    /// A chunk whose voxels are all empty.
    fn default() -> (chunk: Chunk)
        ensures
            chunk@ == Seq::new(BUFFER_SIZE as nat, |i: int| EMPTY),
    {
        let voxel_kind = vec![EMPTY; BUFFER_SIZE];
        assert(voxel_kind@ =~= Seq::new(BUFFER_SIZE as nat, |i: int| EMPTY));
        Chunk { voxel_kind }
    }
}

impl Chunk {
    #[verifier::type_invariant]
    spec fn well_formed(self) -> bool {
        self.voxel_kind@.len() == BUFFER_SIZE
    }

    /// The kind of the voxel at `local`.
    pub open spec fn kind_at(self, local: IVec3) -> Kind {
        self@[index_of(local)]
    }

    /// The number of voxels in the chunk, which is always `BUFFER_SIZE`.
    pub fn len(&self) -> (n: usize)
        ensures
            n == BUFFER_SIZE,
            self@.len() == BUFFER_SIZE,
    {
        proof {
            use_type_invariant(self);
        }
        self.voxel_kind.len()
    }

    /// Sets the kind of the voxel at `local`, which must be within bounds, and
    /// leaves every other voxel as it was.
    pub fn set_voxel_kind(&mut self, local: IVec3, kind: Kind)
        requires
            within_bounds(local),
        ensures
            final(self)@ == old(self)@.update(index_of(local), kind),
    {
        proof {
            use_type_invariant(&*self);
        }
        let index = to_index(local);
        self.voxel_kind[index] = kind;
    }

    /// The kind of the voxel at `local`, which must be within bounds.
    pub fn get_voxel_kind(&self, local: IVec3) -> (kind: Kind)
        requires
            within_bounds(local),
        ensures
            kind == self.kind_at(local),
    {
        proof {
            use_type_invariant(self);
        }
        self.voxel_kind[to_index(local)]
    }

    /// Sets the kind of the voxel at `local` after validating the coordinate:
    /// out of bounds, nothing changes and the error says so.
    pub fn try_set_voxel_kind(&mut self, local: IVec3, kind: Kind) -> (done: Result<(), WorldError>)
        ensures
            done == (if within_bounds(local) {
                Ok::<(), WorldError>(())
            } else {
                Err::<(), WorldError>(WorldError::OutOfBounds)
            }),
            within_bounds(local) ==> final(self)@ == old(self)@.update(index_of(local), kind),
            !within_bounds(local) ==> final(self)@ == old(self)@,
    {
        if is_within_bounds(local) {
            self.set_voxel_kind(local, kind);
            Ok(())
        } else {
            Err(WorldError::OutOfBounds)
        }
    }

    /// The kind of the voxel at `local`, or `None` when `local` is out of
    /// bounds.
    pub fn try_get_voxel_kind(&self, local: IVec3) -> (kind: Option<Kind>)
        ensures
            kind == (if within_bounds(local) { Some(self.kind_at(local)) } else { None }),
    {
        if is_within_bounds(local) {
            Some(self.get_voxel_kind(local))
        } else {
            None
        }
    }
}

/// The local coordinate stored at `index`. For every index the result is a
/// valid local coordinate; bits above the buffer size are ignored.
pub fn to_xyz(index: usize) -> (local: IVec3)
    ensures
        local == xyz_of(index as int),
        within_bounds(local),
        index < BUFFER_SIZE ==> index_of(local) == index,
{
    let x = (index & X_MASK) >> X_SHIFT;
    let y = (index & Y_MASK) >> Y_SHIFT;
    let z = (index & Z_MASK) >> Z_SHIFT;
    assert(x == (index / 256) % 16 && y == index % 16 && z == (index / 16) % 16 && x < 16 && y < 16
        && z < 16) by (bit_vector)
        requires
            x == (index & 0xF00) >> 8,
            y == (index & 0x00F) >> 0,
            z == (index & 0x0F0) >> 4,
    ;
    IVec3 { x: x as i32, y: y as i32, z: z as i32 }
}

/// The buffer index of `local`. Exact for valid local coordinates; for
/// coordinates out of bounds the index is unspecified, so callers validate
/// with [`is_within_bounds`] first.
pub fn to_index(local: IVec3) -> (index: usize)
    ensures
        within_bounds(local) ==> index == index_of(local),
        within_bounds(local) ==> index < BUFFER_SIZE,
{
    let x = local.x;
    let y = local.y;
    let z = local.z;
    let packed: i32 = x << 8 | y << 0 | z << 4;
    assert(0 <= x < 16 && 0 <= y < 16 && 0 <= z < 16 ==> packed == x * 256 + z * 16 + y && 0
        <= packed < 4096) by (bit_vector)
        requires
            packed == x << 8 | y << 0 | z << 4,
    ;
    #[verifier::truncate]
    (packed as usize)
}

/// Whether `pos` is a valid local coordinate of a chunk.
pub fn is_within_bounds(pos: IVec3) -> (inside: bool)
    ensures
        inside == within_bounds(pos),
{
    is_within_cubic_bounds(pos, 0, AXIS_SIZE as i32 - 1)
}

/// The world position of the origin of the chunk at `local`.
pub fn to_world(local: IVec3) -> (world: IVec3)
    requires
        world_fits(local),
    ensures
        world.x == local.x * AXIS_SIZE,
        world.y == local.y * AXIS_SIZE,
        world.z == local.z * AXIS_SIZE,
{
    IVec3 {
        x: local.x * (AXIS_SIZE as i32),
        y: local.y * (AXIS_SIZE as i32),
        z: local.z * (AXIS_SIZE as i32),
    }
}

/// The coordinate of the chunk that contains the world position `world`,
/// rounding towards negative infinity on every axis.
pub fn to_local(world: IVec3) -> (local: IVec3)
    ensures
        local == local_of(world),
        world_fits(local),
        local.x * AXIS_SIZE <= world.x < local.x * AXIS_SIZE + AXIS_SIZE,
        local.y * AXIS_SIZE <= world.y < local.y * AXIS_SIZE + AXIS_SIZE,
        local.z * AXIS_SIZE <= world.z < local.z * AXIS_SIZE + AXIS_SIZE,
{
    let x = world.x.checked_div_euclid(AXIS_SIZE as i32);
    let y = world.y.checked_div_euclid(AXIS_SIZE as i32);
    let z = world.z.checked_div_euclid(AXIS_SIZE as i32);
    IVec3 { x: x.unwrap(), y: y.unwrap(), z: z.unwrap() }
}

/// Index and coordinate are exact inverses over the valid local
/// coordinates.
pub proof fn lemma_index_round_trip(local: IVec3)
    requires
        within_bounds(local),
    ensures
        0 <= index_of(local) < BUFFER_SIZE,
        xyz_of(index_of(local)) == local,
{
}

/// Every index within the buffer is the index of the coordinate stored
/// there, which is a valid local coordinate.
pub proof fn lemma_xyz_round_trip(index: int)
    requires
        0 <= index < BUFFER_SIZE,
    ensures
        within_bounds(xyz_of(index)),
        index_of(xyz_of(index)) == index,
{
}

/// Two valid local coordinates with the same index are the same coordinate.
pub proof fn lemma_index_injective(a: IVec3, b: IVec3)
    requires
        within_bounds(a),
        within_bounds(b),
        index_of(a) == index_of(b),
    ensures
        a == b,
{
    lemma_index_round_trip(a);
    lemma_index_round_trip(b);
}

/// The chunk found for a world position contains that position: its origin
/// is representable, lies at or below the position on every axis, and is
/// less than one chunk side away from it.
pub proof fn lemma_world_of_local_is_near(world: IVec3)
    ensures
        world_fits(local_of(world)),
        0 <= world.x - local_of(world).x * AXIS_SIZE < AXIS_SIZE,
        0 <= world.y - local_of(world).y * AXIS_SIZE < AXIS_SIZE,
        0 <= world.z - local_of(world).z * AXIS_SIZE < AXIS_SIZE,
{
}

/// Every position inside a chunk maps back to that chunk's coordinate.
pub proof fn lemma_local_of_world(local: IVec3, offset: IVec3)
    requires
        world_fits(local),
        within_bounds(offset),
    ensures
        local_of(
            IVec3 {
                x: (local.x * AXIS_SIZE + offset.x) as i32,
                y: (local.y * AXIS_SIZE + offset.y) as i32,
                z: (local.z * AXIS_SIZE + offset.z) as i32,
            },
        ) == local,
{
}

} // verus!
