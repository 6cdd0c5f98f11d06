//! The world: the chunks that are loaded, keyed by chunk coordinate.

use vstd::prelude::*;
use crate::chunk::Chunk;
use crate::coord_map::CoordMap;
use crate::coord_map::swap_removed;
use crate::math::IVec3;
use crate::voxel::EMPTY;
use crate::chunk::BUFFER_SIZE;
use crate::chunk::index_of;
use crate::chunk::within_bounds;
use crate::voxel::Kind;

verus! {

/// Why a request to the world or the registry was turned down.
#[derive(Clone, Copy, Debug, PartialEq, Eq, Structural)]
pub enum WorldError {
    /// No chunk is stored at the coordinate.
    NotFound,
    /// A chunk is already stored at the coordinate.
    AlreadyLoaded,
    /// A local voxel coordinate lies outside the chunk.
    OutOfBounds,
}

/// The loaded chunks. No two chunks share a coordinate.
pub struct VoxWorld {
    chunks: CoordMap<Chunk>,
}

impl View for VoxWorld {
    type V = Map<IVec3, Chunk>;

    /// The chunk loaded at each coordinate.
    closed spec fn view(&self) -> Map<IVec3, Chunk> {
        self.chunks@
    }
}

impl Default for VoxWorld {
    /// A world with no chunk loaded.
    fn default() -> (world: VoxWorld)
        ensures
            world@ == Map::<IVec3, Chunk>::empty(),
            world.locals() == Seq::<IVec3>::empty(),
    {
        VoxWorld { chunks: CoordMap::new() }
    }
}

impl VoxWorld {
    /// The coordinates of the loaded chunks, in storage order.
    pub closed spec fn locals(&self) -> Seq<IVec3> {
        self.chunks.coords()
    }

    /// The storage order lists every loaded coordinate once.
    pub open spec fn ordered(&self) -> bool {
        &&& self.locals().no_duplicates()
        &&& forall|c: IVec3| self@.contains_key(c) <==> self.locals().contains(c)
    }

    /// Whether a chunk is loaded at `local`.
    pub fn contains(&self, local: IVec3) -> (present: bool)
        ensures
            present == self@.contains_key(local),
    {
        self.chunks.contains(local)
    }

    /// The number of loaded chunks.
    pub fn len(&self) -> (n: usize)
        ensures
            n == self@.dom().len(),
            n == self.locals().len(),
            self.ordered(),
    {
        self.chunks.len()
    }

    /// Loads an all-empty chunk at `local`. A coordinate that is already
    /// loaded is refused with `AlreadyLoaded`, and its chunk is kept.
    pub fn add(&mut self, local: IVec3) -> (done: Result<(), WorldError>)
        ensures
            done == (if old(self)@.contains_key(local) {
                Err::<(), WorldError>(WorldError::AlreadyLoaded)
            } else {
                Ok::<(), WorldError>(())
            }),
            done.is_err() ==> final(self)@ == old(self)@ && final(self).locals() == old(
                self,
            ).locals(),
            done.is_ok() ==> final(self)@.dom() == old(self)@.dom().insert(local),
            done.is_ok() ==> final(self)@[local]@ == Seq::new(BUFFER_SIZE as nat, |i: int| EMPTY),
            done.is_ok() ==> forall|c: IVec3|
                old(self)@.contains_key(c) ==> #[trigger] final(self)@[c] == old(self)@[c],
            done.is_ok() ==> final(self).locals() == old(self).locals().push(local),
            final(self).ordered(),
    {
        match self.chunks.try_insert(local, Chunk::default()) {
            Ok(()) => Ok(()),
            Err(_) => Err(WorldError::AlreadyLoaded),
        }
    }

    /// Unloads the chunk at `local` and hands it over; `None`, and no change,
    /// when no chunk is loaded there.
    pub fn remove(&mut self, local: IVec3) -> (chunk: Option<Chunk>)
        ensures
            chunk == (if old(self)@.contains_key(local) {
                Some(old(self)@[local])
            } else {
                None
            }),
            final(self)@ == old(self)@.remove(local),
            chunk.is_some() == old(self).locals().contains(local),
            chunk.is_none() ==> final(self).locals() == old(self).locals(),
            chunk.is_some() ==> final(self).locals() == swap_removed(
                old(self).locals(),
                old(self).locals().index_of(local),
            ),
            final(self).ordered(),
    {
        self.chunks.remove(local)
    }

    /// The chunk loaded at `local`, if any.
    pub fn get(&self, local: IVec3) -> (chunk: Option<&Chunk>)
        ensures
            chunk == (if self@.contains_key(local) {
                Some(&self@[local])
            } else {
                None
            }),
    {
        self.chunks.get(local)
    }

    /// The chunk loaded at `local`, if any, for changing in place. No other
    /// chunk changes, and none is loaded or unloaded.
    pub fn get_mut(&mut self, local: IVec3) -> (chunk: Option<&mut Chunk>)
        ensures
            chunk.is_some() == old(self)@.contains_key(local),
            chunk.is_none() ==> final(self)@ == old(self)@,
            chunk.is_some() ==> *chunk.unwrap() == old(self)@[local],
            chunk.is_some() ==> final(self)@ == old(self)@.insert(local, *final(chunk.unwrap())),
            final(self).locals() == old(self).locals(),
    {
        self.chunks.get_mut(local)
    }

    /// The kind of the voxel at `voxel` of the chunk at `local`. Fails with
    /// `NotFound` when no chunk is loaded there, else with `OutOfBounds` when
    /// `voxel` is no valid local coordinate.
    pub fn get_voxel_kind(&self, local: IVec3, voxel: IVec3) -> (kind: Result<Kind, WorldError>)
        ensures
            kind == (if !self@.contains_key(local) {
                Err::<Kind, WorldError>(WorldError::NotFound)
            } else if !within_bounds(voxel) {
                Err::<Kind, WorldError>(WorldError::OutOfBounds)
            } else {
                Ok::<Kind, WorldError>(self@[local].kind_at(voxel))
            }),
    {
        match self.chunks.get(local) {
            None => Err(WorldError::NotFound),
            Some(chunk) => match chunk.try_get_voxel_kind(voxel) {
                Some(kind) => Ok(kind),
                None => Err(WorldError::OutOfBounds),
            },
        }
    }

    /// Sets the kind of the voxel at `voxel` of the chunk at `local`. Fails
    /// with `NotFound` when no chunk is loaded there, else with `OutOfBounds`
    /// when `voxel` is no valid local coordinate; a failure changes nothing.
    pub fn set_voxel_kind(&mut self, local: IVec3, voxel: IVec3, kind: Kind) -> (done: Result<
        (),
        WorldError,
    >)
        ensures
            done == (if !old(self)@.contains_key(local) {
                Err::<(), WorldError>(WorldError::NotFound)
            } else if !within_bounds(voxel) {
                Err::<(), WorldError>(WorldError::OutOfBounds)
            } else {
                Ok::<(), WorldError>(())
            }),
            final(self)@.dom() == old(self)@.dom(),
            final(self).locals() == old(self).locals(),
            forall|c: IVec3| #[trigger]
                old(self)@.contains_key(c) ==> final(self)@[c]@ == (if c == local && done.is_ok() {
                    old(self)@[c]@.update(index_of(voxel), kind)
                } else {
                    old(self)@[c]@
                }),
    {
        match self.chunks.get_mut(local) {
            None => Err(WorldError::NotFound),
            Some(chunk) => chunk.try_set_voxel_kind(voxel, kind),
        }
    }
}

} // verus!
