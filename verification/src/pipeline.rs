//! The records that the pipeline keeps for every loaded chunk, and the
//! notifications that drive it.

use vstd::prelude::*;
use crate::chunk::BUFFER_SIZE;
use crate::coord_map::swap_removed;
use crate::coord_map::CoordMap;
use crate::math::IVec3;
use crate::mesh::face_fits;
use crate::mesh::MAX_FACES;
use crate::mesh::ChunkMesh;
use crate::mesh::MeshView;
use crate::voxel::occlusion_view;
use crate::voxel::FacesOcclusion;
use crate::voxel::VoxelFace;
use crate::voxel::VoxelVertex;
use crate::voxel::SIDE_COUNT;

verus! {

/// A request to load the chunk at a coordinate.
#[derive(Clone, Copy, Debug, PartialEq, Eq, Structural)]
pub struct CmdChunkLoad(pub IVec3);

/// A request to unload the chunk at a coordinate.
#[derive(Clone, Copy, Debug, PartialEq, Eq, Structural)]
pub struct CmdChunkUnload(pub IVec3);

/// The chunk at a coordinate has been loaded into the world.
#[derive(Clone, Copy, Debug, PartialEq, Eq, Structural)]
pub struct EvtChunkLoaded(pub IVec3);

/// The chunk at a coordinate has been unloaded from the world.
#[derive(Clone, Copy, Debug, PartialEq, Eq, Structural)]
pub struct EvtChunkUnloaded(pub IVec3);

/// The voxels of the chunk at a coordinate have changed.
#[derive(Clone, Copy, Debug, PartialEq, Eq, Structural)]
pub struct EvtChunkUpdated(pub IVec3);

/// The mesh of the chunk at a coordinate is out of date.
#[derive(Clone, Copy, Debug, PartialEq, Eq, Structural)]
pub struct EvtChunkDirty(pub IVec3);

/// The coordinate of the chunk that a record belongs to.
#[derive(Clone, Copy, Debug, PartialEq, Eq, Structural)]
pub struct ChunkLocal(pub IVec3);

/// The most vertices that the mesh of one chunk can have.
pub const MAX_VERTICES: usize = 4 * MAX_FACES;

/// The buffers that the stages hand to one another while a mesh is built.
#[derive(Debug)]
pub struct ChunkBuildingBundle {
    faces_occlusion: Vec<FacesOcclusion>,
    faces: Vec<VoxelFace>,
    vertices: Vec<VoxelVertex>,
}

/// The contents of a [`ChunkBuildingBundle`]: for every voxel, by buffer
/// index, the occlusion of its sides by side index; the merged faces; and
/// the vertices.
pub struct BuildingView {
    pub faces_occlusion: Seq<Seq<bool>>,
    pub faces: Seq<VoxelFace>,
    pub vertices: Seq<VoxelVertex>,
}

impl View for ChunkBuildingBundle {
    type V = BuildingView;

    closed spec fn view(&self) -> BuildingView {
        BuildingView {
            faces_occlusion: occlusion_view(self.faces_occlusion@),
            faces: self.faces@,
            vertices: self.vertices@,
        }
    }
}

/// The buffers of a record on which no stage has worked: no side occluded, no
/// face, no vertex.
pub open spec fn fresh_building() -> BuildingView {
    BuildingView {
        faces_occlusion: Seq::new(
            BUFFER_SIZE as nat,
            |i: int| Seq::new(SIDE_COUNT as nat, |s: int| false),
        ),
        faces: Seq::empty(),
        vertices: Seq::empty(),
    }
}

/// The faces can be stored in a record: there are no more than a chunk can
/// have, and every vertex leaves room for its corner offset.
pub open spec fn faces_fit(faces: Seq<VoxelFace>) -> bool {
    &&& faces.len() <= MAX_FACES
    &&& forall|k: int| 0 <= k < faces.len() ==> face_fits(#[trigger] faces[k])
}

impl Default for ChunkBuildingBundle {
    fn default() -> (bundle: ChunkBuildingBundle)
        ensures
            bundle@ == fresh_building(),
    {
        let faces_occlusion = vec![[false; SIDE_COUNT]; BUFFER_SIZE];
        let bundle = ChunkBuildingBundle { faces_occlusion, faces: Vec::new(), vertices: Vec::new() };
        proof {
            assert(bundle@.faces_occlusion =~~= fresh_building().faces_occlusion);
            assert(bundle@.faces =~= fresh_building().faces);
            assert(bundle@.vertices =~= fresh_building().vertices);
        }
        bundle
    }
}

impl ChunkBuildingBundle {
    #[verifier::type_invariant]
    spec fn well_formed(self) -> bool {
        &&& self.faces_occlusion@.len() == BUFFER_SIZE
        &&& faces_fit(self.faces@)
        &&& self.vertices@.len() <= MAX_VERTICES
    }

    /// The occlusion of every voxel's sides, by buffer index.
    pub fn faces_occlusion(&self) -> (buffer: &Vec<FacesOcclusion>)
        ensures
            occlusion_view(buffer@) == self@.faces_occlusion,
            buffer@.len() == BUFFER_SIZE,
    {
        proof {
            use_type_invariant(self);
        }
        &self.faces_occlusion
    }

    /// The merged faces.
    pub fn faces(&self) -> (faces: &Vec<VoxelFace>)
        ensures
            faces@ == self@.faces,
            faces_fit(faces@),
    {
        proof {
            use_type_invariant(self);
        }
        &self.faces
    }

    /// The vertices.
    pub fn vertices(&self) -> (vertices: &Vec<VoxelVertex>)
        ensures
            vertices@ == self@.vertices,
            vertices@.len() <= MAX_VERTICES,
    {
        proof {
            use_type_invariant(self);
        }
        &self.vertices
    }

    /// Replaces the occlusion buffer, which must have one entry per voxel.
    pub fn set_faces_occlusion(&mut self, buffer: Vec<FacesOcclusion>)
        requires
            buffer@.len() == BUFFER_SIZE,
        ensures
            final(self)@ == (BuildingView {
                faces_occlusion: occlusion_view(buffer@),
                ..old(self)@
            }),
    {
        proof {
            use_type_invariant(&*self);
        }
        self.faces_occlusion = buffer;
    }

    /// Replaces the merged faces.
    pub fn set_faces(&mut self, faces: Vec<VoxelFace>)
        requires
            faces_fit(faces@),
        ensures
            final(self)@ == (BuildingView { faces: faces@, ..old(self)@ }),
    {
        proof {
            use_type_invariant(&*self);
        }
        self.faces = faces;
    }

    /// Replaces the vertices.
    pub fn set_vertices(&mut self, vertices: Vec<VoxelVertex>)
        requires
            vertices@.len() <= MAX_VERTICES,
        ensures
            final(self)@ == (BuildingView { vertices: vertices@, ..old(self)@ }),
    {
        proof {
            use_type_invariant(&*self);
        }
        self.vertices = vertices;
    }
}

/// The record of a loaded chunk: its coordinate, the mesh that was last
/// built for it, and the buffers of a build in progress.
#[derive(Debug)]
pub struct ChunkBundle {
    pub local: ChunkLocal,
    pub mesh: Option<ChunkMesh>,
    pub building: Option<ChunkBuildingBundle>,
}

/// The contents of a [`ChunkBundle`].
pub struct BundleView {
    pub local: IVec3,
    pub mesh: Option<MeshView>,
    pub building: Option<BuildingView>,
}

impl View for ChunkBundle {
    type V = BundleView;

    open spec fn view(&self) -> BundleView {
        BundleView {
            local: self.local.0,
            mesh: match self.mesh {
                Some(mesh) => Some(mesh@),
                None => None,
            },
            building: match self.building {
                Some(building) => Some(building@),
                None => None,
            },
        }
    }
}

/// The record of a chunk that has just been loaded at `local`: no mesh, and
/// fresh buffers.
pub open spec fn fresh_bundle(local: IVec3) -> BundleView {
    BundleView { local, mesh: None, building: Some(fresh_building()) }
}

impl Default for ChunkBundle {
    fn default() -> (bundle: ChunkBundle)
        ensures
            bundle@ == fresh_bundle(IVec3 { x: 0, y: 0, z: 0 }),
    {
        ChunkBundle::new(IVec3 { x: 0, y: 0, z: 0 })
    }
}

impl ChunkBundle {
    /// The record of a chunk that has just been loaded at `local`.
    pub fn new(local: IVec3) -> (bundle: ChunkBundle)
        ensures
            bundle@ == fresh_bundle(local),
    {
        ChunkBundle {
            local: ChunkLocal(local),
            mesh: None,
            building: Some(ChunkBuildingBundle::default()),
        }
    }
}

/// The registry: the record of every chunk that the pipeline knows, keyed
/// by chunk coordinate.
pub struct ChunkEntityMap {
    entries: CoordMap<ChunkBundle>,
}

impl View for ChunkEntityMap {
    type V = Map<IVec3, BundleView>;

    /// The contents of the record kept for each coordinate.
    closed spec fn view(&self) -> Map<IVec3, BundleView> {
        Map::new(|c: IVec3| self.entries@.contains_key(c), |c: IVec3| self.entries@[c]@)
    }
}

impl Default for ChunkEntityMap {
    /// A registry without records.
    fn default() -> (map: ChunkEntityMap)
        ensures
            map@ == Map::<IVec3, BundleView>::empty(),
            map.locals() == Seq::<IVec3>::empty(),
    {
        let map = ChunkEntityMap { entries: CoordMap::new() };
        assert(map@ =~= Map::<IVec3, BundleView>::empty());
        map
    }
}

impl ChunkEntityMap {
    /// The coordinates that have a record, in storage order.
    pub closed spec fn locals(&self) -> Seq<IVec3> {
        self.entries.coords()
    }

    /// The storage order lists every coordinate that has a record once.
    pub open spec fn ordered(&self) -> bool {
        &&& self.locals().no_duplicates()
        &&& forall|c: IVec3| self@.contains_key(c) <==> self.locals().contains(c)
    }

    /// The number of records.
    pub fn len(&self) -> (n: usize)
        ensures
            n == self.locals().len(),
            self.ordered(),
    {
        self.entries.len()
    }

    /// Whether the registry has no record.
    pub fn is_empty(&self) -> (empty: bool)
        ensures
            empty == (self.locals().len() == 0),
            empty == (self@ == Map::<IVec3, BundleView>::empty()),
    {
        let n = self.entries.len();
        proof {
            if n == 0 {
                assert(self@ =~= Map::<IVec3, BundleView>::empty());
            } else {
                assert(self.entries@.contains_key(self.entries.coords()[0]));
                assert(self@.contains_key(self.entries.coords()[0]));
            }
        }
        n == 0
    }

    /// The coordinates that have a record, in storage order.
    pub fn keys(&self) -> (locals: &Vec<IVec3>)
        ensures
            locals@ == self.locals(),
            self.ordered(),
    {
        self.entries.locals()
    }

    /// Whether `local` has a record.
    pub fn contains(&self, local: IVec3) -> (present: bool)
        ensures
            present == self@.contains_key(local),
    {
        self.entries.contains(local)
    }

    /// The record of `local`, if it has one.
    pub fn get(&self, local: IVec3) -> (bundle: Option<&ChunkBundle>)
        ensures
            bundle.is_some() == self@.contains_key(local),
            bundle.is_some() ==> bundle.unwrap()@ == self@[local],
    {
        self.entries.get(local)
    }

    /// The record of `local`, if it has one, for changing in place. No other
    /// record changes.
    pub fn get_mut(&mut self, local: IVec3) -> (bundle: Option<&mut ChunkBundle>)
        ensures
            bundle.is_some() == old(self)@.contains_key(local),
            bundle.is_none() ==> final(self)@ == old(self)@,
            bundle.is_some() ==> (*bundle.unwrap())@ == old(self)@[local],
            bundle.is_some() ==> final(self)@ == old(self)@.insert(
                local,
                (*final(bundle.unwrap()))@,
            ),
            final(self).locals() == old(self).locals(),
    {
        let bundle = self.entries.get_mut(local);
        proof {
            if bundle.is_some() {
                assert(after_borrow(self)@ =~= old(self)@.insert(
                    local,
                    (*final(bundle.unwrap()))@,
                ));
            } else {
                assert(after_borrow(self)@ =~= old(self)@);
            }
        }
        bundle
    }

    /// Stores `bundle` as the record of `local` and returns the record that
    /// it replaces, if any. A new coordinate goes to the end of the storage
    /// order; a replaced record keeps its place.
    pub fn insert(&mut self, local: IVec3, bundle: ChunkBundle) -> (previous: Option<ChunkBundle>)
        ensures
            previous.is_some() == old(self)@.contains_key(local),
            previous.is_some() ==> previous.unwrap()@ == old(self)@[local],
            final(self)@ == old(self)@.insert(local, bundle@),
            previous.is_some() ==> final(self).locals() == old(self).locals(),
            previous.is_none() ==> final(self).locals() == old(self).locals().push(local),
            final(self).ordered(),
    {
        match self.entries.try_insert(local, bundle) {
            Ok(()) => {
                assert(self@ =~= old(self)@.insert(local, bundle@));
                None
            },
            Err(bundle) => {
                let ghost given = bundle@;
                let mut bundle = bundle;
                match self.entries.get_mut(local) {
                    Some(stored) => {
                        core::mem::swap(stored, &mut bundle);
                    },
                    None => {},
                }
                assert(self@ =~= old(self)@.insert(local, given));
                Some(bundle)
            },
        }
    }

    /// Removes the record of `local` and returns it; `None`, and no change,
    /// when there is none.
    pub fn remove(&mut self, local: IVec3) -> (bundle: Option<ChunkBundle>)
        ensures
            bundle.is_some() == old(self)@.contains_key(local),
            bundle.is_some() ==> bundle.unwrap()@ == old(self)@[local],
            final(self)@ == old(self)@.remove(local),
            bundle.is_some() == old(self).locals().contains(local),
            bundle.is_none() ==> final(self).locals() == old(self).locals(),
            bundle.is_some() ==> final(self).locals() == swap_removed(
                old(self).locals(),
                old(self).locals().index_of(local),
            ),
            final(self).ordered(),
    {
        let bundle = self.entries.remove(local);
        assert(self@ =~= old(self)@.remove(local));
        bundle
    }
}

} // verus!
