//! The stages that turn the voxels of a chunk into a mesh: face occlusion,
//! face merging, vertex computation, mesh generation and clean-up.

use vstd::prelude::*;
use crate::chunk::Chunk;
use crate::chunk::BUFFER_SIZE;
use crate::chunk::index_of;
use crate::chunk::is_within_bounds;
use crate::chunk::to_xyz;
use crate::chunk::within_bounds;
use crate::chunk::xyz_of;
use crate::math::IVec3;
use crate::chunk::lemma_xyz_round_trip;
use crate::merge::is_greedy_merge_of;
use crate::merge::is_merge_of;
use crate::merge::pick;
use crate::mesh::corner_of;
use crate::merge::merge_faces;
use crate::merge::merges_only_equals;
use crate::mesh::compute_vertices;
use crate::mesh::face_fits;
use crate::mesh::generate_mesh;
use crate::mesh::mesh_of;
use crate::mesh::vertices_of;
use crate::mesh::MAX_FACES;
use crate::pipeline::faces_fit;
use crate::voxel::VoxelFace;
use crate::pipeline::BuildingView;
use crate::pipeline::BundleView;
use crate::pipeline::ChunkBuildingBundle;
use crate::pipeline::ChunkEntityMap;
use crate::pipeline::EvtChunkDirty;
use crate::pipeline::fresh_building;
use crate::world::VoxWorld;
use crate::voxel::dir_of;
use crate::voxel::occlusion_view;
use crate::voxel::get_side_dir;
use crate::voxel::side_at;
use crate::voxel::FacesOcclusion;
use crate::voxel::Kind;
use crate::voxel::Side;
use crate::voxel::EMPTY;
use crate::voxel::SIDE_COUNT;

verus! {

/// The voxel next to `local` on `side`.
pub open spec fn neighbor_of(local: IVec3, side: Side) -> IVec3 {
    IVec3 {
        x: (local.x + dir_of(side).x) as i32,
        y: (local.y + dir_of(side).y) as i32,
        z: (local.z + dir_of(side).z) as i32,
    }
}

/// Whether the face of the voxel at `local` on `side` is hidden: the voxel is
/// empty, or its neighbour on that side lies in the same chunk and is solid.
/// A face on the chunk's border is never hidden by a neighbour.
pub open spec fn side_occluded(kinds: Seq<Kind>, local: IVec3, side: Side) -> bool {
    kinds[index_of(local)] == EMPTY || (within_bounds(neighbor_of(local, side)) && kinds[index_of(
        neighbor_of(local, side),
    )] != EMPTY)
}

/// The occlusion of the six faces of the voxel at `local`, by side index.
pub open spec fn occlusion_at(kinds: Seq<Kind>, local: IVec3) -> Seq<bool> {
    Seq::new(SIDE_COUNT as nat, |s: int| side_occluded(kinds, local, side_at(s)))
}

/// The occlusion of every face of a chunk with voxels `kinds`: one entry per
/// voxel, by buffer index.
pub open spec fn occlusion_of(kinds: Seq<Kind>) -> Seq<Seq<bool>> {
    Seq::new(BUFFER_SIZE as nat, |i: int| occlusion_at(kinds, xyz_of(i)))
}

/// The occlusion of the six faces of the voxel at `local`, which must be
/// within bounds.
pub fn voxel_faces_occlusion(chunk: &Chunk, local: IVec3) -> (faces: FacesOcclusion)
    requires
        within_bounds(local),
    ensures
        faces@ == occlusion_at(chunk@, local),
{
    let mut faces: FacesOcclusion = [false; SIDE_COUNT];
    if chunk.get_voxel_kind(local) == EMPTY {
        faces = [true; SIDE_COUNT];
        assert(faces@ =~= occlusion_at(chunk@, local));
        return faces;
    }
    let mut s: usize = 0;
    while s < SIDE_COUNT
        invariant
            s <= SIDE_COUNT,
            within_bounds(local),
            chunk@[index_of(local)] != EMPTY,
            forall|t: int| 0 <= t < s ==> faces@[t] == side_occluded(chunk@, local, side_at(t)),
            forall|t: int| s <= t < SIDE_COUNT ==> !faces@[t],
        decreases SIDE_COUNT - s,
    {
        let side = Side::from_index(s);
        let neighbor = local.plus(get_side_dir(side));
        if is_within_bounds(neighbor) {
            if chunk.get_voxel_kind(neighbor) != EMPTY {
                faces[s] = true;
            }
        }
        s += 1;
    }
    assert(faces@ =~= occlusion_at(chunk@, local));
    faces
}

/// The occlusion of every face of `chunk`, computed afresh.
pub fn faces_occlusion(chunk: &Chunk) -> (buffer: Vec<FacesOcclusion>)
    ensures
        occlusion_view(buffer@) == occlusion_of(chunk@),
        buffer@.len() == BUFFER_SIZE,
{
    let mut buffer: Vec<FacesOcclusion> = Vec::with_capacity(BUFFER_SIZE);
    let mut i: usize = 0;
    while i < BUFFER_SIZE
        invariant
            i <= BUFFER_SIZE,
            buffer@.len() == i,
            forall|j: int| 0 <= j < i ==> (#[trigger] buffer@[j])@ == occlusion_at(chunk@, xyz_of(j)),
        decreases BUFFER_SIZE - i,
    {
        let faces = voxel_faces_occlusion(chunk, to_xyz(i));
        buffer.push(faces);
        i += 1;
    }
    assert(occlusion_view(buffer@) =~= occlusion_of(chunk@));
    buffer
}

/// Whether `dirty` holds a notification for the chunk at `local`.
pub open spec fn is_dirty(dirty: Seq<EvtChunkDirty>, local: IVec3) -> bool {
    dirty.contains(EvtChunkDirty(local))
}

/// The buffers of a record, or fresh ones where the record has none.
pub open spec fn building_or_fresh(bundle: BundleView) -> BuildingView {
    match bundle.building {
        Some(building) => building,
        None => fresh_building(),
    }
}

/// The record `bundle` after the occlusion stage has worked on it for a
/// chunk with voxels `kinds`: the occlusion buffer is computed afresh.
pub open spec fn with_occlusion(bundle: BundleView, kinds: Seq<Kind>) -> BundleView {
    BundleView {
        building: Some(
            BuildingView { faces_occlusion: occlusion_of(kinds), ..building_or_fresh(bundle) },
        ),
        ..bundle
    }
}

/// The occlusion stage. For every dirty chunk that is loaded in `world` and
/// has a record, the occlusion buffer of the record is computed afresh from
/// the chunk's voxels. A dirty chunk without a chunk in the world or without
/// a record is passed over.
pub fn faces_occlusion_system(
    world: &VoxWorld,
    entity_map: &mut ChunkEntityMap,
    dirty: &Vec<EvtChunkDirty>,
)
    ensures
        final(entity_map).locals() == old(entity_map).locals(),
        final(entity_map)@.dom() == old(entity_map)@.dom(),
        forall|c: IVec3| #[trigger]
            old(entity_map)@.contains_key(c) ==> final(entity_map)@[c] == (if is_dirty(dirty@, c)
                && world@.contains_key(c) {
                with_occlusion(old(entity_map)@[c], world@[c]@)
            } else {
                old(entity_map)@[c]
            }),
{
    let mut i: usize = 0;
    while i < dirty.len()
        invariant
            i <= dirty@.len(),
            entity_map.locals() == old(entity_map).locals(),
            entity_map@.dom() == old(entity_map)@.dom(),
            forall|c: IVec3| #[trigger]
                old(entity_map)@.contains_key(c) ==> entity_map@[c] == (if is_dirty(
                    dirty@.take(i as int),
                    c,
                ) && world@.contains_key(c) {
                    with_occlusion(old(entity_map)@[c], world@[c]@)
                } else {
                    old(entity_map)@[c]
                }),
        decreases dirty@.len() - i,
    {
        let local = dirty[i].0;
        let ghost earlier = entity_map@;
        proof {
            lemma_is_dirty_step(dirty@, i as int);
        }
        match world.get(local) {
            Some(chunk) => {
                match entity_map.get_mut(local) {
                    Some(bundle) => {
                        let buffer = faces_occlusion(chunk);
                        match &mut bundle.building {
                            Some(building) => {
                                building.set_faces_occlusion(buffer);
                            },
                            None => {
                                let mut building = ChunkBuildingBundle::default();
                                building.set_faces_occlusion(buffer);
                                bundle.building = Some(building);
                            },
                        }
                    },
                    None => {},
                }
            },
            None => {},
        }
        proof {
            assert(entity_map@.dom() =~= earlier.dom());
        }
        i += 1;
    }
    proof {
        assert(dirty@.take(dirty@.len() as int) =~= dirty@);
    }
}

/// `after` is the record `before` once the merging stage has worked on it
/// for a chunk with voxels `kinds`: the faces are the greedy merging of the
/// faces that the record's occlusion buffer shows as visible, and nothing
/// else has changed.
pub open spec fn merged_from(after: BundleView, before: BundleView, kinds: Seq<Kind>) -> bool {
    &&& before.building.is_some()
    &&& after.building.is_some()
    &&& after.local == before.local
    &&& after.mesh == before.mesh
    &&& after.building.unwrap().faces_occlusion == before.building.unwrap().faces_occlusion
    &&& after.building.unwrap().vertices == before.building.unwrap().vertices
    &&& is_greedy_merge_of(
        after.building.unwrap().faces,
        before.building.unwrap().faces_occlusion,
        kinds,
    )
}

/// A merging of a chunk's faces can be stored in a record.
pub proof fn lemma_merge_fits(
    faces: Seq<VoxelFace>,
    occlusion: Seq<Seq<bool>>,
    kinds: Seq<Kind>,
)
    requires
        is_merge_of(faces, occlusion, kinds),
        faces.len() <= MAX_FACES,
    ensures
        faces_fit(faces),
{
    assert forall|k: int| 0 <= k < faces.len() implies face_fits(#[trigger] faces[k]) by {
        let face = faces[k];
        assert(merges_only_equals(face, occlusion, kinds));
        assert forall|i: int| 0 <= i < 4 implies (#[trigger] face.vertices[i]).x < i32::MAX
            && face.vertices[i].y < i32::MAX && face.vertices[i].z < i32::MAX by {
            assert(face.vertices[i] == pick(
                face.lo(),
                face.hi(),
                corner_of(face.side, i),
            ));
        }
    }
}

/// The merging stage. For every dirty chunk that has a record with buffers
/// and is loaded in `world`, the faces of the record are replaced by the
/// greedy merging of the faces that its occlusion buffer shows as visible.
/// Other dirty chunks are passed over.
pub fn faces_merging_system(
    dirty: &Vec<EvtChunkDirty>,
    world: &VoxWorld,
    entity_map: &mut ChunkEntityMap,
)
    ensures
        final(entity_map).locals() == old(entity_map).locals(),
        final(entity_map)@.dom() == old(entity_map)@.dom(),
        forall|c: IVec3| #[trigger]
            old(entity_map)@.contains_key(c) ==> (if is_dirty(dirty@, c) && world@.contains_key(c)
                && old(entity_map)@[c].building.is_some() {
                merged_from(final(entity_map)@[c], old(entity_map)@[c], world@[c]@)
            } else {
                final(entity_map)@[c] == old(entity_map)@[c]
            }),
{
    let mut i: usize = 0;
    while i < dirty.len()
        invariant
            i <= dirty@.len(),
            entity_map.locals() == old(entity_map).locals(),
            entity_map@.dom() == old(entity_map)@.dom(),
            forall|c: IVec3| #[trigger]
                old(entity_map)@.contains_key(c) ==> (if is_dirty(dirty@.take(i as int), c)
                    && world@.contains_key(c) && old(entity_map)@[c].building.is_some() {
                    merged_from(entity_map@[c], old(entity_map)@[c], world@[c]@)
                } else {
                    entity_map@[c] == old(entity_map)@[c]
                }),
        decreases dirty@.len() - i,
    {
        let local = dirty[i].0;
        let ghost earlier = entity_map@;
        proof {
            lemma_is_dirty_step(dirty@, i as int);
        }
        match entity_map.get_mut(local) {
            Some(bundle) => {
                match &mut bundle.building {
                    Some(building) => {
                        match world.get(local) {
                            Some(chunk) => {
                                let faces = merge_faces(building.faces_occlusion(), chunk);
                                proof {
                                    lemma_merge_fits(
                                        faces@,
                                        building@.faces_occlusion,
                                        chunk@,
                                    );
                                }
                                building.set_faces(faces);
                            },
                            None => {},
                        }
                    },
                    None => {},
                }
            },
            None => {},
        }
        proof {
            assert(entity_map@.dom() =~= earlier.dom());
        }
        i += 1;
    }
    proof {
        assert(dirty@.take(dirty@.len() as int) =~= dirty@);
    }
}

/// The record `bundle` after the vertex stage has worked on it: where it has
/// buffers, the vertices are those of its faces.
pub open spec fn with_vertices(bundle: BundleView) -> BundleView {
    match bundle.building {
        Some(building) => BundleView {
            building: Some(BuildingView { vertices: vertices_of(building.faces), ..building }),
            ..bundle
        },
        None => bundle,
    }
}

/// The vertex stage. For every dirty chunk that has a record with buffers,
/// the vertices of the record are computed afresh from its faces. Other
/// dirty chunks are passed over.
pub fn vertices_computation_system(entity_map: &mut ChunkEntityMap, dirty: &Vec<EvtChunkDirty>)
    ensures
        final(entity_map).locals() == old(entity_map).locals(),
        final(entity_map)@.dom() == old(entity_map)@.dom(),
        forall|c: IVec3| #[trigger]
            old(entity_map)@.contains_key(c) ==> final(entity_map)@[c] == (if is_dirty(dirty@, c) {
                with_vertices(old(entity_map)@[c])
            } else {
                old(entity_map)@[c]
            }),
{
    let mut i: usize = 0;
    while i < dirty.len()
        invariant
            i <= dirty@.len(),
            entity_map.locals() == old(entity_map).locals(),
            entity_map@.dom() == old(entity_map)@.dom(),
            forall|c: IVec3| #[trigger]
                old(entity_map)@.contains_key(c) ==> entity_map@[c] == (if is_dirty(
                    dirty@.take(i as int),
                    c,
                ) {
                    with_vertices(old(entity_map)@[c])
                } else {
                    old(entity_map)@[c]
                }),
        decreases dirty@.len() - i,
    {
        let local = dirty[i].0;
        let ghost earlier = entity_map@;
        proof {
            lemma_is_dirty_step(dirty@, i as int);
        }
        match entity_map.get_mut(local) {
            Some(bundle) => {
                match &mut bundle.building {
                    Some(building) => {
                        let vertices = compute_vertices(building.faces());
                        building.set_vertices(vertices);
                    },
                    None => {},
                }
            },
            None => {},
        }
        proof {
            assert(entity_map@.dom() =~= earlier.dom());
        }
        i += 1;
    }
    proof {
        assert(dirty@.take(dirty@.len() as int) =~= dirty@);
    }
}

/// The record `bundle` after the mesh stage has worked on it: where it has
/// buffers, its mesh is replaced by the mesh of its vertices.
pub open spec fn with_mesh(bundle: BundleView) -> BundleView {
    match bundle.building {
        Some(building) => BundleView { mesh: Some(mesh_of(building.vertices)), ..bundle },
        None => bundle,
    }
}

/// The mesh stage. For every dirty chunk that has a record with buffers, a
/// mesh is built from the record's vertices and replaces the record's mesh.
/// Other dirty chunks are passed over.
pub fn mesh_generation_system(entity_map: &mut ChunkEntityMap, dirty: &Vec<EvtChunkDirty>)
    ensures
        final(entity_map).locals() == old(entity_map).locals(),
        final(entity_map)@.dom() == old(entity_map)@.dom(),
        forall|c: IVec3| #[trigger]
            old(entity_map)@.contains_key(c) ==> final(entity_map)@[c] == (if is_dirty(dirty@, c) {
                with_mesh(old(entity_map)@[c])
            } else {
                old(entity_map)@[c]
            }),
{
    let mut i: usize = 0;
    while i < dirty.len()
        invariant
            i <= dirty@.len(),
            entity_map.locals() == old(entity_map).locals(),
            entity_map@.dom() == old(entity_map)@.dom(),
            forall|c: IVec3| #[trigger]
                old(entity_map)@.contains_key(c) ==> entity_map@[c] == (if is_dirty(
                    dirty@.take(i as int),
                    c,
                ) {
                    with_mesh(old(entity_map)@[c])
                } else {
                    old(entity_map)@[c]
                }),
        decreases dirty@.len() - i,
    {
        let local = dirty[i].0;
        let ghost earlier = entity_map@;
        proof {
            lemma_is_dirty_step(dirty@, i as int);
        }
        match entity_map.get_mut(local) {
            Some(bundle) => {
                let mesh = match &bundle.building {
                    Some(building) => Some(generate_mesh(building.vertices())),
                    None => None,
                };
                if mesh.is_some() {
                    bundle.mesh = mesh;
                }
            },
            None => {},
        }
        proof {
            assert(entity_map@.dom() =~= earlier.dom());
        }
        i += 1;
    }
    proof {
        assert(dirty@.take(dirty@.len() as int) =~= dirty@);
    }
}

/// The record `bundle` without its buffers.
pub open spec fn cleaned(bundle: BundleView) -> BundleView {
    BundleView { building: None, ..bundle }
}

/// The clean-up stage. The buffers of every dirty chunk that has a record
/// are discarded; the mesh stays.
pub fn clean_up_system(entity_map: &mut ChunkEntityMap, dirty: &Vec<EvtChunkDirty>)
    ensures
        final(entity_map).locals() == old(entity_map).locals(),
        final(entity_map)@.dom() == old(entity_map)@.dom(),
        forall|c: IVec3| #[trigger]
            old(entity_map)@.contains_key(c) ==> final(entity_map)@[c] == (if is_dirty(dirty@, c) {
                cleaned(old(entity_map)@[c])
            } else {
                old(entity_map)@[c]
            }),
{
    let mut i: usize = 0;
    while i < dirty.len()
        invariant
            i <= dirty@.len(),
            entity_map.locals() == old(entity_map).locals(),
            entity_map@.dom() == old(entity_map)@.dom(),
            forall|c: IVec3| #[trigger]
                old(entity_map)@.contains_key(c) ==> entity_map@[c] == (if is_dirty(
                    dirty@.take(i as int),
                    c,
                ) {
                    cleaned(old(entity_map)@[c])
                } else {
                    old(entity_map)@[c]
                }),
        decreases dirty@.len() - i,
    {
        let local = dirty[i].0;
        let ghost earlier = entity_map@;
        proof {
            lemma_is_dirty_step(dirty@, i as int);
        }
        match entity_map.get_mut(local) {
            Some(bundle) => {
                bundle.building = None;
            },
            None => {},
        }
        proof {
            assert(entity_map@.dom() =~= earlier.dom());
        }
        i += 1;
    }
    proof {
        assert(dirty@.take(dirty@.len() as int) =~= dirty@);
    }
}

/// `after` is the record `before` once all stages have rebuilt it from a
/// chunk with voxels `kinds`: its mesh is the mesh of the greedy merging of
/// the chunk's visible faces, and its buffers are gone.
pub open spec fn rebuilt_from(after: BundleView, before: BundleView, kinds: Seq<Kind>) -> bool {
    &&& after.local == before.local
    &&& after.building.is_none()
    &&& exists|faces: Seq<VoxelFace>| #[trigger]
        is_greedy_merge_of(faces, occlusion_of(kinds), kinds) && after.mesh == Some(
            mesh_of(vertices_of(faces)),
        )
}

/// `after` holds the records `before` once the stages have run for the
/// notifications in `dirty`, with the chunks of `world`: the same
/// coordinates have a record; the record of a chunk that is not dirty is
/// untouched; the record of a dirty chunk that is loaded is rebuilt from the
/// chunk; the record of a dirty chunk that is not loaded loses its buffers
/// after their faces, if any, have been made its mesh.
pub open spec fn rendered(
    world: Map<IVec3, Chunk>,
    before: Map<IVec3, BundleView>,
    dirty: Seq<EvtChunkDirty>,
    after: Map<IVec3, BundleView>,
) -> bool {
    &&& after.dom() == before.dom()
    &&& forall|c: IVec3| #[trigger]
        before.contains_key(c) ==> (if !is_dirty(dirty, c) {
            after[c] == before[c]
        } else if world.contains_key(c) {
            rebuilt_from(after[c], before[c], world[c]@)
        } else {
            after[c] == cleaned(with_mesh(with_vertices(before[c])))
        })
}

/// The five stages in order, for one batch of dirty notifications: face
/// occlusion, face merging, vertex computation, mesh generation, clean-up.
///
/// A dirty chunk that is loaded and has a record gets a new mesh, built
/// from the chunk's voxels alone. A dirty chunk that has a record but is not
/// loaded gets the mesh of whatever faces its buffers held, if it had
/// buffers. Either way the buffers are discarded. A dirty chunk without a
/// record is passed over, and no record is added or removed.
pub fn rendering_stage(world: &VoxWorld, entity_map: &mut ChunkEntityMap, dirty: &Vec<EvtChunkDirty>)
    ensures
        final(entity_map).locals() == old(entity_map).locals(),
        rendered(world@, old(entity_map)@, dirty@, final(entity_map)@),
{
    faces_occlusion_system(world, entity_map, dirty);
    let ghost occluded = entity_map@;
    faces_merging_system(dirty, world, entity_map);
    let ghost merged = entity_map@;
    vertices_computation_system(entity_map, dirty);
    let ghost with_vertices = entity_map@;
    mesh_generation_system(entity_map, dirty);
    let ghost meshed = entity_map@;
    clean_up_system(entity_map, dirty);
    proof {
        assert forall|c: IVec3| #[trigger] old(entity_map)@.contains_key(c) implies (if !is_dirty(
            dirty@,
            c,
        ) {
            entity_map@[c] == old(entity_map)@[c]
        } else if world@.contains_key(c) {
            rebuilt_from(entity_map@[c], old(entity_map)@[c], world@[c]@)
        } else {
            entity_map@[c] == cleaned(with_mesh(self::with_vertices(old(entity_map)@[c])))
        }) by {
            assert(occluded.contains_key(c));
            assert(merged.contains_key(c));
            assert(with_vertices.contains_key(c));
            assert(meshed.contains_key(c));
            if is_dirty(dirty@, c) && world@.contains_key(c) {
                let faces = merged[c].building.unwrap().faces;
                assert(is_greedy_merge_of(faces, occlusion_of(world@[c]@), world@[c]@));
            }
        }
    }
}

/// The notifications up to and including the one at `i` are those before it
/// and the one at `i`.
pub proof fn lemma_is_dirty_step(dirty: Seq<EvtChunkDirty>, i: int)
    requires
        0 <= i < dirty.len(),
    ensures
        forall|c: IVec3|
            #![trigger is_dirty(dirty.take(i + 1), c)]
            is_dirty(dirty.take(i + 1), c) <==> (is_dirty(dirty.take(i), c) || c == dirty[i].0),
{
    let shorter = dirty.take(i);
    let longer = dirty.take(i + 1);
    assert forall|c: IVec3|
        #![trigger is_dirty(dirty.take(i + 1), c)]
        is_dirty(longer, c) <==> (is_dirty(shorter, c) || c == dirty[i].0) by {
        let e = EvtChunkDirty(c);
        if is_dirty(longer, c) {
            let k = choose|k: int| 0 <= k < longer.len() && longer[k] == e;
            if k < i {
                assert(shorter[k] == e);
            }
        }
        if is_dirty(shorter, c) {
            let k = choose|k: int| 0 <= k < shorter.len() && shorter[k] == e;
            assert(longer[k] == e);
        }
        if c == dirty[i].0 {
            assert(longer[i] == e);
        }
    }
}

/// In a chunk whose voxels are all empty, every side of every voxel is
/// occluded.
pub proof fn lemma_empty_chunk_is_fully_occluded(kinds: Seq<Kind>)
    requires
        kinds.len() == BUFFER_SIZE,
        forall|i: int| 0 <= i < BUFFER_SIZE ==> kinds[i] == EMPTY,
    ensures
        forall|i: int, s: int|
            0 <= i < BUFFER_SIZE && 0 <= s < SIDE_COUNT ==> #[trigger] occlusion_of(kinds)[i][s],
{
    assert forall|i: int, s: int| 0 <= i < BUFFER_SIZE && 0 <= s < SIDE_COUNT implies #[trigger]
        occlusion_of(kinds)[i][s] by {
        lemma_xyz_round_trip(i);
    }
}

/// A solid voxel whose neighbours above and below are solid, and whose four
/// lateral neighbours are empty or outside the chunk, has exactly its upper
/// and lower sides occluded.
pub proof fn lemma_vertical_neighbors_occlude_up_and_down(kinds: Seq<Kind>, local: IVec3)
    requires
        kinds.len() == BUFFER_SIZE,
        within_bounds(local),
        kinds[index_of(local)] != EMPTY,
        within_bounds(neighbor_of(local, Side::Up)),
        within_bounds(neighbor_of(local, Side::Down)),
        kinds[index_of(neighbor_of(local, Side::Up))] != EMPTY,
        kinds[index_of(neighbor_of(local, Side::Down))] != EMPTY,
        forall|side: Side|
            side != Side::Up && side != Side::Down && within_bounds(
                #[trigger] neighbor_of(local, side),
            ) ==> kinds[index_of(neighbor_of(local, side))] == EMPTY,
    ensures
        occlusion_at(kinds, local) == seq![false, false, true, true, false, false],
{
    let lateral = seq![Side::Right, Side::Left, Side::Front, Side::Back];
    assert(neighbor_of(local, Side::Right) == neighbor_of(local, lateral[0]));
    assert(neighbor_of(local, Side::Left) == neighbor_of(local, lateral[1]));
    assert(neighbor_of(local, Side::Front) == neighbor_of(local, lateral[2]));
    assert(neighbor_of(local, Side::Back) == neighbor_of(local, lateral[3]));
    assert(occlusion_at(kinds, local) =~= seq![false, false, true, true, false, false]);
}

/// A solid voxel with a solid neighbour within the chunk on each of its six
/// sides has all six sides occluded.
pub proof fn lemma_surrounded_voxel_is_fully_occluded(kinds: Seq<Kind>, local: IVec3)
    requires
        kinds.len() == BUFFER_SIZE,
        within_bounds(local),
        forall|side: Side|
            within_bounds(#[trigger] neighbor_of(local, side)) && kinds[index_of(
                neighbor_of(local, side),
            )] != EMPTY,
    ensures
        occlusion_at(kinds, local) == seq![true, true, true, true, true, true],
{
    assert forall|s: int| 0 <= s < SIDE_COUNT implies side_occluded(kinds, local, side_at(s)) by {
        assert(within_bounds(neighbor_of(local, side_at(s))));
    }
    assert(occlusion_at(kinds, local) =~= seq![true, true, true, true, true, true]);
}

} // verus!
