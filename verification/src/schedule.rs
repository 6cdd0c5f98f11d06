//! One cycle of the pipeline: the stages in their fixed order, each working
//! on what the stage before it has left.

use vstd::prelude::*;
use crate::chunk::Chunk;
use crate::coord_map::removed_all;
use crate::genesis::common_of;
use crate::genesis::lemma_common_is_intersection;
use crate::genesis::load_chunks;
use crate::genesis::load_locals;
use crate::genesis::loaded_into;
use crate::genesis::unload_chunks;
use crate::genesis::unload_locals;
use crate::landscaping::despawn_chunks_system;
use crate::landscaping::despawned;
use crate::landscaping::diff_of;
use crate::landscaping::lemma_diff_is_set_difference;
use crate::landscaping::lemma_dirty_of_updates_have_records;
use crate::landscaping::loaded_locals;
use crate::landscaping::unloaded_locals;
use crate::landscaping::dirty_for;
use crate::landscaping::dirty_of_updates;
use crate::landscaping::spawn_chunks_system;
use crate::landscaping::spawned;
use crate::landscaping::update_chunks_system;
use crate::landscaping::BatchChunkCmdRes;
use crate::landscaping::BatchView;
use crate::math::IVec3;
use crate::pipeline::BundleView;
use crate::pipeline::ChunkEntityMap;
use crate::pipeline::CmdChunkLoad;
use crate::pipeline::CmdChunkUnload;
use crate::pipeline::EvtChunkDirty;
use crate::pipeline::EvtChunkUpdated;
use crate::rendering::is_dirty;
use crate::rendering::rendered;
use crate::rendering::rendering_stage;
use crate::world::VoxWorld;

verus! {

/// What a cycle starts from and what it leaves: the loaded chunks and the
/// records, each with its storage order, the queued requests and the queued
/// update notifications.
pub struct CycleView {
    pub world: Map<IVec3, Chunk>,
    pub world_locals: Seq<IVec3>,
    pub records: Map<IVec3, BundleView>,
    pub record_locals: Seq<IVec3>,
    pub batch: BatchView,
    pub updated: Seq<EvtChunkUpdated>,
}

/// The coordinates whose chunk a cycle that starts from `before` unloads:
/// those of the queued unload requests that are loaded.
pub open spec fn cycle_unloaded(before: CycleView) -> Seq<IVec3> {
    common_of(unload_locals(before.batch.unload), before.world.dom())
}

/// The coordinates at which a cycle that starts from `before` loads a
/// chunk: those of the queued load requests that are free once the unload
/// requests have been carried out.
pub open spec fn cycle_loaded(before: CycleView) -> Seq<IVec3> {
    diff_of(
        load_locals(before.batch.load),
        before.world.remove_keys(unload_locals(before.batch.unload).to_set()).dom(),
    )
}

/// The records of a cycle that starts from `before`, as the mesh stages find
/// them: without the records of the unloaded chunks, and with a fresh record
/// for each loaded chunk.
pub open spec fn cycle_records(before: CycleView) -> Map<IVec3, BundleView> {
    spawned(despawned(before.records, cycle_unloaded(before)), cycle_loaded(before))
}

/// The dirty notifications of a cycle that starts from `before`: one for
/// each loaded chunk, then one for each queued update of a chunk that has a
/// record.
pub open spec fn cycle_dirty(before: CycleView) -> Seq<EvtChunkDirty> {
    dirty_for(cycle_loaded(before)) + dirty_of_updates(
        before.updated,
        cycle_records(before).dom(),
    )
}

/// `after` is what one cycle leaves when it starts from `before`.
///
/// The queued unload requests are carried out, then the load requests; the
/// records follow the chunks; the meshes of the dirty chunks are rebuilt;
/// and every queue is empty at the end.
pub open spec fn cycle_post(before: CycleView, after: CycleView) -> bool {
    &&& loaded_into(
        before.world.remove_keys(unload_locals(before.batch.unload).to_set()),
        load_locals(before.batch.load),
        after.world,
    )
    &&& after.world_locals == removed_all(
        before.world_locals,
        unload_locals(before.batch.unload),
    ) + cycle_loaded(before)
    &&& rendered(after.world, cycle_records(before), cycle_dirty(before), after.records)
    &&& after.record_locals == removed_all(before.record_locals, cycle_unloaded(before)) + diff_of(
        cycle_loaded(before),
        despawned(before.records, cycle_unloaded(before)).dom(),
    )
    &&& after.batch.load == Seq::<CmdChunkLoad>::empty()
    &&& after.batch.unload == Seq::<CmdChunkUnload>::empty()
    &&& forall|c: IVec3|
        #![trigger after.batch.pending.contains(c)]
        after.batch.pending.contains(c) <==> before.batch.pending.contains(c) && !load_locals(
            before.batch.load,
        ).contains(c)
    &&& after.updated == Seq::<EvtChunkUpdated>::empty()
}

/// Runs one cycle: carries out the queued unload and load requests on the
/// world, removes the records of the unloaded chunks and creates those of
/// the loaded ones, marks dirty the loaded chunks and the updated chunks
/// that have a record, rebuilds the meshes of the dirty chunks, and leaves
/// every queue empty. Returns the dirty notifications that it worked on.
pub fn run_cycle(
    world: &mut VoxWorld,
    entity_map: &mut ChunkEntityMap,
    batch: &mut BatchChunkCmdRes,
    updated: &mut Vec<EvtChunkUpdated>,
) -> (dirty: Vec<EvtChunkDirty>)
    ensures
        cycle_post(
            CycleView {
                world: old(world)@,
                world_locals: old(world).locals(),
                records: old(entity_map)@,
                record_locals: old(entity_map).locals(),
                batch: old(batch)@,
                updated: old(updated)@,
            },
            CycleView {
                world: final(world)@,
                world_locals: final(world).locals(),
                records: final(entity_map)@,
                record_locals: final(entity_map).locals(),
                batch: final(batch)@,
                updated: final(updated)@,
            },
        ),
        dirty@ == cycle_dirty(
            CycleView {
                world: old(world)@,
                world_locals: old(world).locals(),
                records: old(entity_map)@,
                record_locals: old(entity_map).locals(),
                batch: old(batch)@,
                updated: old(updated)@,
            },
        ),
{
    let ghost before = CycleView {
        world: old(world)@,
        world_locals: old(world).locals(),
        records: old(entity_map)@,
        record_locals: old(entity_map).locals(),
        batch: old(batch)@,
        updated: old(updated)@,
    };
    let (load, unload) = batch.take();
    let unloaded = unload_chunks(world, &unload);
    let loaded = load_chunks(world, &load, batch);
    proof {
        assert(unloaded_locals(unloaded@) =~= cycle_unloaded(before));
        assert(loaded_locals(loaded@) =~= cycle_loaded(before));
    }
    despawn_chunks_system(entity_map, &unloaded);
    let mut dirty: Vec<EvtChunkDirty> = Vec::new();
    spawn_chunks_system(entity_map, &loaded, &mut dirty);
    update_chunks_system(updated, &mut dirty, entity_map);
    updated.clear();
    proof {
        assert(dirty@ =~= cycle_dirty(before));
    }
    rendering_stage(world, entity_map, &dirty);
    dirty
}

/// A cycle that finds every queue empty changes neither the chunks nor the
/// records, and works on no dirty notification.
pub proof fn lemma_quiet_cycle_changes_nothing(before: CycleView, after: CycleView)
    requires
        cycle_post(before, after),
        before.batch.load.len() == 0,
        before.batch.unload.len() == 0,
        before.updated.len() == 0,
    ensures
        cycle_dirty(before) == Seq::<EvtChunkDirty>::empty(),
        after.world == before.world,
        after.world_locals == before.world_locals,
        after.records == before.records,
        after.record_locals == before.record_locals,
{
    let unloads = unload_locals(before.batch.unload);
    let loads = load_locals(before.batch.load);
    assert(unloads =~= Seq::<IVec3>::empty());
    assert(loads =~= Seq::<IVec3>::empty());
    assert(unloads.to_set() =~= Set::<IVec3>::empty());
    assert(before.world.remove_keys(unloads.to_set()) =~= before.world);
    assert forall|c: IVec3| after.world.contains_key(c) <==> before.world.contains_key(c) by {
        assert(!loads.contains(c));
    }
    assert forall|c: IVec3| before.world.contains_key(c) implies after.world[c]
        == before.world[c] by {
        assert(before.world.remove_keys(unloads.to_set()).contains_key(c));
    }
    assert(after.world =~= before.world);
    assert(cycle_unloaded(before) =~= Seq::<IVec3>::empty());
    assert(cycle_loaded(before) =~= Seq::<IVec3>::empty());
    assert(cycle_unloaded(before).to_set() =~= Set::<IVec3>::empty());
    assert(cycle_records(before) =~= before.records);
    assert(cycle_dirty(before) =~= Seq::<EvtChunkDirty>::empty());
    assert forall|c: IVec3| before.records.contains_key(c) implies after.records[c]
        == before.records[c] by {
        assert(!is_dirty(cycle_dirty(before), c));
    }
    assert(after.records =~= before.records);
    assert(after.world_locals =~= before.world_locals);
    assert(after.record_locals =~= before.record_locals);
}

/// Of two cycles in a row with nothing queued in between, the second
/// rebuilds no mesh: it leaves the chunks and the records as the first left
/// them.
pub proof fn lemma_second_cycle_is_idle(start: CycleView, middle: CycleView, end: CycleView)
    requires
        cycle_post(start, middle),
        cycle_post(middle, end),
    ensures
        cycle_dirty(middle) == Seq::<EvtChunkDirty>::empty(),
        end.world == middle.world,
        end.world_locals == middle.world_locals,
        end.records == middle.records,
        end.record_locals == middle.record_locals,
{
    lemma_quiet_cycle_changes_nothing(middle, end);
}

/// A chunk that is unloaded in a cycle in which it is also updated loses its
/// record, whatever notifications name it; the records of the chunks that
/// are not dirty stay as they were.
pub proof fn lemma_unloaded_chunk_leaves_no_record(before: CycleView, after: CycleView, local: IVec3)
    requires
        cycle_post(before, after),
        cycle_unloaded(before).contains(local),
        !load_locals(before.batch.load).contains(local),
    ensures
        !after.world.contains_key(local),
        !after.records.contains_key(local),
        !is_dirty(cycle_dirty(before), local),
{
    let unloads = unload_locals(before.batch.unload);
    lemma_common_is_intersection(unloads, before.world.dom());
    lemma_diff_is_set_difference(
        load_locals(before.batch.load),
        before.world.remove_keys(unloads.to_set()).dom(),
    );
    assert(!cycle_loaded(before).contains(local));
    assert(!cycle_records(before).contains_key(local));
    lemma_dirty_of_updates_have_records(
        before.updated,
        cycle_records(before).dom(),
    );
    let dirty = cycle_dirty(before);
    if is_dirty(dirty, local) {
        let first = dirty_for(cycle_loaded(before));
        let second = dirty_of_updates(before.updated, cycle_records(before).dom());
        let k = choose|k: int| 0 <= k < dirty.len() && dirty[k] == EvtChunkDirty(local);
        if k < first.len() {
            assert(cycle_loaded(before)[k] == local);
        } else {
            assert(second[k - first.len()] == EvtChunkDirty(local));
            assert(second.contains(EvtChunkDirty(local)));
        }
    }
}

} // verus!
