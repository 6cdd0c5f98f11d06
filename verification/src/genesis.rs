//! Loading and unloading: the stage that carries out the queued requests on
//! the world and reports what it did.

use vstd::prelude::*;
use crate::chunk::BUFFER_SIZE;
use crate::chunk::index_of;
use crate::chunk::within_bounds;
use crate::pipeline::EvtChunkUpdated;
use crate::voxel::Kind;
use crate::world::WorldError;
use crate::chunk::Chunk;
use crate::coord_map::removed_all;
use crate::landscaping::diff_of;
use crate::landscaping::lemma_contains_step;
use crate::landscaping::BatchChunkCmdRes;
use crate::math::IVec3;
use crate::pipeline::CmdChunkLoad;
use crate::pipeline::CmdChunkUnload;
use crate::pipeline::EvtChunkLoaded;
use crate::pipeline::EvtChunkUnloaded;
use crate::voxel::EMPTY;
use crate::world::VoxWorld;

verus! {

/// The coordinates that a list of load requests names, in order.
pub open spec fn load_locals(commands: Seq<CmdChunkLoad>) -> Seq<IVec3> {
    Seq::new(commands.len(), |i: int| commands[i].0)
}

/// The coordinates that a list of unload requests names, in order.
pub open spec fn unload_locals(commands: Seq<CmdChunkUnload>) -> Seq<IVec3> {
    Seq::new(commands.len(), |i: int| commands[i].0)
}

/// The coordinates of `a` that are in `b`, each once, in the order in which
/// `a` first lists them.
pub open spec fn common_of(a: Seq<IVec3>, b: Set<IVec3>) -> Seq<IVec3>
    decreases a.len(),
{
    if a.len() == 0 {
        Seq::empty()
    } else {
        let rest = common_of(a.drop_last(), b);
        if b.contains(a.last()) && !a.drop_last().contains(a.last()) {
            rest.push(a.last())
        } else {
            rest
        }
    }
}

/// The common part of two lists holds exactly the coordinates that both
/// have, and none of them twice.
pub proof fn lemma_common_is_intersection(a: Seq<IVec3>, b: Set<IVec3>)
    ensures
        forall|c: IVec3| common_of(a, b).contains(c) <==> a.contains(c) && b.contains(c),
        common_of(a, b).no_duplicates(),
    decreases a.len(),
{
    if a.len() > 0 {
        let shorter = a.drop_last();
        lemma_common_is_intersection(shorter, b);
        let rest = common_of(shorter, b);
        let all = common_of(a, b);
        assert forall|c: IVec3| all.contains(c) <==> a.contains(c) && b.contains(c) by {
            if all.contains(c) {
                let i = choose|i: int| 0 <= i < all.len() && all[i] == c;
                if i < rest.len() {
                    assert(rest[i] == c);
                    assert(rest.contains(c));
                    assert(shorter.contains(c));
                    let j = choose|j: int| 0 <= j < shorter.len() && shorter[j] == c;
                    assert(a[j] == c);
                } else {
                    assert(a[a.len() - 1] == c);
                }
            }
            if a.contains(c) && b.contains(c) {
                let j = choose|j: int| 0 <= j < a.len() && a[j] == c;
                if j < shorter.len() {
                    assert(shorter[j] == c);
                }
                if shorter.contains(c) {
                    assert(rest.contains(c));
                    let i = choose|i: int| 0 <= i < rest.len() && rest[i] == c;
                    assert(all[i] == c);
                } else {
                    assert(all[rest.len() as int] == c);
                }
            }
        }
        assert forall|i: int, j: int| 0 <= i < all.len() && 0 <= j < all.len() && i != j implies all[i]
            != all[j] by {
            if i < rest.len() && j < rest.len() {
            } else if i < rest.len() {
                assert(rest.contains(rest[i]));
            } else {
                assert(rest.contains(rest[j]));
            }
        }
    }
}

/// Carries out the unload requests in order. Every request for a chunk that
/// is loaded removes the chunk and is reported; a request for a chunk that
/// is not loaded, or no longer, does nothing.
pub fn unload_chunks(world: &mut VoxWorld, commands: &Vec<CmdChunkUnload>) -> (unloaded: Vec<
    EvtChunkUnloaded,
>)
    ensures
        final(world)@ == old(world)@.remove_keys(unload_locals(commands@).to_set()),
        Seq::new(unloaded@.len(), |i: int| unloaded@[i].0) == common_of(
            unload_locals(commands@),
            old(world)@.dom(),
        ),
        final(world).locals() == removed_all(old(world).locals(), unload_locals(commands@)),
{
    let mut unloaded: Vec<EvtChunkUnloaded> = Vec::new();
    let ghost names = unload_locals(commands@);
    let mut i: usize = 0;
    while i < commands.len()
        invariant
            i <= commands@.len(),
            names == unload_locals(commands@),
            forall|c: IVec3|
                world@.contains_key(c) <==> old(world)@.contains_key(c) && !names.take(
                    i as int,
                ).contains(c),
            forall|c: IVec3| #[trigger] world@.contains_key(c) ==> world@[c] == old(world)@[c],
            Seq::new(unloaded@.len(), |k: int| unloaded@[k].0) == common_of(
                names.take(i as int),
                old(world)@.dom(),
            ),
            world.locals() == removed_all(old(world).locals(), names.take(i as int)),
        decreases commands@.len() - i,
    {
        let local = commands[i].0;
        proof {
            lemma_contains_step(names, i as int);
        }
        let ghost reported = Seq::new(unloaded@.len(), |k: int| unloaded@[k].0);
        if world.remove(local).is_some() {
            unloaded.push(EvtChunkUnloaded(local));
            assert(Seq::new(unloaded@.len(), |k: int| unloaded@[k].0) =~= reported.push(local));
        }
        i += 1;
    }
    proof {
        assert(names.take(commands@.len() as int) =~= names);
        assert(world@ =~= old(world)@.remove_keys(names.to_set()));
    }
    unloaded
}

/// `after` holds the chunks `before` and an all-empty chunk at each of
/// `names` that was free.
pub open spec fn loaded_into(
    before: Map<IVec3, Chunk>,
    names: Seq<IVec3>,
    after: Map<IVec3, Chunk>,
) -> bool {
    &&& forall|c: IVec3| after.contains_key(c) <==> before.contains_key(c) || names.contains(c)
    &&& forall|c: IVec3| #[trigger] before.contains_key(c) ==> after[c] == before[c]
    &&& forall|c: IVec3| #[trigger]
        after.contains_key(c) && !before.contains_key(c) ==> after[c]@ == Seq::new(
            BUFFER_SIZE as nat,
            |i: int| EMPTY,
        )
}

/// Carries out the load requests in order. Every request for a coordinate
/// that is free loads an all-empty chunk there and is reported; a request
/// for a coordinate that is taken is turned down and changes nothing.
/// Either way the request has completed and is pending no longer.
pub fn load_chunks(
    world: &mut VoxWorld,
    commands: &Vec<CmdChunkLoad>,
    batch: &mut BatchChunkCmdRes,
) -> (loaded: Vec<EvtChunkLoaded>)
    ensures
        loaded_into(old(world)@, load_locals(commands@), final(world)@),
        Seq::new(loaded@.len(), |i: int| loaded@[i].0) == diff_of(
            load_locals(commands@),
            old(world)@.dom(),
        ),
        final(world).locals() == old(world).locals() + diff_of(
            load_locals(commands@),
            old(world)@.dom(),
        ),
        final(batch)@.load == old(batch)@.load,
        final(batch)@.unload == old(batch)@.unload,
        forall|c: IVec3|
            #![trigger final(batch)@.pending.contains(c)]
            final(batch)@.pending.contains(c) <==> old(batch)@.pending.contains(c) && !load_locals(
                commands@,
            ).contains(c),
{
    let mut loaded: Vec<EvtChunkLoaded> = Vec::new();
    let ghost names = load_locals(commands@);
    let mut i: usize = 0;
    while i < commands.len()
        invariant
            i <= commands@.len(),
            names == load_locals(commands@),
            forall|c: IVec3|
                world@.contains_key(c) <==> old(world)@.contains_key(c) || names.take(
                    i as int,
                ).contains(c),
            forall|c: IVec3| #[trigger] old(world)@.contains_key(c) ==> world@[c] == old(world)@[c],
            forall|c: IVec3| #[trigger]
                world@.contains_key(c) && !old(world)@.contains_key(c) ==> world@[c]@ == Seq::new(
                    BUFFER_SIZE as nat,
                    |i: int| EMPTY,
                ),
            Seq::new(loaded@.len(), |k: int| loaded@[k].0) == diff_of(
                names.take(i as int),
                old(world)@.dom(),
            ),
            world.locals() == old(world).locals() + diff_of(
                names.take(i as int),
                old(world)@.dom(),
            ),
            batch@.load == old(batch)@.load,
            batch@.unload == old(batch)@.unload,
            forall|c: IVec3|
                #![trigger batch@.pending.contains(c)]
                batch@.pending.contains(c) <==> old(batch)@.pending.contains(c) && !names.take(
                    i as int,
                ).contains(c),
        decreases commands@.len() - i,
    {
        let local = commands[i].0;
        proof {
            lemma_contains_step(names, i as int);
        }
        let ghost reported = Seq::new(loaded@.len(), |k: int| loaded@[k].0);
        batch.completed(local);
        if world.add(local).is_ok() {
            loaded.push(EvtChunkLoaded(local));
            proof {
                assert(Seq::new(loaded@.len(), |k: int| loaded@[k].0) =~= reported.push(local));
                assert(world.locals() =~= old(world).locals() + diff_of(
                    names.take(i + 1),
                    old(world)@.dom(),
                ));
            }
        }
        i += 1;
    }
    proof {
        assert(names.take(commands@.len() as int) =~= names);
    }
    loaded
}

/// Sets the kind of one voxel and, when that succeeds, queues the
/// notification that the chunk's voxels have changed. Fails, and changes
/// and queues nothing, with `NotFound` when no chunk is loaded at `local`,
/// else with `OutOfBounds` when `voxel` is no valid local coordinate.
pub fn update_chunk(
    world: &mut VoxWorld,
    updated: &mut Vec<EvtChunkUpdated>,
    local: IVec3,
    voxel: IVec3,
    kind: Kind,
) -> (done: Result<(), WorldError>)
    ensures
        done == (if !old(world)@.contains_key(local) {
            Err::<(), WorldError>(WorldError::NotFound)
        } else if !within_bounds(voxel) {
            Err::<(), WorldError>(WorldError::OutOfBounds)
        } else {
            Ok::<(), WorldError>(())
        }),
        final(world)@.dom() == old(world)@.dom(),
        final(world).locals() == old(world).locals(),
        forall|c: IVec3| #[trigger]
            old(world)@.contains_key(c) ==> final(world)@[c]@ == (if c == local && done.is_ok() {
                old(world)@[c]@.update(index_of(voxel), kind)
            } else {
                old(world)@[c]@
            }),
        final(updated)@ == (if done.is_ok() {
            old(updated)@.push(EvtChunkUpdated(local))
        } else {
            old(updated)@
        }),
{
    let done = world.set_voxel_kind(local, voxel, kind);
    if done.is_ok() {
        updated.push(EvtChunkUpdated(local));
    }
    done
}

} // verus!
