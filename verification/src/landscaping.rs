//! The landscape: which chunks are kept loaded around the observer, and the
//! records that follow the chunks of the world.

use vstd::prelude::*;
use crate::chunk::local_of;
use crate::chunk::to_local;
use crate::coord_map::removed_all;
use crate::coord_map::CoordMap;
use crate::math::IVec3;
use crate::pipeline::fresh_bundle;
use crate::pipeline::BundleView;
use crate::pipeline::ChunkBundle;
use crate::pipeline::ChunkEntityMap;
use crate::pipeline::CmdChunkLoad;
use crate::pipeline::CmdChunkUnload;
use crate::pipeline::EvtChunkDirty;
use crate::pipeline::EvtChunkLoaded;
use crate::pipeline::EvtChunkUnloaded;
use crate::pipeline::EvtChunkUpdated;
use crate::query::lemma_small_range;
use crate::query::range;
use crate::query::range_of;

verus! {

/// The coordinates of `a` that are not in `b`, each once, in the order in
/// which `a` first lists them.
pub open spec fn diff_of(a: Seq<IVec3>, b: Set<IVec3>) -> Seq<IVec3>
    decreases a.len(),
{
    if a.len() == 0 {
        Seq::empty()
    } else {
        let rest = diff_of(a.drop_last(), b);
        if b.contains(a.last()) || a.drop_last().contains(a.last()) {
            rest
        } else {
            rest.push(a.last())
        }
    }
}

/// The difference of two lists holds exactly the coordinates that the
/// first list has and the second has not, and none of them twice.
pub proof fn lemma_diff_is_set_difference(a: Seq<IVec3>, b: Set<IVec3>)
    ensures
        forall|c: IVec3| diff_of(a, b).contains(c) <==> a.contains(c) && !b.contains(c),
        diff_of(a, b).no_duplicates(),
    decreases a.len(),
{
    if a.len() > 0 {
        let shorter = a.drop_last();
        let last = a.last();
        lemma_diff_is_set_difference(shorter, b);
        let rest = diff_of(shorter, b);
        let all = diff_of(a, b);
        assert forall|c: IVec3| all.contains(c) <==> a.contains(c) && !b.contains(c) by {
            if all.contains(c) {
                let i = choose|i: int| 0 <= i < all.len() && all[i] == c;
                if i < rest.len() {
                    assert(rest[i] == c);
                    assert(rest.contains(c));
                    assert(shorter.contains(c));
                    let j = choose|j: int| 0 <= j < shorter.len() && shorter[j] == c;
                    assert(a[j] == c);
                } else {
                    assert(a[a.len() - 1] == c);
                }
            }
            if a.contains(c) && !b.contains(c) {
                let j = choose|j: int| 0 <= j < a.len() && a[j] == c;
                if j < shorter.len() {
                    assert(shorter[j] == c);
                    assert(rest.contains(c));
                    let i = choose|i: int| 0 <= i < rest.len() && rest[i] == c;
                    assert(all[i] == c);
                } else if shorter.contains(c) {
                    assert(rest.contains(c));
                    let i = choose|i: int| 0 <= i < rest.len() && rest[i] == c;
                    assert(all[i] == c);
                } else {
                    assert(all[rest.len() as int] == c);
                }
            }
        }
        assert forall|i: int, j: int| 0 <= i < all.len() && 0 <= j < all.len() && i != j implies all[i]
            != all[j] by {
            if i < rest.len() && j < rest.len() {
            } else if i < rest.len() {
                assert(rest.contains(rest[i]));
            } else {
                assert(rest.contains(rest[j]));
            }
        }
    }
}

/// The set of the coordinates in `coords`.
fn set_of(coords: &Vec<IVec3>) -> (set: CoordMap<()>)
    ensures
        forall|c: IVec3| set@.contains_key(c) <==> coords@.contains(c),
{
    let mut set: CoordMap<()> = CoordMap::new();
    let mut i: usize = 0;
    while i < coords.len()
        invariant
            i <= coords@.len(),
            forall|c: IVec3| set@.contains_key(c) <==> coords@.take(i as int).contains(c),
        decreases coords@.len() - i,
    {
        let _ = set.try_insert(coords[i], ());
        proof {
            lemma_contains_step(coords@, i as int);
        }
        i += 1;
    }
    proof {
        assert(coords@.take(coords@.len() as int) =~= coords@);
    }
    set
}

/// A list up to and including position `i` holds what it held before that
/// position, and the element there.
pub proof fn lemma_contains_step(coords: Seq<IVec3>, i: int)
    requires
        0 <= i < coords.len(),
    ensures
        coords.take(i + 1).drop_last() == coords.take(i),
        coords.take(i + 1).last() == coords[i],
        forall|c: IVec3|
            #![trigger coords.take(i + 1).contains(c)]
            coords.take(i + 1).contains(c) <==> (coords.take(i).contains(c) || c == coords[i]),
{
    let shorter = coords.take(i);
    let longer = coords.take(i + 1);
    assert(longer.drop_last() =~= shorter);
    assert forall|c: IVec3|
        #![trigger coords.take(i + 1).contains(c)]
        longer.contains(c) <==> (shorter.contains(c) || c == coords[i]) by {
        if longer.contains(c) {
            let k = choose|k: int| 0 <= k < longer.len() && longer[k] == c;
            if k < i {
                assert(shorter[k] == c);
            }
        }
        if shorter.contains(c) {
            let k = choose|k: int| 0 <= k < shorter.len() && shorter[k] == c;
            assert(longer[k] == c);
        }
        if c == coords[i] {
            assert(longer[i] == c);
        }
    }
}

/// The coordinates of `a` that are not in the set `b`, each once, in the
/// order in which `a` first lists them.
fn difference(a: &Vec<IVec3>, b: &CoordMap<()>) -> (only: Vec<IVec3>)
    ensures
        only@ == diff_of(a@, b@.dom()),
{
    let mut only: Vec<IVec3> = Vec::new();
    let mut seen: CoordMap<()> = CoordMap::new();
    let mut i: usize = 0;
    while i < a.len()
        invariant
            i <= a@.len(),
            forall|c: IVec3| seen@.contains_key(c) <==> a@.take(i as int).contains(c),
            only@ == diff_of(a@.take(i as int), b@.dom()),
        decreases a@.len() - i,
    {
        let coord = a[i];
        proof {
            lemma_contains_step(a@, i as int);
        }
        let first = seen.try_insert(coord, ()).is_ok();
        if first && !b.contains(coord) {
            only.push(coord);
        }
        i += 1;
    }
    proof {
        assert(a@.take(a@.len() as int) =~= a@);
    }
    only
}

/// The coordinates to load and the coordinates to unload, given what should
/// be visible and what exists: to load, what is visible and does not exist;
/// to unload, what exists and is not visible. Each coordinate is listed once,
/// in the order of its list.
pub fn diff(visible: &Vec<IVec3>, existing: &Vec<IVec3>) -> (intents: (Vec<IVec3>, Vec<IVec3>))
    ensures
        intents.0@ == diff_of(visible@, existing@.to_set()),
        intents.1@ == diff_of(existing@, visible@.to_set()),
{
    let visible_set = set_of(visible);
    let existing_set = set_of(existing);
    proof {
        assert(visible_set@.dom() =~= visible@.to_set());
        assert(existing_set@.dom() =~= existing@.to_set());
    }
    let load = difference(visible, &existing_set);
    let unload = difference(existing, &visible_set);
    (load, unload)
}

/// Offset from the observer's chunk to the lowest corner of the landscape.
pub const BEGIN: i32 = -2;

/// Offset from the observer's chunk to the highest corner of the landscape.
pub const END: i32 = 2;

/// Time between two periodic recomputations of the landscape, in
/// milliseconds.
pub const SYNC_PERIOD: u32 = 1000;

/// Settings of the landscape.
#[derive(Clone, Copy, Debug, PartialEq, Eq, Structural)]
pub struct LandscapeConfig {
    /// While set, the landscape is left as it is.
    pub paused: bool,
}

impl Default for LandscapeConfig {
    fn default() -> (config: LandscapeConfig)
        ensures
            !config.paused,
    {
        LandscapeConfig { paused: false }
    }
}

/// What the landscape remembers between two evaluations: the chunk in which
/// the observer was last seen, and the time left until the next periodic
/// recomputation, in milliseconds.
#[derive(Clone, Copy, Debug, PartialEq, Eq, Structural)]
pub struct UpdateLandscapeMeta {
    pub last_pos: IVec3,
    pub next_sync: u32,
}

impl Default for UpdateLandscapeMeta {
    fn default() -> (meta: UpdateLandscapeMeta)
        ensures
            meta == (UpdateLandscapeMeta { last_pos: IVec3 { x: 0, y: 0, z: 0 }, next_sync: 0 }),
    {
        UpdateLandscapeMeta { last_pos: IVec3 { x: 0, y: 0, z: 0 }, next_sync: 0 }
    }
}

/// The load and unload requests that wait to be carried out, and the
/// coordinates whose load has been requested and has not completed.
pub struct BatchChunkCmdRes {
    pending: CoordMap<()>,
    load: Vec<CmdChunkLoad>,
    unload: Vec<CmdChunkUnload>,
}

/// The contents of a [`BatchChunkCmdRes`].
pub struct BatchView {
    pub pending: Set<IVec3>,
    pub load: Seq<CmdChunkLoad>,
    pub unload: Seq<CmdChunkUnload>,
}

/// The batch after a request to load `local`: the request is queued unless a
/// load of `local` is pending already.
pub open spec fn queue_load(batch: BatchView, local: IVec3) -> BatchView {
    if batch.pending.contains(local) {
        batch
    } else {
        BatchView {
            pending: batch.pending.insert(local),
            load: batch.load.push(CmdChunkLoad(local)),
            ..batch
        }
    }
}

/// The batch after requests to load each of `locals`, in order.
pub open spec fn queue_loads(batch: BatchView, locals: Seq<IVec3>) -> BatchView
    decreases locals.len(),
{
    if locals.len() == 0 {
        batch
    } else {
        queue_load(queue_loads(batch, locals.drop_last()), locals.last())
    }
}

/// The batch after a request to unload `local`.
pub open spec fn queue_unload(batch: BatchView, local: IVec3) -> BatchView {
    BatchView { unload: batch.unload.push(CmdChunkUnload(local)), ..batch }
}

/// The batch after requests to unload each of `locals`, in order.
pub open spec fn queue_unloads(batch: BatchView, locals: Seq<IVec3>) -> BatchView
    decreases locals.len(),
{
    if locals.len() == 0 {
        batch
    } else {
        queue_unload(queue_unloads(batch, locals.drop_last()), locals.last())
    }
}

impl View for BatchChunkCmdRes {
    type V = BatchView;

    closed spec fn view(&self) -> BatchView {
        BatchView { pending: self.pending@.dom(), load: self.load@, unload: self.unload@ }
    }
}

impl Default for BatchChunkCmdRes {
    /// A batch without requests.
    fn default() -> (batch: BatchChunkCmdRes)
        ensures
            batch@ == (BatchView {
                pending: Set::empty(),
                load: Seq::empty(),
                unload: Seq::empty(),
            }),
    {
        let batch = BatchChunkCmdRes {
            pending: CoordMap::new(),
            load: Vec::new(),
            unload: Vec::new(),
        };
        assert(batch@.pending =~= Set::empty());
        batch
    }
}

impl BatchChunkCmdRes {
    /// Requests the load of the chunk at `local`. A coordinate whose load is
    /// pending is not queued again.
    pub fn load(&mut self, local: IVec3)
        ensures
            final(self)@ == queue_load(old(self)@, local),
    {
        if self.pending.try_insert(local, ()).is_ok() {
            self.load.push(CmdChunkLoad(local));
            assert(self@.pending =~= old(self)@.pending.insert(local));
        }
    }

    /// Requests the unload of the chunk at `local`.
    pub fn unload(&mut self, local: IVec3)
        ensures
            final(self)@ == queue_unload(old(self)@, local),
    {
        self.unload.push(CmdChunkUnload(local));
    }

    /// Whether a load of the chunk at `local` is pending.
    pub fn is_pending(&self, local: IVec3) -> (pending: bool)
        ensures
            pending == self@.pending.contains(local),
    {
        self.pending.contains(local)
    }

    /// Records that the load of the chunk at `local` has completed, so that
    /// it can be requested again.
    pub fn completed(&mut self, local: IVec3)
        ensures
            final(self)@ == (BatchView {
                pending: old(self)@.pending.remove(local),
                ..old(self)@
            }),
    {
        let _ = self.pending.remove(local);
        assert(self@.pending =~= old(self)@.pending.remove(local));
    }

    /// Hands over the queued requests, load requests first, and leaves both
    /// queues empty. Pending loads stay pending.
    pub fn take(&mut self) -> (commands: (Vec<CmdChunkLoad>, Vec<CmdChunkUnload>))
        ensures
            commands.0@ == old(self)@.load,
            commands.1@ == old(self)@.unload,
            final(self)@ == (BatchView {
                load: Seq::empty(),
                unload: Seq::empty(),
                ..old(self)@
            }),
    {
        let mut load: Vec<CmdChunkLoad> = Vec::new();
        let mut unload: Vec<CmdChunkUnload> = Vec::new();
        core::mem::swap(&mut self.load, &mut load);
        core::mem::swap(&mut self.unload, &mut unload);
        (load, unload)
    }
}

/// The box of chunk coordinates that is visible from the chunk `center`.
pub open spec fn visible_from(center: IVec3) -> Seq<IVec3> {
    range_of(
        IVec3 {
            x: (center.x + BEGIN) as i32,
            y: (center.y + BEGIN) as i32,
            z: (center.z + BEGIN) as i32,
        },
        IVec3 { x: (center.x + END) as i32, y: (center.y + END) as i32, z: (center.z + END) as i32 },
    )
}

/// Whether an evaluation of the landscape does nothing at all: the landscape
/// is paused, the world is not ready, or no observer is tracked.
pub open spec fn landscape_skips(
    config: LandscapeConfig,
    world_ready: bool,
    observer: Option<IVec3>,
) -> bool {
    config.paused || !world_ready || observer.is_none()
}

/// Whether an evaluation recomputes the landscape: the observer has entered
/// another chunk, or more time has passed than was left until the periodic
/// recomputation.
pub open spec fn landscape_resyncs(meta: UpdateLandscapeMeta, center: IVec3, delta: u32) -> bool {
    center != meta.last_pos || delta > meta.next_sync
}

/// The batch after the landscape around `center` has been compared with the
/// records at `existing`: a load is requested for what is visible and has no
/// record, then an unload for every record that is not visible.
pub open spec fn landscape_requests(batch: BatchView, center: IVec3, existing: Seq<IVec3>) -> BatchView {
    queue_unloads(
        queue_loads(batch, diff_of(visible_from(center), existing.to_set())),
        diff_of(existing, visible_from(center).to_set()),
    )
}

/// What the landscape remembers after an evaluation: the same as before
/// when the evaluation is skipped; the observer's chunk and a full period
/// when the landscape is recomputed; else the time left less `delta`.
pub open spec fn meta_after(
    meta: UpdateLandscapeMeta,
    config: LandscapeConfig,
    world_ready: bool,
    observer: Option<IVec3>,
    delta: u32,
) -> UpdateLandscapeMeta {
    if landscape_skips(config, world_ready, observer) {
        meta
    } else if landscape_resyncs(meta, local_of(observer.unwrap()), delta) {
        UpdateLandscapeMeta { last_pos: local_of(observer.unwrap()), next_sync: SYNC_PERIOD }
    } else {
        UpdateLandscapeMeta { next_sync: (meta.next_sync - delta) as u32, ..meta }
    }
}

/// The batch after an evaluation: requests are added only when the
/// landscape is recomputed.
pub open spec fn batch_after(
    batch: BatchView,
    meta: UpdateLandscapeMeta,
    config: LandscapeConfig,
    world_ready: bool,
    observer: Option<IVec3>,
    delta: u32,
    existing: Seq<IVec3>,
) -> BatchView {
    if !landscape_skips(config, world_ready, observer) && landscape_resyncs(
        meta,
        local_of(observer.unwrap()),
        delta,
    ) {
        landscape_requests(batch, local_of(observer.unwrap()), existing)
    } else {
        batch
    }
}

/// One evaluation of the landscape, `delta` milliseconds after the one
/// before, with the observer at the world position `observer`.
///
/// Nothing happens while the landscape is paused, the world is not ready or
/// no observer is tracked. Otherwise the time left until the periodic
/// recomputation is counted down. When the observer's chunk has changed or
/// that time has run out, the landscape is recomputed around the observer's
/// chunk and the requests that bring the records in line with it are added
/// to `batch`.
pub fn update_landscape_system(
    delta: u32,
    entity_map: &ChunkEntityMap,
    config: &LandscapeConfig,
    world_ready: bool,
    meta: &mut UpdateLandscapeMeta,
    batch: &mut BatchChunkCmdRes,
    observer: Option<IVec3>,
)
    ensures
        *final(meta) == meta_after(*old(meta), *config, world_ready, observer, delta),
        final(batch)@ == batch_after(
            old(batch)@,
            *old(meta),
            *config,
            world_ready,
            observer,
            delta,
            entity_map.locals(),
        ),
{
    if config.paused || !world_ready {
        return ;
    }
    let center = match observer {
        Some(position) => to_local(position),
        None => {
            return ;
        },
    };
    if center == meta.last_pos && delta <= meta.next_sync {
        meta.next_sync = meta.next_sync - delta;
        return ;
    }
    meta.next_sync = SYNC_PERIOD;
    meta.last_pos = center;
    let begin = center.plus(IVec3::splat(BEGIN));
    let end = center.plus(IVec3::splat(END));
    proof {
        lemma_small_range(begin, end, END - BEGIN);
    }
    let visible = range(begin, end);
    let existing = entity_map.keys();
    let (to_load, to_unload) = diff(&visible, existing);
    let mut i: usize = 0;
    while i < to_load.len()
        invariant
            i <= to_load@.len(),
            batch@ == queue_loads(old(batch)@, to_load@.take(i as int)),
        decreases to_load@.len() - i,
    {
        proof {
            lemma_contains_step(to_load@, i as int);
        }
        batch.load(to_load[i]);
        i += 1;
    }
    proof {
        assert(to_load@.take(to_load@.len() as int) =~= to_load@);
    }
    let ghost loaded = batch@;
    let mut j: usize = 0;
    while j < to_unload.len()
        invariant
            j <= to_unload@.len(),
            batch@ == queue_unloads(loaded, to_unload@.take(j as int)),
        decreases to_unload@.len() - j,
    {
        proof {
            lemma_contains_step(to_unload@, j as int);
        }
        batch.unload(to_unload[j]);
        j += 1;
    }
    proof {
        assert(to_unload@.take(to_unload@.len() as int) =~= to_unload@);
    }
}

/// The coordinates that a list of load notifications names, in order.
pub open spec fn loaded_locals(loaded: Seq<EvtChunkLoaded>) -> Seq<IVec3> {
    Seq::new(loaded.len(), |i: int| loaded[i].0)
}

/// The coordinates that a list of unload notifications names, in order.
pub open spec fn unloaded_locals(unloaded: Seq<EvtChunkUnloaded>) -> Seq<IVec3> {
    Seq::new(unloaded.len(), |i: int| unloaded[i].0)
}

/// One dirty notification for each of `locals`, in order.
pub open spec fn dirty_for(locals: Seq<IVec3>) -> Seq<EvtChunkDirty> {
    Seq::new(locals.len(), |i: int| EvtChunkDirty(locals[i]))
}

/// The records after each of `loaded` has been given a fresh record.
pub open spec fn spawned(records: Map<IVec3, BundleView>, loaded: Seq<IVec3>) -> Map<
    IVec3,
    BundleView,
> {
    Map::new(
        |c: IVec3| records.contains_key(c) || loaded.contains(c),
        |c: IVec3|
            if loaded.contains(c) {
                fresh_bundle(c)
            } else {
                records[c]
            },
    )
}

/// The records after those of `unloaded` have been removed.
pub open spec fn despawned(records: Map<IVec3, BundleView>, unloaded: Seq<IVec3>) -> Map<
    IVec3,
    BundleView,
> {
    records.remove_keys(unloaded.to_set())
}

/// Gives every chunk that has been loaded a fresh record, in place of the
/// record that it may have had, and marks it dirty. The records of new
/// coordinates follow the others in storage order, in the order in which
/// the notifications first name them.
pub fn spawn_chunks_system(
    entity_map: &mut ChunkEntityMap,
    loaded: &Vec<EvtChunkLoaded>,
    dirty: &mut Vec<EvtChunkDirty>,
)
    ensures
        final(entity_map)@ == spawned(old(entity_map)@, loaded_locals(loaded@)),
        final(entity_map).locals() == old(entity_map).locals() + diff_of(
            loaded_locals(loaded@),
            old(entity_map)@.dom(),
        ),
        final(dirty)@ == old(dirty)@ + dirty_for(loaded_locals(loaded@)),
{
    let ghost names = loaded_locals(loaded@);
    let mut i: usize = 0;
    while i < loaded.len()
        invariant
            i <= loaded@.len(),
            names == loaded_locals(loaded@),
            forall|c: IVec3|
                entity_map@.contains_key(c) <==> old(entity_map)@.contains_key(c) || names.take(
                    i as int,
                ).contains(c),
            forall|c: IVec3| #[trigger]
                entity_map@.contains_key(c) ==> entity_map@[c] == (if names.take(
                    i as int,
                ).contains(c) {
                    fresh_bundle(c)
                } else {
                    old(entity_map)@[c]
                }),
            entity_map.locals() == old(entity_map).locals() + diff_of(
                names.take(i as int),
                old(entity_map)@.dom(),
            ),
            dirty@ == old(dirty)@ + dirty_for(names.take(i as int)),
        decreases loaded@.len() - i,
    {
        let local = loaded[i].0;
        proof {
            lemma_contains_step(names, i as int);
        }
        let _ = entity_map.insert(local, ChunkBundle::new(local));
        dirty.push(EvtChunkDirty(local));
        proof {
            assert(entity_map.locals() =~= old(entity_map).locals() + diff_of(
                names.take(i + 1),
                old(entity_map)@.dom(),
            ));
            assert(dirty@ =~= old(dirty)@ + dirty_for(names.take(i + 1)));
        }
        i += 1;
    }
    proof {
        assert(names.take(loaded@.len() as int) =~= names);
        assert(entity_map@ =~= spawned(old(entity_map)@, names));
    }
}

/// Removes the record of every chunk that has been unloaded. A notification
/// for a chunk without a record does nothing.
pub fn despawn_chunks_system(entity_map: &mut ChunkEntityMap, unloaded: &Vec<EvtChunkUnloaded>)
    ensures
        final(entity_map)@ == despawned(old(entity_map)@, unloaded_locals(unloaded@)),
        final(entity_map).locals() == removed_all(
            old(entity_map).locals(),
            unloaded_locals(unloaded@),
        ),
{
    let ghost names = unloaded_locals(unloaded@);
    let mut i: usize = 0;
    while i < unloaded.len()
        invariant
            i <= unloaded@.len(),
            names == unloaded_locals(unloaded@),
            forall|c: IVec3|
                entity_map@.contains_key(c) <==> old(entity_map)@.contains_key(c) && !names.take(
                    i as int,
                ).contains(c),
            forall|c: IVec3| #[trigger]
                entity_map@.contains_key(c) ==> entity_map@[c] == old(entity_map)@[c],
            entity_map.locals() == removed_all(old(entity_map).locals(), names.take(i as int)),
        decreases unloaded@.len() - i,
    {
        proof {
            lemma_contains_step(names, i as int);
        }
        let _ = entity_map.remove(unloaded[i].0);
        i += 1;
    }
    proof {
        assert(names.take(unloaded@.len() as int) =~= names);
        assert(entity_map@ =~= despawned(old(entity_map)@, names));
    }
}

/// The dirty notifications that a list of update notifications gives rise
/// to: one for each update of a chunk that has a record, in order.
pub open spec fn dirty_of_updates(updated: Seq<EvtChunkUpdated>, records: Set<IVec3>) -> Seq<
    EvtChunkDirty,
>
    decreases updated.len(),
{
    if updated.len() == 0 {
        Seq::empty()
    } else {
        let rest = dirty_of_updates(updated.drop_last(), records);
        if records.contains(updated.last().0) {
            rest.push(EvtChunkDirty(updated.last().0))
        } else {
            rest
        }
    }
}

/// Every dirty notification that updates give rise to names a chunk that
/// has a record.
pub proof fn lemma_dirty_of_updates_have_records(updated: Seq<EvtChunkUpdated>, records: Set<IVec3>)
    ensures
        forall|c: IVec3|
            dirty_of_updates(updated, records).contains(EvtChunkDirty(c)) ==> records.contains(c),
    decreases updated.len(),
{
    if updated.len() > 0 {
        lemma_dirty_of_updates_have_records(updated.drop_last(), records);
        let rest = dirty_of_updates(updated.drop_last(), records);
        let all = dirty_of_updates(updated, records);
        assert forall|c: IVec3| all.contains(EvtChunkDirty(c)) implies records.contains(c) by {
            let i = choose|i: int| 0 <= i < all.len() && all[i] == EvtChunkDirty(c);
            if i < rest.len() {
                assert(rest[i] == EvtChunkDirty(c));
                assert(rest.contains(EvtChunkDirty(c)));
            }
        }
    }
}

/// Marks dirty every chunk whose voxels have changed and that has a record.
pub fn update_chunks_system(
    updated: &Vec<EvtChunkUpdated>,
    dirty: &mut Vec<EvtChunkDirty>,
    entity_map: &ChunkEntityMap,
)
    ensures
        final(dirty)@ == old(dirty)@ + dirty_of_updates(updated@, entity_map@.dom()),
{
    let mut i: usize = 0;
    while i < updated.len()
        invariant
            i <= updated@.len(),
            dirty@ == old(dirty)@ + dirty_of_updates(updated@.take(i as int), entity_map@.dom()),
        decreases updated@.len() - i,
    {
        let local = updated[i].0;
        proof {
            assert(updated@.take(i + 1).drop_last() =~= updated@.take(i as int));
        }
        if entity_map.contains(local) {
            dirty.push(EvtChunkDirty(local));
        }
        proof {
            assert(dirty@ =~= old(dirty)@ + dirty_of_updates(
                updated@.take(i + 1),
                entity_map@.dom(),
            ));
        }
        i += 1;
    }
    proof {
        assert(updated@.take(updated@.len() as int) =~= updated@);
    }
}

} // verus!
