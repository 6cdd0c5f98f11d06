use voxel_world::landscaping;
use voxel_world::landscaping::{
    diff, BatchChunkCmdRes, LandscapeConfig, UpdateLandscapeMeta, BEGIN, END, SYNC_PERIOD,
};
use voxel_world::math::IVec3;
use voxel_world::pipeline::{
    ChunkBundle, ChunkEntityMap, CmdChunkLoad, CmdChunkUnload, EvtChunkDirty, EvtChunkLoaded,
    EvtChunkUnloaded, EvtChunkUpdated,
};
use voxel_world::query::range;

fn sorted(mut coords: Vec<IVec3>) -> Vec<(i32, i32, i32)> {
    let mut keys: Vec<(i32, i32, i32)> = coords.drain(..).map(|c| (c.x, c.y, c.z)).collect();
    keys.sort();
    keys
}

#[test]
fn spawn_chunks_system() {
    // Arrange
    let loaded = vec![EvtChunkLoaded(IVec3::new(1, 1, 1))];
    let mut entity_map = ChunkEntityMap::default();
    let mut dirty: Vec<EvtChunkDirty> = vec![];

    // Act
    landscaping::spawn_chunks_system(&mut entity_map, &loaded, &mut dirty);

    // Assert
    assert_eq!(dirty.iter().next().unwrap().0, IVec3::new(1, 1, 1));
    assert_eq!(entity_map.len(), 1);
    assert_eq!(
        entity_map.get(IVec3::new(1, 1, 1)).unwrap().local.0,
        IVec3::new(1, 1, 1)
    );
}

#[test]
fn despawn_chunks_system() {
    // Arrange
    let unloaded = vec![EvtChunkUnloaded(IVec3::new(1, 1, 1))];

    let mut entity_map = ChunkEntityMap::default();
    entity_map.insert(IVec3::new(1, 1, 1), ChunkBundle::new(IVec3::new(1, 1, 1)));
    assert_eq!(entity_map.len(), 1);

    // Act
    landscaping::despawn_chunks_system(&mut entity_map, &unloaded);

    // Assert
    assert_eq!(entity_map.len(), 0);
    assert!(entity_map.is_empty());
}

#[test]
fn update_chunks_system() {
    // Arrange
    let updated = vec![EvtChunkUpdated(IVec3::new(1, 2, 3))];
    let mut dirty: Vec<EvtChunkDirty> = vec![];

    let mut entity_map = ChunkEntityMap::default();
    entity_map.insert(IVec3::new(1, 2, 3), ChunkBundle::default());

    // Act
    landscaping::update_chunks_system(&updated, &mut dirty, &entity_map);

    // Assert
    assert_eq!(dirty.iter().next().unwrap().0, IVec3::new(1, 2, 3));
}

#[test]
fn updates_of_chunks_without_a_record_raise_no_dirty_notification() {
    let updated = vec![
        EvtChunkUpdated(IVec3::new(9, 9, 9)),
        EvtChunkUpdated(IVec3::new(1, 2, 3)),
        EvtChunkUpdated(IVec3::new(1, 2, 3)),
    ];
    let mut dirty = vec![EvtChunkDirty(IVec3::new(0, 0, 0))];
    let mut entity_map = ChunkEntityMap::default();
    entity_map.insert(IVec3::new(1, 2, 3), ChunkBundle::new(IVec3::new(1, 2, 3)));

    landscaping::update_chunks_system(&updated, &mut dirty, &entity_map);

    assert_eq!(
        dirty,
        vec![
            EvtChunkDirty(IVec3::new(0, 0, 0)),
            EvtChunkDirty(IVec3::new(1, 2, 3)),
            EvtChunkDirty(IVec3::new(1, 2, 3)),
        ]
    );
}

#[test]
fn spawning_replaces_an_existing_record_and_keeps_the_others() {
    let a = IVec3::new(0, 0, 0);
    let b = IVec3::new(5, 5, 5);
    let mut entity_map = ChunkEntityMap::default();
    entity_map.insert(a, ChunkBundle::new(a));
    entity_map.insert(b, ChunkBundle::new(b));
    entity_map.get_mut(a).unwrap().building = None;
    entity_map.get_mut(b).unwrap().building = None;

    let loaded = vec![
        EvtChunkLoaded(IVec3::new(7, 7, 7)),
        EvtChunkLoaded(a),
        EvtChunkLoaded(IVec3::new(7, 7, 7)),
    ];
    let mut dirty = vec![];
    landscaping::spawn_chunks_system(&mut entity_map, &loaded, &mut dirty);

    assert_eq!(entity_map.keys(), &vec![a, b, IVec3::new(7, 7, 7)]);
    assert!(entity_map.get(a).unwrap().building.is_some());
    assert!(entity_map.get(b).unwrap().building.is_none());
    assert!(entity_map.get(IVec3::new(7, 7, 7)).unwrap().building.is_some());
    assert_eq!(
        dirty,
        vec![
            EvtChunkDirty(IVec3::new(7, 7, 7)),
            EvtChunkDirty(a),
            EvtChunkDirty(IVec3::new(7, 7, 7)),
        ]
    );
}

#[test]
fn despawning_a_chunk_without_a_record_changes_nothing() {
    let a = IVec3::new(0, 0, 0);
    let mut entity_map = ChunkEntityMap::default();
    entity_map.insert(a, ChunkBundle::new(a));
    let unloaded = vec![EvtChunkUnloaded(IVec3::new(4, 4, 4))];
    landscaping::despawn_chunks_system(&mut entity_map, &unloaded);
    assert_eq!(entity_map.keys(), &vec![a]);
}

#[test]
fn diff_gives_what_to_load_and_what_to_unload() {
    let loaded = vec![
        IVec3::new(0, 0, 0),
        IVec3::new(1, 1, 1),
        IVec3::new(2, 2, 2),
        IVec3::new(3, 3, 3),
    ];
    let visible = vec![
        IVec3::new(0, 0, 0),
        IVec3::new(1, 1, 1),
        IVec3::new(2, 2, 3),
        IVec3::new(3, 3, 4),
    ];
    let (load, unload) = diff(&visible, &loaded);
    assert_eq!(sorted(load.clone()), vec![(2, 2, 3), (3, 3, 4)]);
    assert_eq!(sorted(unload.clone()), vec![(2, 2, 2), (3, 3, 3)]);
    assert_eq!(load, vec![IVec3::new(2, 2, 3), IVec3::new(3, 3, 4)]);
    assert_eq!(unload, vec![IVec3::new(2, 2, 2), IVec3::new(3, 3, 3)]);
}

#[test]
fn diff_lists_every_coordinate_once() {
    let a = vec![
        IVec3::new(1, 0, 0),
        IVec3::new(2, 0, 0),
        IVec3::new(1, 0, 0),
        IVec3::new(3, 0, 0),
        IVec3::new(2, 0, 0),
    ];
    let b = vec![IVec3::new(3, 0, 0), IVec3::new(3, 0, 0), IVec3::new(4, 0, 0)];
    let (only_a, only_b) = diff(&a, &b);
    assert_eq!(only_a, vec![IVec3::new(1, 0, 0), IVec3::new(2, 0, 0)]);
    assert_eq!(only_b, vec![IVec3::new(4, 0, 0)]);
    let (none_a, none_b) = diff(&a, &a);
    assert!(none_a.is_empty());
    assert!(none_b.is_empty());
}

#[test]
fn batch_does_not_queue_a_pending_load_twice() {
    let mut batch = BatchChunkCmdRes::default();
    let c = IVec3::new(1, 2, 3);
    batch.load(c);
    batch.load(c);
    batch.unload(c);
    assert!(batch.is_pending(c));
    let (load, unload) = batch.take();
    assert_eq!(load, vec![CmdChunkLoad(c)]);
    assert_eq!(unload, vec![CmdChunkUnload(c)]);

    // Still pending: asking again queues nothing.
    batch.load(c);
    let (load, unload) = batch.take();
    assert!(load.is_empty());
    assert!(unload.is_empty());

    // Once completed, the load can be requested again.
    batch.completed(c);
    assert!(!batch.is_pending(c));
    batch.load(c);
    let (load, _) = batch.take();
    assert_eq!(load, vec![CmdChunkLoad(c)]);
}

#[test]
fn first_evaluation_requests_the_whole_landscape() {
    let entity_map = ChunkEntityMap::default();
    let config = LandscapeConfig::default();
    let mut meta = UpdateLandscapeMeta::default();
    let mut batch = BatchChunkCmdRes::default();

    landscaping::update_landscape_system(
        16,
        &entity_map,
        &config,
        true,
        &mut meta,
        &mut batch,
        Some(IVec3::new(3, -1, -17)),
    );

    let center = IVec3::new(0, -1, -2);
    assert_eq!(
        meta,
        UpdateLandscapeMeta {
            last_pos: center,
            next_sync: SYNC_PERIOD
        }
    );
    let (load, unload) = batch.take();
    let side = (END - BEGIN + 1) as usize;
    assert_eq!(load.len(), side * side * side);
    assert!(unload.is_empty());
    let expected = range(
        IVec3::new(center.x + BEGIN, center.y + BEGIN, center.z + BEGIN),
        IVec3::new(center.x + END, center.y + END, center.z + END),
    );
    let requested: Vec<IVec3> = load.iter().map(|c| c.0).collect();
    assert_eq!(requested, expected);
}

#[test]
fn landscape_does_nothing_while_paused_not_ready_or_without_observer() {
    let entity_map = ChunkEntityMap::default();
    let start = UpdateLandscapeMeta {
        last_pos: IVec3::new(9, 9, 9),
        next_sync: 5,
    };
    let cases = [
        (LandscapeConfig { paused: true }, true, Some(IVec3::new(0, 0, 0))),
        (LandscapeConfig { paused: false }, false, Some(IVec3::new(0, 0, 0))),
        (LandscapeConfig { paused: false }, true, None),
    ];
    for (config, ready, observer) in cases {
        let mut meta = start;
        let mut batch = BatchChunkCmdRes::default();
        landscaping::update_landscape_system(
            100,
            &entity_map,
            &config,
            ready,
            &mut meta,
            &mut batch,
            observer,
        );
        assert_eq!(meta, start);
        let (load, unload) = batch.take();
        assert!(load.is_empty());
        assert!(unload.is_empty());
    }
}

#[test]
fn landscape_counts_down_and_resyncs_when_the_time_has_run_out() {
    let mut entity_map = ChunkEntityMap::default();
    let stale = IVec3::new(40, 40, 40);
    entity_map.insert(stale, ChunkBundle::new(stale));
    let config = LandscapeConfig::default();
    let mut meta = UpdateLandscapeMeta {
        last_pos: IVec3::new(0, 0, 0),
        next_sync: 1000,
    };
    let mut batch = BatchChunkCmdRes::default();
    let observer = Some(IVec3::new(5, 5, 5));

    // Same chunk, time left: only the countdown moves.
    landscaping::update_landscape_system(
        400, &entity_map, &config, true, &mut meta, &mut batch, observer,
    );
    assert_eq!(meta.next_sync, 600);
    landscaping::update_landscape_system(
        600, &entity_map, &config, true, &mut meta, &mut batch, observer,
    );
    assert_eq!(meta.next_sync, 0);
    let (load, unload) = batch.take();
    assert!(load.is_empty() && unload.is_empty());

    // More time than was left: the landscape is recomputed.
    landscaping::update_landscape_system(
        1, &entity_map, &config, true, &mut meta, &mut batch, observer,
    );
    assert_eq!(meta.next_sync, SYNC_PERIOD);
    let (load, unload) = batch.take();
    assert_eq!(load.len(), 125);
    assert_eq!(unload, vec![CmdChunkUnload(stale)]);
}

#[test]
fn landscape_resyncs_when_the_observer_changes_chunk() {
    let mut entity_map = ChunkEntityMap::default();
    for c in range(IVec3::new(-2, -2, -2), IVec3::new(2, 2, 2)) {
        entity_map.insert(c, ChunkBundle::new(c));
    }
    let config = LandscapeConfig::default();
    let mut meta = UpdateLandscapeMeta {
        last_pos: IVec3::new(0, 0, 0),
        next_sync: 1000,
    };
    let mut batch = BatchChunkCmdRes::default();

    // One chunk further along x: one slab comes into view, one leaves.
    landscaping::update_landscape_system(
        10,
        &entity_map,
        &config,
        true,
        &mut meta,
        &mut batch,
        Some(IVec3::new(16, 0, 0)),
    );
    assert_eq!(
        meta,
        UpdateLandscapeMeta {
            last_pos: IVec3::new(1, 0, 0),
            next_sync: SYNC_PERIOD
        }
    );
    let (load, unload) = batch.take();
    assert_eq!(load.len(), 25);
    assert_eq!(unload.len(), 25);
    assert!(load.iter().all(|c| c.0.x == 3));
    assert!(unload.iter().all(|c| c.0.x == -2));
}
