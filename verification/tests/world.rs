use voxel_world::chunk::BUFFER_SIZE;
use voxel_world::chunk::to_xyz;
use voxel_world::coord_map::CoordMap;
use voxel_world::genesis::{load_chunks, unload_chunks, update_chunk};
use voxel_world::landscaping::BatchChunkCmdRes;
use voxel_world::math::IVec3;
use voxel_world::pipeline::{
    ChunkBundle, ChunkEntityMap, CmdChunkLoad, CmdChunkUnload, EvtChunkLoaded, EvtChunkUnloaded,
    EvtChunkUpdated,
};
use voxel_world::world::{VoxWorld, WorldError};

#[test]
fn world_starts_empty_and_adds_empty_chunks() {
    let mut world = VoxWorld::default();
    assert_eq!(world.len(), 0);
    let c = IVec3::new(1, -2, 3);
    assert!(!world.contains(c));
    assert!(world.get(c).is_none());
    assert_eq!(world.add(c), Ok(()));
    assert!(world.contains(c));
    assert_eq!(world.len(), 1);
    let chunk = world.get(c).unwrap();
    for index in 0..BUFFER_SIZE {
        assert_eq!(chunk.get_voxel_kind(to_xyz(index)), 0);
    }
}

#[test]
fn adding_a_loaded_coordinate_is_refused_and_keeps_the_chunk() {
    let mut world = VoxWorld::default();
    let c = IVec3::new(0, 0, 0);
    world.add(c).unwrap();
    world
        .get_mut(c)
        .unwrap()
        .set_voxel_kind(IVec3::new(1, 1, 1), 5);
    assert_eq!(world.add(c), Err(WorldError::AlreadyLoaded));
    assert_eq!(world.len(), 1);
    assert_eq!(
        world.get(c).unwrap().get_voxel_kind(IVec3::new(1, 1, 1)),
        5
    );
}

#[test]
fn removing_hands_the_chunk_over_and_forgets_the_coordinate() {
    let mut world = VoxWorld::default();
    let a = IVec3::new(0, 0, 0);
    let b = IVec3::new(0, 0, 1);
    world.add(a).unwrap();
    world.add(b).unwrap();
    world
        .get_mut(a)
        .unwrap()
        .set_voxel_kind(IVec3::new(2, 2, 2), 4);
    let removed = world.remove(a).unwrap();
    assert_eq!(removed.get_voxel_kind(IVec3::new(2, 2, 2)), 4);
    assert!(!world.contains(a));
    assert!(world.contains(b));
    assert!(world.remove(a).is_none());
    assert!(world.get_mut(a).is_none());
    assert_eq!(world.len(), 1);
}

#[test]
fn keyed_voxel_access_names_the_failure() {
    let mut world = VoxWorld::default();
    let c = IVec3::new(2, 2, 2);
    let voxel = IVec3::new(3, 3, 3);
    assert_eq!(
        world.set_voxel_kind(c, voxel, 1),
        Err(WorldError::NotFound)
    );
    assert_eq!(world.get_voxel_kind(c, voxel), Err(WorldError::NotFound));
    assert_eq!(
        world.get_voxel_kind(c, IVec3::new(16, 0, 0)),
        Err(WorldError::NotFound)
    );
    world.add(c).unwrap();
    assert_eq!(
        world.set_voxel_kind(c, IVec3::new(16, 0, 0), 1),
        Err(WorldError::OutOfBounds)
    );
    assert_eq!(
        world.get_voxel_kind(c, IVec3::new(0, -1, 0)),
        Err(WorldError::OutOfBounds)
    );
    assert_eq!(world.set_voxel_kind(c, voxel, 1), Ok(()));
    assert_eq!(world.get_voxel_kind(c, voxel), Ok(1));
    assert_eq!(world.get_voxel_kind(c, IVec3::new(3, 3, 4)), Ok(0));
}

#[test]
fn update_chunk_queues_a_notification_only_when_it_succeeds() {
    let mut world = VoxWorld::default();
    let mut updated: Vec<EvtChunkUpdated> = vec![];
    let c = IVec3::new(1, 1, 1);
    assert_eq!(
        update_chunk(&mut world, &mut updated, c, IVec3::new(0, 0, 0), 1),
        Err(WorldError::NotFound)
    );
    world.add(c).unwrap();
    assert_eq!(
        update_chunk(&mut world, &mut updated, c, IVec3::new(0, 0, 99), 1),
        Err(WorldError::OutOfBounds)
    );
    assert!(updated.is_empty());
    assert_eq!(
        update_chunk(&mut world, &mut updated, c, IVec3::new(0, 0, 9), 1),
        Ok(())
    );
    assert_eq!(updated, vec![EvtChunkUpdated(c)]);
    assert_eq!(world.get_voxel_kind(c, IVec3::new(0, 0, 9)), Ok(1));
}

#[test]
fn load_requests_load_free_coordinates_once_and_complete_either_way() {
    let mut world = VoxWorld::default();
    let taken = IVec3::new(0, 0, 0);
    let free = IVec3::new(1, 0, 0);
    world.add(taken).unwrap();
    let mut batch = BatchChunkCmdRes::default();
    batch.load(taken);
    batch.load(free);
    let (load, _) = batch.take();
    let mut commands = load.clone();
    commands.push(CmdChunkLoad(free));

    let loaded = load_chunks(&mut world, &commands, &mut batch);

    assert_eq!(loaded, vec![EvtChunkLoaded(free)]);
    assert!(world.contains(free));
    assert_eq!(world.len(), 2);
    assert!(!batch.is_pending(taken));
    assert!(!batch.is_pending(free));
}

#[test]
fn unload_requests_unload_loaded_chunks_once() {
    let mut world = VoxWorld::default();
    let a = IVec3::new(0, 0, 0);
    let b = IVec3::new(1, 0, 0);
    world.add(a).unwrap();
    world.add(b).unwrap();
    let commands = vec![
        CmdChunkUnload(IVec3::new(9, 9, 9)),
        CmdChunkUnload(a),
        CmdChunkUnload(a),
    ];
    let unloaded = unload_chunks(&mut world, &commands);
    assert_eq!(unloaded, vec![EvtChunkUnloaded(a)]);
    assert!(!world.contains(a));
    assert!(world.contains(b));
}

#[test]
fn coord_map_stores_finds_and_removes() {
    let mut map: CoordMap<u32> = CoordMap::new();
    assert_eq!(map.len(), 0);
    let a = IVec3::new(1, 2, 3);
    let b = IVec3::new(3, 2, 1);
    let c = IVec3::new(-1, -2, -3);
    assert_eq!(map.try_insert(a, 10), Ok(()));
    assert_eq!(map.try_insert(b, 20), Ok(()));
    assert_eq!(map.try_insert(c, 30), Ok(()));
    assert_eq!(map.try_insert(a, 11), Err(11));
    assert_eq!(map.len(), 3);
    assert_eq!(map.get(a), Some(&10));
    assert_eq!(map.get(b), Some(&20));
    assert_eq!(map.get(c), Some(&30));
    assert_eq!(map.get(IVec3::new(1, 2, 4)), None);
    assert!(map.contains(b));
    assert!(!map.contains(IVec3::new(2, 1, 3)));
    assert_eq!(map.locals(), &vec![a, b, c]);

    *map.get_mut(b).unwrap() = 21;
    assert_eq!(map.get(b), Some(&21));
    assert!(map.get_mut(IVec3::new(0, 0, 0)).is_none());

    // The last coordinate takes the place of the one removed.
    assert_eq!(map.remove(a), Some(10));
    assert_eq!(map.locals(), &vec![c, b]);
    assert_eq!(map.get(a), None);
    assert_eq!(map.get(b), Some(&21));
    assert_eq!(map.get(c), Some(&30));
    assert_eq!(map.remove(a), None);
    assert_eq!(map.remove(b), Some(21));
    assert_eq!(map.remove(c), Some(30));
    assert_eq!(map.len(), 0);
}

#[test]
fn coord_map_keeps_many_coordinates_apart() {
    let mut map: CoordMap<i32> = CoordMap::new();
    for x in -5..5 {
        for y in -5..5 {
            for z in -5..5 {
                assert!(map.try_insert(IVec3::new(x, y, z), x * 100 + y * 10 + z).is_ok());
            }
        }
    }
    assert_eq!(map.len(), 1000);
    for x in (-5..5).step_by(2) {
        for y in -5..5 {
            for z in -5..5 {
                assert_eq!(map.remove(IVec3::new(x, y, z)), Some(x * 100 + y * 10 + z));
            }
        }
    }
    assert_eq!(map.len(), 500);
    for x in -5..5 {
        for y in -5..5 {
            for z in -5..5 {
                let expected = if (x + 5) % 2 == 0 {
                    None
                } else {
                    Some(x * 100 + y * 10 + z)
                };
                assert_eq!(map.get(IVec3::new(x, y, z)).copied(), expected);
            }
        }
    }
}

#[test]
fn registry_replaces_in_place_and_removes() {
    let mut entity_map = ChunkEntityMap::default();
    assert!(entity_map.is_empty());
    let a = IVec3::new(1, 0, 0);
    let b = IVec3::new(2, 0, 0);
    assert!(entity_map.insert(a, ChunkBundle::new(a)).is_none());
    assert!(entity_map.insert(b, ChunkBundle::new(b)).is_none());
    entity_map.get_mut(a).unwrap().building = None;
    let previous = entity_map.insert(a, ChunkBundle::new(a)).unwrap();
    assert!(previous.building.is_none());
    assert!(entity_map.get(a).unwrap().building.is_some());
    assert_eq!(entity_map.keys(), &vec![a, b]);
    assert_eq!(entity_map.remove(a).unwrap().local.0, a);
    assert!(entity_map.remove(a).is_none());
    assert!(!entity_map.contains(a));
    assert!(entity_map.contains(b));
    assert_eq!(entity_map.len(), 1);
}

#[test]
fn a_fresh_record_has_buffers_and_no_mesh() {
    let bundle = ChunkBundle::default();
    assert_eq!(bundle.local.0, IVec3::new(0, 0, 0));
    assert!(bundle.mesh.is_none());
    let building = bundle.building.unwrap();
    assert_eq!(building.faces_occlusion().len(), BUFFER_SIZE);
    assert!(building
        .faces_occlusion()
        .iter()
        .all(|f| f.iter().all(|o| !*o)));
    assert!(building.faces().is_empty());
    assert!(building.vertices().is_empty());
}
