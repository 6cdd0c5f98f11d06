use rand::random;
use voxel_world::chunk;
use voxel_world::chunk::{is_within_bounds, Chunk, AXIS_SIZE, BUFFER_SIZE};
use voxel_world::math::IVec3;
use voxel_world::world::WorldError;

fn floor3(x: f32, y: f32, z: f32) -> IVec3 {
    IVec3::new(x.floor() as i32, y.floor() as i32, z.floor() as i32)
}

fn random_chunk_coordinate(magnitude: f32) -> IVec3 {
    IVec3::new(
        (random::<f32>() * magnitude) as i32 * if random::<bool>() { -1 } else { 1 },
        (random::<f32>() * magnitude) as i32 * if random::<bool>() { -1 } else { 1 },
        (random::<f32>() * magnitude) as i32 * if random::<bool>() { -1 } else { 1 },
    )
}

#[test]
fn to_xyz() {
    assert_eq!(IVec3::new(0, 0, 0), chunk::to_xyz(0));
    assert_eq!(IVec3::new(0, 1, 0), chunk::to_xyz(1));
    assert_eq!(IVec3::new(0, 2, 0), chunk::to_xyz(2));

    assert_eq!(IVec3::new(0, 0, 1), chunk::to_xyz(AXIS_SIZE));
    assert_eq!(IVec3::new(0, 1, 1), chunk::to_xyz(AXIS_SIZE + 1));
    assert_eq!(IVec3::new(0, 2, 1), chunk::to_xyz(AXIS_SIZE + 2));

    assert_eq!(IVec3::new(1, 0, 0), chunk::to_xyz(AXIS_SIZE * AXIS_SIZE));
    assert_eq!(IVec3::new(1, 1, 0), chunk::to_xyz(AXIS_SIZE * AXIS_SIZE + 1));
    assert_eq!(IVec3::new(1, 2, 0), chunk::to_xyz(AXIS_SIZE * AXIS_SIZE + 2));

    assert_eq!(IVec3::new(1, 0, 1), chunk::to_xyz(AXIS_SIZE * AXIS_SIZE + AXIS_SIZE));
    assert_eq!(
        IVec3::new(1, 1, 1),
        chunk::to_xyz(AXIS_SIZE * AXIS_SIZE + AXIS_SIZE + 1)
    );
    assert_eq!(
        IVec3::new(1, 2, 1),
        chunk::to_xyz(AXIS_SIZE * AXIS_SIZE + AXIS_SIZE + 2)
    );
}

#[test]
fn to_index() {
    assert_eq!(chunk::to_index(IVec3::new(0, 0, 0)), 0);
    assert_eq!(chunk::to_index(IVec3::new(0, 1, 0)), 1);
    assert_eq!(chunk::to_index(IVec3::new(0, 2, 0)), 2);

    assert_eq!(chunk::to_index(IVec3::new(0, 0, 1)), AXIS_SIZE);
    assert_eq!(chunk::to_index(IVec3::new(0, 1, 1)), AXIS_SIZE + 1);
    assert_eq!(chunk::to_index(IVec3::new(0, 2, 1)), AXIS_SIZE + 2);

    assert_eq!(chunk::to_index(IVec3::new(1, 0, 0)), AXIS_SIZE * AXIS_SIZE);
    assert_eq!(chunk::to_index(IVec3::new(1, 1, 0)), AXIS_SIZE * AXIS_SIZE + 1);
    assert_eq!(chunk::to_index(IVec3::new(1, 2, 0)), AXIS_SIZE * AXIS_SIZE + 2);

    assert_eq!(
        chunk::to_index(IVec3::new(1, 0, 1)),
        AXIS_SIZE * AXIS_SIZE + AXIS_SIZE
    );
    assert_eq!(
        chunk::to_index(IVec3::new(1, 1, 1)),
        AXIS_SIZE * AXIS_SIZE + AXIS_SIZE + 1
    );
    assert_eq!(
        chunk::to_index(IVec3::new(1, 2, 1)),
        AXIS_SIZE * AXIS_SIZE + AXIS_SIZE + 2
    );
}

#[test]
fn to_world() {
    const TEST_COUNT: usize = 1000;
    const MAG: f32 = 100.0;

    for _ in 0..TEST_COUNT {
        let base = random_chunk_coordinate(MAG);

        // To world just converts from chunk coordinates (1, 2, -1) to world
        // coordinates (16, 32, -16), with AXIS_SIZE = 16.
        let world = chunk::to_world(base);
        assert_eq!(base.x as f32 * AXIS_SIZE as f32, world.x as f32);
        assert_eq!(base.y as f32 * AXIS_SIZE as f32, world.y as f32);
        assert_eq!(base.z as f32 * AXIS_SIZE as f32, world.z as f32);
    }
}

#[test]
fn to_local() {
    assert_eq!(IVec3::new(0, -1, -2), chunk::to_local(floor3(3.0, -0.8, -17.0)));
    assert_eq!(IVec3::new(0, -1, 0), chunk::to_local(floor3(3.0, -15.8, 0.0)));
    assert_eq!(IVec3::new(-3, 1, 5), chunk::to_local(floor3(-32.1, 20.0, 88.1)));

    const TEST_COUNT: usize = 1000;
    const MAG: f32 = 100.0;

    for _ in 0..TEST_COUNT {
        let base = random_chunk_coordinate(MAG);

        // The fragment only checks the rounding: it must not change the
        // chunk that the position falls into.
        let frag = (
            random::<f32>() * (AXIS_SIZE - 1) as f32,
            random::<f32>() * (AXIS_SIZE - 1) as f32,
            random::<f32>() * (AXIS_SIZE - 1) as f32,
        );

        let world = floor3(
            (base.x * AXIS_SIZE as i32) as f32 + frag.0,
            (base.y * AXIS_SIZE as i32) as f32 + frag.1,
            (base.z * AXIS_SIZE as i32) as f32 + frag.2,
        );

        assert_eq!(base, chunk::to_local(world));
    }
}

#[test]
fn index_and_coordinate_are_inverses_over_the_whole_chunk() {
    let mut seen = vec![false; BUFFER_SIZE];
    for x in 0..AXIS_SIZE as i32 {
        for y in 0..AXIS_SIZE as i32 {
            for z in 0..AXIS_SIZE as i32 {
                let p = IVec3::new(x, y, z);
                let index = chunk::to_index(p);
                assert!(index < BUFFER_SIZE);
                assert!(!seen[index], "two coordinates share index {}", index);
                seen[index] = true;
                assert_eq!(chunk::to_xyz(index), p);
            }
        }
    }
    assert!(seen.iter().all(|s| *s));
    for index in 0..BUFFER_SIZE {
        assert_eq!(chunk::to_index(chunk::to_xyz(index)), index);
    }
}

#[test]
fn index_formula_is_x_then_z_then_y() {
    assert_eq!(chunk::to_index(IVec3::new(3, 5, 7)), 3 * 256 + 7 * 16 + 5);
    assert_eq!(chunk::to_index(IVec3::new(15, 15, 15)), BUFFER_SIZE - 1);
    assert_eq!(chunk::to_xyz(3 * 256 + 7 * 16 + 5), IVec3::new(3, 5, 7));
}

#[test]
fn to_xyz_ignores_bits_above_the_buffer() {
    assert_eq!(chunk::to_xyz(BUFFER_SIZE), IVec3::new(0, 0, 0));
    assert_eq!(chunk::to_xyz(BUFFER_SIZE + 17), IVec3::new(0, 1, 1));
}

#[test]
fn bounds_are_zero_to_axis_size_less_one() {
    assert!(is_within_bounds(IVec3::new(0, 0, 0)));
    assert!(is_within_bounds(IVec3::new(15, 15, 15)));
    assert!(is_within_bounds(IVec3::new(0, 15, 7)));
    assert!(!is_within_bounds(IVec3::new(16, 0, 0)));
    assert!(!is_within_bounds(IVec3::new(0, 16, 0)));
    assert!(!is_within_bounds(IVec3::new(0, 0, 16)));
    assert!(!is_within_bounds(IVec3::new(-1, 0, 0)));
    assert!(!is_within_bounds(IVec3::new(0, -1, 0)));
    assert!(!is_within_bounds(IVec3::new(0, 0, -1)));
}

#[test]
fn to_local_floors_negative_positions() {
    assert_eq!(chunk::to_local(IVec3::new(-1, -16, -17)), IVec3::new(-1, -1, -2));
    assert_eq!(chunk::to_local(IVec3::new(0, 15, 16)), IVec3::new(0, 0, 1));
    assert_eq!(
        chunk::to_local(IVec3::new(i32::MIN, i32::MAX, 0)),
        IVec3::new(-134217728, 134217727, 0)
    );
}

#[test]
fn world_origin_of_the_chunk_found_is_within_one_chunk_of_the_position() {
    let positions = [
        IVec3::new(3, -1, -17),
        IVec3::new(0, 0, 0),
        IVec3::new(-16, 16, 15),
        IVec3::new(i32::MIN, i32::MAX, -1),
        IVec3::new(1000, -1000, 12345),
    ];
    for w in positions {
        let origin = chunk::to_world(chunk::to_local(w));
        for (o, p) in [(origin.x, w.x), (origin.y, w.y), (origin.z, w.z)] {
            assert!(o <= p);
            assert!((p as i64) - (o as i64) < AXIS_SIZE as i64);
        }
    }
}

#[test]
fn to_world_multiplies_by_the_axis_size() {
    assert_eq!(chunk::to_world(IVec3::new(1, 2, -1)), IVec3::new(16, 32, -16));
    assert_eq!(chunk::to_world(IVec3::new(0, 0, 0)), IVec3::new(0, 0, 0));
}

#[test]
fn default_chunk_is_empty_and_voxels_are_set_one_by_one() {
    let mut chunk = Chunk::default();
    assert_eq!(chunk.len(), BUFFER_SIZE);
    for index in 0..BUFFER_SIZE {
        assert_eq!(chunk.get_voxel_kind(chunk::to_xyz(index)), 0);
    }
    chunk.set_voxel_kind(IVec3::new(1, 2, 3), 7);
    for index in 0..BUFFER_SIZE {
        let p = chunk::to_xyz(index);
        let expected = if p == IVec3::new(1, 2, 3) { 7 } else { 0 };
        assert_eq!(chunk.get_voxel_kind(p), expected);
    }
    chunk.set_voxel_kind(IVec3::new(1, 2, 3), 0);
    assert_eq!(chunk.get_voxel_kind(IVec3::new(1, 2, 3)), 0);
}

#[test]
fn validated_voxel_access_rejects_coordinates_out_of_bounds() {
    let mut chunk = Chunk::default();
    assert_eq!(chunk.try_set_voxel_kind(IVec3::new(15, 0, 0), 3), Ok(()));
    assert_eq!(chunk.try_get_voxel_kind(IVec3::new(15, 0, 0)), Some(3));
    assert_eq!(
        chunk.try_set_voxel_kind(IVec3::new(16, 0, 0), 3),
        Err(WorldError::OutOfBounds)
    );
    assert_eq!(
        chunk.try_set_voxel_kind(IVec3::new(0, -1, 0), 3),
        Err(WorldError::OutOfBounds)
    );
    assert_eq!(chunk.try_get_voxel_kind(IVec3::new(0, 0, 16)), None);
    let solid = (0..BUFFER_SIZE)
        .filter(|i| chunk.get_voxel_kind(chunk::to_xyz(*i)) != 0)
        .count();
    assert_eq!(solid, 1);
}
