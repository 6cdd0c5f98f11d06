use voxel_world::math;
use voxel_world::math::{euclid_rem, is_within_cubic_bounds, IVec3, Vec3Element};

#[test]
fn cubic_bounds_hold_for_every_component() {
    assert!(is_within_cubic_bounds(IVec3::new(0, 5, 15), 0, 15));
    assert!(is_within_cubic_bounds(IVec3::new(-3, -3, -3), -3, -3));
    assert!(!is_within_cubic_bounds(IVec3::new(-1, 5, 15), 0, 15));
    assert!(!is_within_cubic_bounds(IVec3::new(0, 16, 15), 0, 15));
    assert!(!is_within_cubic_bounds(IVec3::new(0, 5, 16), 0, 15));
    assert!(!is_within_cubic_bounds(IVec3::new(0, 0, 0), 1, 0));
}

#[test]
fn euclid_rem_is_never_negative() {
    assert_eq!(
        euclid_rem(IVec3::new(17, -1, -16), 16),
        IVec3::new(1, 15, 0)
    );
    assert_eq!(euclid_rem(IVec3::new(7, -7, 0), -4), IVec3::new(3, 1, 0));
    assert_eq!(
        euclid_rem(IVec3::new(i32::MIN, i32::MAX, 5), 16),
        IVec3::new(0, 15, 5)
    );
    assert_eq!(
        euclid_rem(IVec3::new(i32::MAX, -5, 5), -1),
        IVec3::new(0, 0, 0)
    );
}

#[test]
fn min_element_names_the_axis_of_smallest_magnitude() {
    assert_eq!(math::min_element(IVec3::new(1, -2, 3)), Vec3Element::X);
    assert_eq!(math::min_element(IVec3::new(-5, 2, 3)), Vec3Element::Y);
    assert_eq!(math::min_element(IVec3::new(5, 4, -3)), Vec3Element::Z);
    // Ties fall through to Z.
    assert_eq!(math::min_element(IVec3::new(1, 1, 3)), Vec3Element::Z);
    assert_eq!(math::min_element(IVec3::new(0, 0, 0)), Vec3Element::Z);
    assert_eq!(
        math::min_element(IVec3::new(i32::MIN, i32::MAX, i32::MIN)),
        Vec3Element::Y
    );
}

#[test]
fn vector_components_and_extremes() {
    let v = IVec3::new(4, -9, 2);
    assert_eq!((v.x, v.y, v.z), (4, -9, 2));
    assert_eq!(v.min_element(), -9);
    assert_eq!(v.max_element(), 4);
    assert_eq!(IVec3::splat(7), IVec3::new(7, 7, 7));
    assert_eq!(v.plus(IVec3::new(1, 1, 1)), IVec3::new(5, -8, 3));
}
