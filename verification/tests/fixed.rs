use voxel_terrain::fixed::{clamp_exec, fixed_mul_exec, floor_unit, Vector3, UNIT};

#[test]
fn unit_counts_millionths() {
    assert_eq!(UNIT, 1_000_000);
}

#[test]
fn vectors_are_built_from_their_components() {
    assert_eq!(Vector3::new(1, -2, 3), Vector3 { x: 1, y: -2, z: 3 });
    assert_eq!(Vector3::zero(), Vector3 { x: 0, y: 0, z: 0 });
}

#[test]
fn floor_unit_rounds_down() {
    assert_eq!(floor_unit(0), 0);
    assert_eq!(floor_unit(999_999), 0);
    assert_eq!(floor_unit(1_000_000), 1);
    assert_eq!(floor_unit(-1), -1);
    assert_eq!(floor_unit(-1_000_000), -1);
    assert_eq!(floor_unit(-1_000_001), -2);
    assert_eq!(floor_unit(i128::MAX), i128::MAX / 1_000_000);
}

#[test]
fn clamp_stops_at_the_ends_of_the_range() {
    assert_eq!(clamp_exec(5), 5);
    assert_eq!(clamp_exec(i64::MAX as i128 + 1), i64::MAX);
    assert_eq!(clamp_exec(i64::MIN as i128 - 1), i64::MIN);
    assert_eq!(clamp_exec(i128::MIN), i64::MIN);
}

#[test]
fn products_are_rounded_down_and_clamped() {
    assert_eq!(fixed_mul_exec(2 * UNIT, 3 * UNIT), 6 * UNIT);
    assert_eq!(fixed_mul_exec(UNIT / 2, UNIT / 2), UNIT / 4);
    assert_eq!(fixed_mul_exec(1, 1), 0);
    assert_eq!(fixed_mul_exec(-1, 1), -1);
    assert_eq!(fixed_mul_exec(-UNIT, 25 * UNIT), -25 * UNIT);
    assert_eq!(fixed_mul_exec(i64::MAX, i64::MAX), i64::MAX);
    assert_eq!(fixed_mul_exec(i64::MIN, i64::MAX), i64::MIN);
    assert_eq!(fixed_mul_exec(i64::MIN, i64::MIN), i64::MAX);
    assert_eq!(fixed_mul_exec(i64::MAX, UNIT), i64::MAX);
}
