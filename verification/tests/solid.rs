use guhs::solid::{euler_characteristic, GeometryError};

#[test]
fn euler_characteristic_of_the_platonic_solids() {
    assert_eq!(euler_characteristic(4, 6, 4), Ok(2));
    assert_eq!(euler_characteristic(8, 12, 6), Ok(2));
    assert_eq!(euler_characteristic(6, 12, 8), Ok(2));
    assert_eq!(euler_characteristic(20, 30, 12), Ok(2));
    assert_eq!(euler_characteristic(12, 30, 20), Ok(2));
}

#[test]
fn euler_characteristic_rejects_three_zeros() {
    assert_eq!(euler_characteristic(0, 0, 0), Err(GeometryError::InvalidDimensions));
}

#[test]
fn euler_characteristic_rejects_what_is_no_polyhedron() {
    assert_eq!(euler_characteristic(8, 12, 7), Err(GeometryError::EulerViolation));
    assert_eq!(euler_characteristic(1, 1, 1), Err(GeometryError::EulerViolation));
    assert_eq!(euler_characteristic(3, 9, 2), Err(GeometryError::EulerViolation));
    assert_eq!(euler_characteristic(16, 32, 16), Err(GeometryError::EulerViolation));
}

#[test]
fn euler_characteristic_with_a_zero_count_is_not_checked() {
    assert_eq!(euler_characteristic(0, 3, 1), Ok(-2));
    assert_eq!(euler_characteristic(5, 0, 0), Ok(5));
    assert_eq!(euler_characteristic(1, 0, 1), Ok(2));
    assert_eq!(euler_characteristic(0, 0, 9), Ok(9));
    assert_eq!(euler_characteristic(0, 7, 0), Ok(-7));
}

#[test]
fn euler_characteristic_at_the_limits() {
    let top = i64::MAX as u64;
    assert_eq!(euler_characteristic(top, 0, 0), Ok(i64::MAX));
    assert_eq!(euler_characteristic(0, top, 0), Ok(-i64::MAX));
    assert_eq!(euler_characteristic(top, top, 0), Ok(0));
    assert_eq!(euler_characteristic(top, top, 2), Ok(2));
    assert_eq!(euler_characteristic(top, 1, 1), Err(GeometryError::EulerViolation));
}

#[test]
fn solid_error_messages() {
    assert_eq!(GeometryError::InvalidDimensions.message(), "为负数的无效参数");
    assert_eq!(GeometryError::EulerViolation.message(), "不满足欧拉公式");
}

#[test]
fn solid_errors_compare_by_variant() {
    assert_eq!(GeometryError::EulerViolation, GeometryError::EulerViolation);
    assert_ne!(GeometryError::EulerViolation, GeometryError::InvalidDimensions);
}
