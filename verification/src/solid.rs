//! Solid geometry on integers: Euler's polyhedron formula.

use vstd::prelude::*;

verus! {

/// What can be wrong with the measurements of a solid.
#[derive(Debug, Clone, Copy, PartialEq, Eq, Structural)]
pub enum GeometryError {
    /// A dimension is negative, or nothing was given at all.
    InvalidDimensions,
    /// The counts of vertices, edges and faces are not those of a convex
    /// polyhedron.
    EulerViolation,
}

impl GeometryError {
    /// The text of `message`.
    pub open spec fn spec_message(self) -> Seq<char> {
        match self {
            GeometryError::InvalidDimensions => "为负数的无效参数"@,
            GeometryError::EulerViolation => "不满足欧拉公式"@,
        }
    }

    /// A description of the error for the user.
    pub fn message(&self) -> (r: String)
        ensures
            r@ == self.spec_message(),
    {
        match self {
            GeometryError::InvalidDimensions => "为负数的无效参数".to_owned(),
            GeometryError::EulerViolation => "不满足欧拉公式".to_owned(),
        }
    }
}

/// The Euler characteristic `v - e + f` of a solid with `v` vertices, `e`
/// edges and `f` faces.
pub open spec fn spec_euler_characteristic(v: u64, e: u64, f: u64) -> int {
    v - e + f
}

/// No solid at all: all three counts are zero.
pub open spec fn euler_is_empty(v: u64, e: u64, f: u64) -> bool {
    v == 0 && e == 0 && f == 0
}

/// All three counts are positive, but the characteristic is not the 2 of a
/// convex polyhedron.
pub open spec fn euler_is_violated(v: u64, e: u64, f: u64) -> bool {
    v > 0 && e > 0 && f > 0 && spec_euler_characteristic(v, e, f) != 2
}

/// Whether the three counts and their characteristic can be held in `i64`.
pub open spec fn euler_fits(v: u64, e: u64, f: u64) -> bool {
    &&& v <= i64::MAX
    &&& e <= i64::MAX
    &&& f <= i64::MAX
    &&& spec_euler_characteristic(v, e, f) <= i64::MAX
}

/// The Euler characteristic `v - e + f`, checked against Euler's polyhedron
/// formula.
///
/// Three zero counts describe no solid and give `InvalidDimensions`. Where
/// all three counts are positive the characteristic has to be 2, else the
/// result is `EulerViolation`. Where some but not all counts are zero the
/// characteristic is returned as it is.
pub fn euler_characteristic(v: u64, e: u64, f: u64) -> (r: Result<i64, GeometryError>)
    requires
        euler_fits(v, e, f),
    ensures
        euler_is_empty(v, e, f) ==> r == Err::<i64, GeometryError>(
            GeometryError::InvalidDimensions,
        ),
        euler_is_violated(v, e, f) ==> r == Err::<i64, GeometryError>(
            GeometryError::EulerViolation,
        ),
        !euler_is_empty(v, e, f) && !euler_is_violated(v, e, f) ==> r is Ok && r.unwrap()
            == spec_euler_characteristic(v, e, f),
{
    let result: i64 = v as i64 - e as i64 + f as i64;
    if v == 0 && e == 0 && f == 0 {
        return Err(GeometryError::InvalidDimensions);
    }
    if v > 0 && e > 0 && f > 0 && result != 2 {
        return Err(GeometryError::EulerViolation);
    }
    Ok(result)
}

} // verus!
