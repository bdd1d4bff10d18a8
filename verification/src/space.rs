//! The error vocabulary of the three-dimensional vector and plane toolkit.

use vstd::prelude::*;

verus! {

/// Why a relation between vectors, lines and planes cannot be evaluated.
#[derive(Debug, Clone, Copy, PartialEq, Eq, Structural)]
pub enum GeometryError {
    /// A vector or a normal is shorter than the tolerance, so it has no
    /// direction.
    ZeroVector,
    /// Two planes that had to be perpendicular are not.
    NotPerpendicular,
    /// Three points lie on one line and determine no plane.
    NotCoplanar,
    /// Two planes, or a line and a plane, that had to be parallel are not.
    NotParallel,
    /// A scalar is outside its domain: a negative area, or an angle outside
    /// the first quadrant.
    InvalidParam,
}

impl GeometryError {
    /// The text of `message`.
    pub open spec fn spec_message(self) -> Seq<char> {
        match self {
            GeometryError::ZeroVector => "零向量没有方向"@,
            GeometryError::NotPerpendicular => "两向量不垂直"@,
            GeometryError::NotCoplanar => "传入的两点不共面"@,
            GeometryError::NotParallel => "两向量不平行"@,
            GeometryError::InvalidParam => "给定的参数无效"@,
        }
    }

    /// A description of the error for the user.
    pub fn message(&self) -> (r: String)
        ensures
            r@ == self.spec_message(),
    {
        match self {
            GeometryError::ZeroVector => "零向量没有方向".to_owned(),
            GeometryError::NotPerpendicular => "两向量不垂直".to_owned(),
            GeometryError::NotCoplanar => "传入的两点不共面".to_owned(),
            GeometryError::NotParallel => "两向量不平行".to_owned(),
            GeometryError::InvalidParam => "给定的参数无效".to_owned(),
        }
    }
}

} // verus!
