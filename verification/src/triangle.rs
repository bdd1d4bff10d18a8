//! The error vocabulary of the plane triangle formulas.

use vstd::prelude::*;

verus! {

/// Why a triangle formula cannot be evaluated.
#[derive(Debug, Clone, Copy, PartialEq, Eq, Structural)]
pub enum TriangleError {
    /// A side is not positive.
    LengthNegative,
    /// A squared length came out negative.
    ResultNegative,
    /// An angle is not positive.
    AngleNegative,
    /// An angle is outside the range of a triangle's angles.
    AngleOutRange,
    /// The three angles do not add up to a straight angle.
    AngleFault,
    /// Values that had to agree do not: the sides break the triangle
    /// inequality, or the ratios of the law of sines differ.
    CalibrationFail,
    /// The triangle is degenerate and the point asked for does not exist.
    CalculateFail,
}

impl TriangleError {
    /// The text of `message`.
    pub open spec fn spec_message(self) -> Seq<char> {
        match self {
            TriangleError::LengthNegative => "三角形不存在 [length<0]"@,
            TriangleError::ResultNegative => "三角形不存在 [square<0]"@,
            TriangleError::AngleNegative => "三角形不存在 [angle<0]"@,
            TriangleError::AngleOutRange => "三角形不存在 [angleOutRange]"@,
            TriangleError::AngleFault => "三角形不存在 [angleTotal!=Pi]"@,
            TriangleError::CalibrationFail => "计算结果不一 [present!=previous]"@,
            TriangleError::CalculateFail => "无法计算     {!}"@,
        }
    }

    /// A description of the error for the user.
    pub fn message(&self) -> (r: String)
        ensures
            r@ == self.spec_message(),
    {
        match self {
            TriangleError::LengthNegative => "三角形不存在 [length<0]".to_owned(),
            TriangleError::ResultNegative => "三角形不存在 [square<0]".to_owned(),
            TriangleError::AngleNegative => "三角形不存在 [angle<0]".to_owned(),
            TriangleError::AngleOutRange => "三角形不存在 [angleOutRange]".to_owned(),
            TriangleError::AngleFault => "三角形不存在 [angleTotal!=Pi]".to_owned(),
            TriangleError::CalibrationFail => "计算结果不一 [present!=previous]".to_owned(),
            TriangleError::CalculateFail => "无法计算     {!}".to_owned(),
        }
    }
}

} // verus!
