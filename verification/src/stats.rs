//! The error vocabulary of the descriptive statistics.

use vstd::prelude::*;

verus! {

/// Why a statistic cannot be computed.
#[derive(Debug, Clone, Copy, PartialEq, Eq, Structural)]
pub enum ProbabilityError {
    /// An argument that had to be non-negative is negative.
    DntPositive,
    /// The sample is empty.
    DntExist,
}

impl ProbabilityError {
    /// The text of `message`.
    pub open spec fn spec_message(self) -> Seq<char> {
        match self {
            ProbabilityError::DntPositive => "实参须为正数"@,
            ProbabilityError::DntExist => "切片须为非空集合"@,
        }
    }

    /// A description of the error for the user.
    pub fn message(&self) -> (r: String)
        ensures
            r@ == self.spec_message(),
    {
        match self {
            ProbabilityError::DntPositive => "实参须为正数".to_owned(),
            ProbabilityError::DntExist => "切片须为非空集合".to_owned(),
        }
    }
}

} // verus!
