//! The error vocabulary of the trigonometric identities.

use vstd::prelude::*;

verus! {

/// Why a trigonometric formula cannot be evaluated.
#[derive(Debug, Clone, Copy, PartialEq, Eq, Structural)]
pub enum TrigError {
    /// The function is not defined at the argument.
    OutDefinition,
    /// A sine or cosine value is outside `[-1, 1]`.
    OutRange,
    /// The angular frequency is zero.
    OutRule,
}

impl TrigError {
    /// The text of `message`.
    pub open spec fn spec_message(self) -> Seq<char> {
        match self {
            TrigError::OutDefinition => "函数在此时没有定义"@,
            TrigError::OutRange => "正余弦值超出范围"@,
            TrigError::OutRule => "Omega不得为零"@,
        }
    }

    /// A description of the error for the user.
    pub fn message(&self) -> (r: String)
        ensures
            r@ == self.spec_message(),
    {
        match self {
            TrigError::OutDefinition => "函数在此时没有定义".to_owned(),
            TrigError::OutRange => "正余弦值超出范围".to_owned(),
            TrigError::OutRule => "Omega不得为零".to_owned(),
        }
    }
}

} // verus!
