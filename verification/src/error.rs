use vstd::prelude::*;

verus! {

/// The recoverable failures of the committee registry.
#[derive(Clone, Copy, Debug, PartialEq, Eq, Structural)]
pub enum CommitteeError {
    /// The validator is already registered.
    DuplicateMember,
    /// The registered stakes sum to more than a `u64` can hold.
    StakeOverflow,
}

impl CommitteeError {
    /// The message that describes this failure.
    pub fn message(&self) -> (text: &'static str)
        ensures
            text == (match *self {
                CommitteeError::DuplicateMember => "Validator already in committee",
                CommitteeError::StakeOverflow => "Failed to calculate total stake - overflow detected",
            }),
    {
        match self {
            CommitteeError::DuplicateMember => "Validator already in committee",
            CommitteeError::StakeOverflow => "Failed to calculate total stake - overflow detected",
        }
    }
}

} // verus!
