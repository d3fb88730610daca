//! Why an apportionment was refused.

use vstd::prelude::*;

verus! {

/// Possible error cases of [`crate::distribute`].
#[derive(Copy, Clone, Eq, PartialEq, Structural, Ord, PartialOrd, Hash, Debug)]
pub enum DistributionError {
    /// Several candidates were tied for the last seats, and no draw was allowed.
    Tied,
    /// The seat count was not larger than zero.
    InvalidSeatCount,
    /// Some vote was below zero.
    NegativeVotes,
    /// There were no votes, or every vote was zero.
    NoVotes,
}

impl DistributionError {
    /// A one-line description of the error.
    pub fn message(&self) -> (r: &'static str)
        ensures
            *self == DistributionError::Tied ==> r@
                == "Tie detected, could only be resolved by randomly awarding a seat to one party."@,
            *self == DistributionError::InvalidSeatCount ==> r@
                == "Invalid seat count, must be an integer larger than 0."@,
            *self == DistributionError::NegativeVotes ==> r@
                == "Invalid votes, all parties must have at least zero votes."@,
            *self == DistributionError::NoVotes ==> r@
                == "Invalid votes, one party must have at least one vote."@,
    {
        match self {
            DistributionError::Tied => "Tie detected, could only be resolved by randomly awarding a seat to one party.",
            DistributionError::InvalidSeatCount => "Invalid seat count, must be an integer larger than 0.",
            DistributionError::NegativeVotes => "Invalid votes, all parties must have at least zero votes.",
            DistributionError::NoVotes => "Invalid votes, one party must have at least one vote.",
        }
    }
}

} // verus!
