//! Sense of rotation of a circular interpolation.

use vstd::prelude::*;

verus! {

/// Sense in which an arc runs from its start to its end.
#[derive(Debug, PartialEq, Eq, Structural, Clone, Copy)]
pub enum CircularDirection {
    CW,
    CCW,
}

impl CircularDirection {
    /// The opposite sense of rotation.
    pub open spec fn spec_reverse(self) -> CircularDirection {
        match self {
            CircularDirection::CW => CircularDirection::CCW,
            CircularDirection::CCW => CircularDirection::CW,
        }
    }

    /// Swaps clockwise and counter-clockwise.
    pub fn reverse(self) -> (r: CircularDirection)
        ensures
            r == self.spec_reverse(),
    {
        match self {
            CircularDirection::CW => CircularDirection::CCW,
            CircularDirection::CCW => CircularDirection::CW,
        }
    }

    /// Reversing twice gives the direction back.
    pub proof fn lemma_reverse_involutive(self)
        ensures
            self.spec_reverse().spec_reverse() == self,
    {
    }
}

} // verus!
