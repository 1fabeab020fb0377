//! The plain outcome of a match.

use vstd::prelude::*;

use crate::matcher::result::MatchResult;

verus! {

/// The outcome of a match: whether it matched and which observation indices
/// took part.
#[derive(Debug, Clone, PartialEq, Eq)]
pub struct MatchOutcome {
    pub matched: bool,
    pub observations: Vec<u64>,
}

impl MatchOutcome {
    /// The outcome of a match result: the same flag and indices.
    pub fn from_result(result: &MatchResult) -> (o: MatchOutcome)
        ensures
            o.matched == result@.0,
            o.observations@.len() == result@.1.len(),
            forall|i: int| 0 <= i < o.observations@.len() ==> #[trigger] o.observations@[i] == result@.1[i],
    {
        let indices = result.observations();
        let mut observations: Vec<u64> = Vec::new();
        let mut i: usize = 0;
        while i < indices.len()
            invariant
                0 <= i <= indices@.len(),
                observations@.len() == i,
                forall|j: int| 0 <= j < i ==> #[trigger] observations@[j] == indices@[j],
            decreases indices@.len() - i,
        {
            observations.push(indices[i] as u64);
            i = i + 1;
        }
        MatchOutcome { matched: result.is_match(), observations }
    }
}

} // verus!
