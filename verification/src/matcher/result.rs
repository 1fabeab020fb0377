//! The outcome of a match.

use vstd::prelude::*;

verus! {

/// The result of evaluating a pattern against a set of observations.
#[derive(Debug, Clone, PartialEq, Eq)]
pub struct MatchResult {
    matched: bool,
    matched_observations: Vec<usize>,
}

impl View for MatchResult {
    type V = (bool, Seq<usize>);

    closed spec fn view(&self) -> (bool, Seq<usize>) {
        (self.matched, self.matched_observations@)
    }
}

impl Default for MatchResult {
    /// A non-match.
    fn default() -> (r: MatchResult)
        ensures
            r@ == (false, Seq::<usize>::empty()),
    {
        MatchResult::no_match()
    }
}

impl MatchResult {
    /// A non-match (no observations).
    pub fn no_match() -> (r: MatchResult)
        ensures
            r@ == (false, Seq::<usize>::empty()),
    {
        MatchResult { matched: false, matched_observations: Vec::new() }
    }

    /// A match, recording the indices of the observations that satisfied the
    /// pattern.
    pub fn matched(observations: Vec<usize>) -> (r: MatchResult)
        ensures
            r@ == (true, observations@),
    {
        MatchResult { matched: true, matched_observations: observations }
    }

    /// Whether the pattern matched.
    pub fn is_match(&self) -> (b: bool)
        ensures
            b == self@.0,
    {
        self.matched
    }

    /// Indices (into the input observation list) that took part in the match.
    pub fn observations(&self) -> (r: &[usize])
        ensures
            r@ == self@.1,
    {
        self.matched_observations.as_slice()
    }
}

} // verus!
