//! An observation: a set of cyber-observable objects plus temporal metadata.

use vstd::prelude::*;

use crate::model::object::StixObject;

verus! {

/// A set of objects observed together. Each STIX `observed-data` SDO maps to
/// one `Observation`; matching a flat list of objects treats it as one.
#[derive(Debug)]
pub struct Observation {
    pub objects: Vec<StixObject>,
    pub first_observed: Option<String>,
    pub last_observed: Option<String>,
    pub number_observed: u64,
}

impl Observation {
    /// A single observation of the given objects (`number_observed` is 1, no
    /// times).
    pub fn new(objects: Vec<StixObject>) -> (o: Observation)
        ensures
            o.objects == objects,
            o.first_observed is None,
            o.last_observed is None,
            o.number_observed == 1,
    {
        Observation { objects, first_observed: None, last_observed: None, number_observed: 1 }
    }
}

} // verus!
