//! Matching STIX patterns against observed STIX objects.

pub mod compare;
pub mod subset;
pub mod pattern_ops;
pub mod observation;
pub mod resolve;
pub mod error;
pub mod result;
pub mod eval;

use vstd::prelude::*;

pub use crate::matcher::error::MatchError;
use crate::matcher::eval::{eval_pattern, observations_view, pattern_outcome, pattern_outcome_is_determined};
pub use crate::matcher::observation::Observation;
pub use crate::matcher::result::MatchResult;
use crate::model::bundle::Bundle;
use crate::model::object::{SpecObject, SpecTypedObject, StixObject, TypedObject};
use crate::model::sdo::{ObservedData, SpecObservedData};
use crate::model::store::{objects_view, store_entries, store_lookup, ObjectStore};
use crate::pattern::ast::{Pattern, SpecObservationExpression};

verus! {

/// The objects a list of ids refers to in a store, in order; ids the store
/// does not hold are skipped.
pub open spec fn referenced_objects(ids: Seq<Seq<char>>, st: Seq<(Seq<char>, SpecObject)>) -> Seq<SpecObject>
    decreases ids.len(),
{
    if ids.len() == 0 {
        Seq::empty()
    } else {
        let rest = referenced_objects(ids.drop_last(), st);
        match store_lookup(st, ids.last()) {
            Some(o) => rest.push(o),
            None => rest,
        }
    }
}

/// The observations of a list of `observed-data` objects: each one's
/// referenced objects, resolved in a store.
pub open spec fn observed_data_observations(observed: Seq<SpecObservedData>, st: Seq<(Seq<char>, SpecObject)>) -> Seq<Seq<SpecObject>> {
    observed.map_values(|od: SpecObservedData| referenced_objects(od.object_refs, st))
}

/// The `observed-data` objects of a list of objects, in order.
pub open spec fn observed_data_in(objects: Seq<SpecObject>) -> Seq<SpecObservedData>
    decreases objects.len(),
{
    if objects.len() == 0 {
        Seq::empty()
    } else {
        let rest = observed_data_in(objects.drop_last());
        match objects.last() {
            SpecObject::Typed(SpecTypedObject::ObservedData(od)) => rest.push(od),
            _ => rest,
        }
    }
}

/// Match a pattern against a list of observations, without a store.
pub fn match_observations(pattern: &Pattern, observations: &[Observation]) -> (r: Result<MatchResult, MatchError>)
    ensures
        pattern_outcome(pattern@.expression, observations_view(observations@), None, r),
{
    eval_pattern(pattern, observations, None)
}

/// The observation of one `observed-data` object: copies of the objects its
/// `object_refs` resolve to in the store.
fn observation_of(od: &ObservedData, store: &ObjectStore) -> (o: Observation)
    ensures
        objects_view(o.objects@) == referenced_objects(od@.object_refs, store@),
{
    let ids = od.sco_ids();
    let mut objects: Vec<StixObject> = Vec::new();
    let mut i: usize = 0;
    let ghost refs = od@.object_refs;
    assert(objects_view(objects@) =~= Seq::<SpecObject>::empty());
    assert(refs.subrange(0, 0) =~= Seq::<Seq<char>>::empty());
    while i < ids.len()
        invariant
            0 <= i <= ids@.len(),
            ids@.len() == refs.len(),
            refs == od@.object_refs,
            forall|k: int| 0 <= k < ids@.len() ==> (#[trigger] ids@[k])@ == od.object_refs@[k]@,
            objects_view(objects@) == referenced_objects(refs.subrange(0, i as int), store@),
        decreases ids@.len() - i,
    {
        proof {
            assert(refs.subrange(0, i + 1).drop_last() =~= refs.subrange(0, i as int));
            assert(refs.subrange(0, i + 1).last() == ids@[i as int]@);
        }
        let ghost before = objects_view(objects@);
        match store.get(ids[i]) {
            Some(o) => {
                objects.push(o.deep_copy());
                assert(objects_view(objects@) =~= before.push(objects@.last()@));
            },
            None => {},
        }
        i = i + 1;
    }
    assert(refs.subrange(0, ids@.len() as int) =~= refs);
    Observation {
        objects,
        first_observed: Some(od.first_observed.clone()),
        last_observed: Some(od.last_observed.clone()),
        number_observed: od.number_observed,
    }
}

/// Match a pattern against `observed-data` objects, resolving their
/// `object_refs` through `store`.
pub fn match_observed_data(pattern: &Pattern, observed: &[ObservedData], store: &ObjectStore) -> (r: Result<MatchResult, MatchError>)
    ensures
        pattern_outcome(
            pattern@.expression,
            observed_data_observations(observed@.map_values(|od: ObservedData| od@), store@),
            Some(store@),
            r,
        ),
{
    let ghost target = observed_data_observations(observed@.map_values(|od: ObservedData| od@), store@);
    let mut observations: Vec<Observation> = Vec::new();
    let mut i: usize = 0;
    while i < observed.len()
        invariant
            0 <= i <= observed@.len(),
            target == observed_data_observations(observed@.map_values(|od: ObservedData| od@), store@),
            observations_view(observations@) == target.subrange(0, i as int),
        decreases observed@.len() - i,
    {
        let ghost before = observations_view(observations@);
        let o = observation_of(&observed[i], store);
        let ghost ov = objects_view(o.objects@);
        observations.push(o);
        assert(observations_view(observations@) =~= before.push(ov));
        assert(target[i as int] == referenced_objects(observed@[i as int]@.object_refs, store@));
        assert(observations_view(observations@) =~= target.subrange(0, i + 1));
        i = i + 1;
    }
    assert(target.subrange(0, observed@.len() as int) =~= target);
    eval_pattern(pattern, observations.as_slice(), Some(store))
}

/// Matching `observed-data` objects gives what evaluating the pattern gives
/// on their observations: take any list of observations whose objects are, one
/// by one, the objects that the `observed-data` objects' `object_refs` resolve
/// to in the store (ids it does not hold dropped); every result that
/// [`match_observed_data`] may give is then the result that [`eval_pattern`]
/// gives on that list with the store, and the other way round.
pub proof fn observed_data_match_is_evaluation(
    e: SpecObservationExpression,
    observed: Seq<SpecObservedData>,
    st: Seq<(Seq<char>, SpecObject)>,
    observations: Seq<Observation>,
    from_observed: Result<MatchResult, MatchError>,
    from_eval: Result<MatchResult, MatchError>,
)
    requires
        observations_view(observations) == observed_data_observations(observed, st),
        pattern_outcome(e, observed_data_observations(observed, st), Some(st), from_observed),
        pattern_outcome(e, observations_view(observations), Some(st), from_eval),
    ensures
        match (from_observed, from_eval) {
            (Ok(a), Ok(b)) => a@ == b@,
            (Err(MatchError::Unsupported(x)), Err(MatchError::Unsupported(y))) => x@ == y@,
            _ => false,
        },
{
    pattern_outcome_is_determined(e, observed_data_observations(observed, st), Some(st), from_observed, from_eval);
}

/// Match a pattern against a whole bundle: its `observed-data` objects are the
/// observations, and references resolve through the bundle's objects.
pub fn match_bundle(pattern: &Pattern, bundle: &Bundle) -> (r: Result<MatchResult, MatchError>)
    ensures
        pattern_outcome(
            pattern@.expression,
            observed_data_observations(observed_data_in(bundle@.objects), store_entries(bundle@.objects)),
            Some(store_entries(bundle@.objects)),
            r,
        ),
{
    let store = ObjectStore::from_bundle(bundle);
    let ghost objs = bundle@.objects;
    let mut observed: Vec<ObservedData> = Vec::new();
    let mut i: usize = 0;
    assert(objs.subrange(0, 0) =~= Seq::<SpecObject>::empty());
    assert(observed@.map_values(|od: ObservedData| od@) =~= Seq::<SpecObservedData>::empty());
    while i < bundle.objects.len()
        invariant
            0 <= i <= bundle.objects@.len(),
            objs == bundle@.objects,
            objs == objects_view(bundle.objects@),
            observed@.map_values(|od: ObservedData| od@) == observed_data_in(objs.subrange(0, i as int)),
        decreases bundle.objects@.len() - i,
    {
        proof {
            assert(objs.subrange(0, i + 1).drop_last() =~= objs.subrange(0, i as int));
            assert(objs.subrange(0, i + 1).last() == bundle.objects@[i as int]@);
        }
        let ghost before = observed@.map_values(|od: ObservedData| od@);
        match &bundle.objects[i] {
            StixObject::Typed(TypedObject::ObservedData(od)) => {
                observed.push(od.deep_copy());
                assert(observed@.map_values(|od: ObservedData| od@) =~= before.push(od@));
            },
            _ => {},
        }
        i = i + 1;
    }
    assert(objs.subrange(0, bundle.objects@.len() as int) =~= objs);
    match_observed_data(pattern, observed.as_slice(), &store)
}

/// Match a pattern against a flat list of cyber-observable objects, taken as a
/// single observation; references resolve through the same objects.
pub fn match_scos(pattern: &Pattern, scos: &[StixObject]) -> (r: Result<MatchResult, MatchError>)
    ensures
        pattern_outcome(
            pattern@.expression,
            seq![objects_view(scos@)],
            Some(store_entries(objects_view(scos@))),
            r,
        ),
{
    let store = ObjectStore::from_objects(scos);
    let mut objects: Vec<StixObject> = Vec::new();
    let mut i: usize = 0;
    while i < scos.len()
        invariant
            0 <= i <= scos@.len(),
            objects_view(objects@) == objects_view(scos@).subrange(0, i as int),
        decreases scos@.len() - i,
    {
        let ghost before = objects_view(objects@);
        objects.push(scos[i].deep_copy());
        assert(objects_view(objects@) =~= before.push(scos@[i as int]@));
        assert(objects_view(objects@) =~= objects_view(scos@).subrange(0, i + 1));
        i = i + 1;
    }
    assert(objects_view(scos@).subrange(0, scos@.len() as int) =~= objects_view(scos@));
    let observation = Observation::new(objects);
    let mut observations: Vec<Observation> = Vec::new();
    observations.push(observation);
    assert(observations_view(observations@) =~= seq![objects_view(scos@)]);
    eval_pattern(pattern, observations.as_slice(), Some(&store))
}

} // verus!
