//! Resolve a pattern object path to the values it selects on an object.

use vstd::prelude::*;

use crate::model::object::{object_property, object_type, SpecObject, StixObject};
use crate::model::store::{store_lookup, ObjectStore};
use crate::model::value::{
    entries_lookup, lemma_list_view, lemma_object_view, lookup, values_view, SpecValue, StixValue,
};
use crate::model::view::ObjectView;
use crate::pattern::ast::{ObjectPath, PathStep, PathStepOf, SpecObjectPath, SpecPathStep};
use crate::text::str_eq;

verus! {

/// The mathematical form of an optional store.
pub open spec fn store_view(store: Option<&ObjectStore>) -> Option<Seq<(Seq<char>, SpecObject)>> {
    match store {
        Some(s) => Some(s@),
        None => None,
    }
}

/// The values one path step selects from one value: a key of a nested object,
/// or, on a string, a property of the object with that id in the store; an
/// item of a list; or all items of a list.
pub open spec fn step_one(v: SpecValue, step: SpecPathStep, store: Option<Seq<(Seq<char>, SpecObject)>>) -> Seq<SpecValue> {
    match step {
        PathStepOf::Key(key) => match v {
            SpecValue::Object(entries) => match entries_lookup(entries, key) {
                Some(x) => seq![x],
                None => Seq::empty(),
            },
            SpecValue::String(id) => match store {
                Some(st) => match store_lookup(st, id) {
                    Some(o) => match object_property(o, key) {
                        Some(x) => seq![x],
                        None => Seq::empty(),
                    },
                    None => Seq::empty(),
                },
                None => Seq::empty(),
            },
            _ => Seq::empty(),
        },
        PathStepOf::Index(i) => match v {
            SpecValue::List(items) => if (i as int) < items.len() {
                seq![items[i as int]]
            } else {
                Seq::empty()
            },
            _ => Seq::empty(),
        },
        PathStepOf::AnyIndex => match v {
            SpecValue::List(items) => items,
            _ => Seq::empty(),
        },
    }
}

/// The values one step selects from each of a list of values, in order.
pub open spec fn step_all(values: Seq<SpecValue>, step: SpecPathStep, store: Option<Seq<(Seq<char>, SpecObject)>>) -> Seq<SpecValue>
    decreases values.len(),
{
    if values.len() == 0 {
        Seq::empty()
    } else {
        step_all(values.drop_last(), step, store) + step_one(values.last(), step, store)
    }
}

/// The values a list of steps selects from a list of values.
pub open spec fn apply_steps(values: Seq<SpecValue>, steps: Seq<SpecPathStep>, store: Option<Seq<(Seq<char>, SpecObject)>>) -> Seq<SpecValue>
    decreases steps.len(),
{
    if steps.len() == 0 {
        values
    } else {
        apply_steps(step_all(values, steps[0], store), steps.drop_first(), store)
    }
}

/// The values a path selects on an object: nothing when the object's type is
/// not the path's, or the path does not start with a key; otherwise the
/// object's property under that key, taken through the remaining steps.
pub open spec fn resolve_values(obj: SpecObject, path: SpecObjectPath, store: Option<Seq<(Seq<char>, SpecObject)>>) -> Seq<SpecValue> {
    if object_type(obj) != Some(path.object_type) || path.steps.len() == 0 {
        Seq::empty()
    } else {
        match path.steps[0] {
            PathStepOf::Key(k) => {
                let first = match object_property(obj, k) {
                    Some(v) => seq![v],
                    None => Seq::empty(),
                };
                apply_steps(first, path.steps.drop_first(), store)
            },
            _ => Seq::empty(),
        }
    }
}

/// Apply one path step to one value, pushing the resulting values onto `out`.
fn apply_step(value: &StixValue, step: &PathStep, store: Option<&ObjectStore>, out: &mut Vec<StixValue>)
    ensures
        values_view(final(out)@) == values_view(old(out)@) + step_one(value@, step@, store_view(store)),
{
    let ghost before = values_view(out@);
    match step {
        PathStepOf::Key(key) => match value {
            StixValue::Object(map) => {
                proof { lemma_object_view(*map); }
                match lookup(map, key.as_str()) {
                    Some(v) => {
                        out.push(v.deep_copy());
                        assert(values_view(out@) =~= before.push(v@));
                    },
                    None => {
                        assert(values_view(out@) =~= before + Seq::<SpecValue>::empty());
                    },
                }
            },
            StixValue::String(id) => {
                let mut pushed = false;
                match store {
                    Some(st) => match st.get(id.as_str()) {
                        Some(referenced) => match referenced.property(key.as_str()) {
                            Some(v) => {
                                out.push(v);
                                pushed = true;
                                assert(values_view(out@) =~= before.push(out@.last()@));
                            },
                            None => {},
                        },
                        None => {},
                    },
                    None => {},
                }
                if !pushed {
                    assert(values_view(out@) =~= before + Seq::<SpecValue>::empty());
                }
            },
            _ => {
                assert(values_view(out@) =~= before + Seq::<SpecValue>::empty());
            },
        },
        PathStepOf::Index(i) => {
            match value {
                StixValue::List(items) => {
                    proof { lemma_list_view(*items); }
                    if *i < items.len() as u64 {
                        out.push(items[*i as usize].deep_copy());
                        assert(values_view(out@) =~= before.push(items@[*i as int]@));
                    } else {
                        assert(values_view(out@) =~= before + Seq::<SpecValue>::empty());
                    }
                },
                _ => {
                    assert(values_view(out@) =~= before + Seq::<SpecValue>::empty());
                },
            }
        },
        PathStepOf::AnyIndex => {
            match value {
                StixValue::List(items) => {
                    proof { lemma_list_view(*items); }
                    let mut j: usize = 0;
                    while j < items.len()
                        invariant
                            0 <= j <= items@.len(),
                            values_view(out@) == before + values_view(items@).subrange(0, j as int),
                        decreases items@.len() - j,
                    {
                        let ghost prev = values_view(out@);
                        out.push(items[j].deep_copy());
                        assert(values_view(out@) =~= prev.push(items@[j as int]@));
                        assert(values_view(items@).subrange(0, j + 1) =~= values_view(items@).subrange(0, j as int).push(items@[j as int]@));
                        j = j + 1;
                    }
                    assert(values_view(items@).subrange(0, items@.len() as int) =~= values_view(items@));
                },
                _ => {
                    assert(values_view(out@) =~= before + Seq::<SpecValue>::empty());
                },
            }
        },
    }
}

/// Resolve `path` against `obj`, returning every value the path selects (see
/// [`resolve_values`]). A `[*]` step or a list of references can select several
/// values. A key step on a string value treats the string as a STIX id and
/// looks the object up in `store`, if one is given; this follows `_ref` and
/// `_refs` properties such as `network-traffic:src_ref.value`.
pub fn resolve_path(obj: &StixObject, path: &ObjectPath, store: Option<&ObjectStore>) -> (r: Vec<StixValue>)
    ensures
        values_view(r@) == resolve_values(obj@, path@, store_view(store)),
{
    let matches_type = match obj.type_() {
        Some(t) => str_eq(t, path.object_type.as_str()),
        None => false,
    };
    if !matches_type || path.steps.len() == 0 {
        let v: Vec<StixValue> = Vec::new();
        assert(values_view(v@) =~= Seq::<SpecValue>::empty());
        return v;
    }
    let first = match &path.steps[0] {
        PathStepOf::Key(k) => k,
        _ => {
            let v: Vec<StixValue> = Vec::new();
            assert(values_view(v@) =~= Seq::<SpecValue>::empty());
            return v;
        },
    };
    let mut current: Vec<StixValue> = Vec::new();
    match obj.property(first.as_str()) {
        Some(v) => current.push(v),
        None => {},
    }
    let ghost steps = path@.steps;
    let ghost target = resolve_values(obj@, path@, store_view(store));
    proof {
        let init = match obj.spec_property(first@) {
            Some(v) => seq![v],
            None => Seq::empty(),
        };
        assert(values_view(current@) =~= init);
        assert(steps.drop_first() =~= steps.subrange(1, steps.len() as int));
    }
    let mut k: usize = 1;
    while k < path.steps.len()
        invariant
            1 <= k <= path.steps@.len(),
            steps == path@.steps,
            apply_steps(values_view(current@), steps.subrange(k as int, steps.len() as int), store_view(store)) == target,
        decreases path.steps@.len() - k,
    {
        let step = &path.steps[k];
        let mut next: Vec<StixValue> = Vec::new();
        let mut j: usize = 0;
        assert(values_view(next@) =~= step_all(values_view(current@).subrange(0, 0), step@, store_view(store)));
        while j < current.len()
            invariant
                0 <= j <= current@.len(),
                values_view(next@) == step_all(values_view(current@).subrange(0, j as int), step@, store_view(store)),
            decreases current@.len() - j,
        {
            apply_step(&current[j], step, store, &mut next);
            assert(values_view(current@).subrange(0, j + 1).drop_last() =~= values_view(current@).subrange(0, j as int));
            j = j + 1;
        }
        proof {
            assert(values_view(current@).subrange(0, current@.len() as int) =~= values_view(current@));
            let rest = steps.subrange(k as int, steps.len() as int);
            assert(rest[0] == step@);
            assert(rest.drop_first() =~= steps.subrange(k + 1, steps.len() as int));
        }
        current = next;
        k = k + 1;
    }
    proof {
        assert(steps.subrange(k as int, steps.len() as int) =~= Seq::<SpecPathStep>::empty());
    }
    current
}

} // verus!
