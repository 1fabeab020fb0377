//! The STIX `bundle` container.

use vstd::prelude::*;
use vstd::string::StringExecFns;

use crate::model::error::{model_error_text, ModelError, ModelErrorV};
use crate::model::object::{object_of_value, object_of_value_wf, object_wf, SpecObject, StixObject};
use crate::model::store::objects_view;
use crate::model::value::{
    entries_lookup, lemma_list_view, lemma_lookup_wf, lemma_object_view, lookup, value_wf, values_view, SpecValue,
    StixValue,
};
use crate::model::view::string_property;

verus! {

/// A STIX bundle: a `type: "bundle"` envelope around a list of objects.
#[derive(Debug, PartialEq)]
pub struct Bundle {
    pub type_: String,
    pub id: Option<String>,
    pub objects: Vec<StixObject>,
}

/// The mathematical form of a [`Bundle`].
pub struct SpecBundle {
    pub type_: Seq<char>,
    pub id: Option<Seq<char>>,
    pub objects: Seq<SpecObject>,
}

impl View for Bundle {
    type V = SpecBundle;

    open spec fn view(&self) -> SpecBundle {
        SpecBundle {
            type_: self.type_@,
            id: match self.id {
                Some(s) => Some(s@),
                None => None,
            },
            objects: objects_view(self.objects@),
        }
    }
}

/// The objects a list of values reads as, or the error of the first that
/// cannot be read (carried as a JSON error with the object error's text).
pub open spec fn objects_of(items: Seq<SpecValue>) -> Result<Seq<SpecObject>, ModelErrorV>
    decreases items.len(),
{
    if items.len() == 0 {
        Ok(Seq::empty())
    } else {
        match objects_of(items.drop_last()) {
            Err(e) => Err(e),
            Ok(os) => match object_of_value(items.last()) {
                Ok(o) => Ok(os.push(o)),
                Err(e) => Err(ModelErrorV::Json(model_error_text(e))),
            },
        }
    }
}

/// The message for a bundle whose `type` is not `bundle`.
pub open spec fn not_a_bundle_message(t: Seq<char>) -> Seq<char> {
    "type was '"@ + t + "'"@
}

/// How a value reads as a bundle. Its fields are read in key order: `id`
/// (optional string), `objects` (optional list of objects), `type` (required
/// string); then the `type` must be `bundle`.
pub open spec fn bundle_of_value(v: SpecValue) -> Result<SpecBundle, ModelErrorV> {
    match v {
        SpecValue::Object(e) => {
            let id = match entries_lookup(e, "id"@) {
                None => Ok(None),
                Some(SpecValue::Null) => Ok(None),
                Some(SpecValue::String(s)) => Ok(Some(s)),
                Some(_) => Err(ModelErrorV::Json("invalid type for field `id`"@)),
            };
            let objects = match entries_lookup(e, "objects"@) {
                None => Ok(Seq::empty()),
                Some(SpecValue::List(items)) => objects_of(items),
                Some(_) => Err(ModelErrorV::Json("invalid type for field `objects`"@)),
            };
            let t = match entries_lookup(e, "type"@) {
                Some(SpecValue::String(s)) => Ok(s),
                Some(_) => Err(ModelErrorV::Json("invalid type for field `type`"@)),
                None => Err(ModelErrorV::Json("missing field `type`"@)),
            };
            match (id, objects, t) {
                (Err(m), _, _) => Err(m),
                (_, Err(m), _) => Err(m),
                (_, _, Err(m)) => Err(m),
                (Ok(id), Ok(objects), Ok(t)) => if t == "bundle"@ {
                    Ok(SpecBundle { type_: t, id, objects })
                } else {
                    Err(ModelErrorV::NotABundle(not_a_bundle_message(t)))
                },
            }
        },
        _ => Err(ModelErrorV::Json("invalid type: expected an object"@)),
    }
}

/// Whether every object of a bundle is well formed (see [`object_wf`]).
pub open spec fn bundle_wf(b: SpecBundle) -> bool {
    forall|i: int| 0 <= i < b.objects.len() ==> object_wf(#[trigger] b.objects[i])
}

/// The objects read from well-formed values are well formed.
proof fn lemma_objects_of_wf(items: Seq<SpecValue>)
    requires
        forall|i: int| 0 <= i < items.len() ==> value_wf(#[trigger] items[i]),
        objects_of(items) is Ok,
    ensures
        forall|i: int| 0 <= i < objects_of(items)->Ok_0.len() ==> object_wf(#[trigger] objects_of(items)->Ok_0[i]),
        objects_of(items)->Ok_0.len() == items.len(),
    decreases items.len(),
{
    if items.len() > 0 {
        let init = items.drop_last();
        assert forall|i: int| 0 <= i < init.len() implies value_wf(#[trigger] init[i]) by {
            assert(value_wf(items[i]));
        }
        lemma_objects_of_wf(init);
        assert(value_wf(items[items.len() - 1]));
        object_of_value_wf(items.last());
    }
}

/// A bundle read from a well-formed value holds well-formed objects.
pub proof fn bundle_of_value_wf(v: SpecValue)
    requires
        value_wf(v),
        bundle_of_value(v) is Ok,
    ensures
        bundle_wf(bundle_of_value(v)->Ok_0),
{
    let e = v->Object_0;
    lemma_lookup_wf(e, "objects"@);
    if entries_lookup(e, "objects"@) is Some {
        lemma_objects_of_wf(entries_lookup(e, "objects"@)->0->List_0);
    }
}

/// The mathematical form of the result of reading a bundle.
pub open spec fn bundle_result_view(r: Result<Bundle, ModelError>) -> Result<SpecBundle, ModelErrorV> {
    match r {
        Ok(b) => Ok(b@),
        Err(e) => Err(e@),
    }
}

fn read_objects(items: &Vec<StixValue>) -> (r: Result<Vec<StixObject>, ModelError>)
    ensures
        (match (r, objects_of(values_view(items@))) {
            (Ok(os), Ok(s)) => objects_view(os@) == s,
            (Err(e), Err(f)) => e@ == f,
            _ => false,
        }),
{
    let mut out: Vec<StixObject> = Vec::new();
    let mut i: usize = 0;
    assert(values_view(items@).subrange(0, 0) =~= Seq::<SpecValue>::empty());
    assert(objects_view(out@) =~= Seq::<SpecObject>::empty());
    while i < items.len()
        invariant
            0 <= i <= items@.len(),
            objects_of(values_view(items@).subrange(0, i as int)) == Ok::<Seq<SpecObject>, ModelErrorV>(objects_view(out@)),
        decreases items@.len() - i,
    {
        let ghost before = values_view(items@).subrange(0, i as int);
        let ghost after = values_view(items@).subrange(0, i + 1);
        assert(after.drop_last() =~= before);
        assert(after.last() == items@[i as int]@);
        let ghost old_out = objects_view(out@);
        match StixObject::from_json(items[i].deep_copy()) {
            Ok(o) => {
                out.push(o);
                assert(objects_view(out@) =~= old_out.push(out@.last()@));
            },
            Err(e) => {
                let m = e.to_string();
                proof { lemma_objects_of_prefix_err(values_view(items@), i + 1); }
                return Err(ModelError::Json(m));
            },
        }
        i = i + 1;
    }
    assert(values_view(items@).subrange(0, items@.len() as int) =~= values_view(items@));
    Ok(out)
}

/// An error in a prefix is the error of the whole list.
proof fn lemma_objects_of_prefix_err(items: Seq<SpecValue>, n: int)
    requires
        0 <= n <= items.len(),
        objects_of(items.subrange(0, n)) is Err,
    ensures
        objects_of(items) == objects_of(items.subrange(0, n)),
    decreases items.len() - n,
{
    if n < items.len() {
        let next = items.subrange(0, n + 1);
        assert(next.drop_last() =~= items.subrange(0, n));
        lemma_objects_of_prefix_err(items, n + 1);
    } else {
        assert(items.subrange(0, n) =~= items);
    }
}

impl Bundle {
    /// Read a bundle from a value (see [`bundle_of_value`]).
    pub fn from_json(value: &StixValue) -> (r: Result<Bundle, ModelError>)
        ensures
            bundle_result_view(r) == bundle_of_value(value@),
            value_wf(value@) ==> (r matches Ok(b) ==> bundle_wf(b@)),
    {
        proof {
            if value_wf(value@) && bundle_of_value(value@) is Ok {
                bundle_of_value_wf(value@);
            }
        }
        let entries = match value {
            StixValue::Object(e) => e,
            _ => return Err(ModelError::Json(String::from_str("invalid type: expected an object"))),
        };
        proof { lemma_object_view(*entries); }
        let id: Option<String> = match lookup(entries, "id") {
            None => None,
            Some(StixValue::Null) => None,
            Some(StixValue::String(s)) => Some(s.clone()),
            Some(_) => return Err(ModelError::Json(String::from_str("invalid type for field `id`"))),
        };
        let found = lookup(entries, "objects");
        let objects: Vec<StixObject> = match found {
            None => {
                let v: Vec<StixObject> = Vec::new();
                proof { assert(objects_view(v@) =~= Seq::<SpecObject>::empty()); }
                v
            },
            Some(StixValue::List(items)) => {
                proof { lemma_list_view(*items); }
                match read_objects(items) {
                    Ok(os) => os,
                    Err(e) => return Err(e),
                }
            },
            Some(_) => return Err(ModelError::Json(String::from_str("invalid type for field `objects`"))),
        };
        let type_: String = match lookup(entries, "type") {
            Some(StixValue::String(s)) => s.clone(),
            Some(_) => return Err(ModelError::Json(String::from_str("invalid type for field `type`"))),
            None => return Err(ModelError::Json(String::from_str("missing field `type`"))),
        };
        if !crate::text::str_eq(type_.as_str(), "bundle") {
            let mut m = String::from_str("type was '");
            m.append(type_.as_str());
            m.append("'");
            return Err(ModelError::NotABundle(m));
        }
        let b = Bundle { type_, id, objects };
        proof { assert(b@.objects =~= objects_view(b.objects@)); }
        Ok(b)
    }
}

/// The envelope of a bundle read object by object (as a model registry
/// does): the `type` must be the string `bundle` (a missing or non-string type
/// counts as empty); then the optional string `id`, and the items of
/// `objects` when it is a list (none otherwise).
pub open spec fn envelope_of(v: SpecValue) -> Result<(Option<Seq<char>>, Seq<SpecValue>), ModelErrorV> {
    let e = match v {
        SpecValue::Object(e) => e,
        _ => Seq::empty(),
    };
    let t = match string_property(e, "type"@) {
        Some(s) => s,
        None => Seq::empty(),
    };
    if t != "bundle"@ {
        Err(ModelErrorV::NotABundle(not_a_bundle_message(t)))
    } else {
        Ok((
            string_property(e, "id"@),
            match entries_lookup(e, "objects"@) {
                Some(SpecValue::List(items)) => items,
                _ => Seq::empty(),
            },
        ))
    }
}

/// Read a bundle's envelope (see [`envelope_of`]): its id and the raw values
/// of its objects, each to be read on its own.
pub fn bundle_envelope(value: &StixValue) -> (r: Result<(Option<String>, Vec<StixValue>), ModelError>)
    ensures
        (match (r, envelope_of(value@)) {
            (Ok((id, items)), Ok((sid, sitems))) => (match id {
                Some(x) => sid == Some(x@),
                None => sid is None,
            }) && values_view(items@) == sitems,
            (Err(e), Err(f)) => e@ == f,
            _ => false,
        }),
{
    let empty: Vec<(String, StixValue)> = Vec::new();
    let entries = match value {
        StixValue::Object(e) => {
            proof { lemma_object_view(*e); }
            e
        },
        _ => {
            proof { assert(crate::model::value::entries_view(empty@) =~= Seq::<(Seq<char>, SpecValue)>::empty()); }
            &empty
        },
    };
    let t: String = match lookup(entries, "type") {
        Some(StixValue::String(s)) => s.clone(),
        _ => String::new(),
    };
    if !crate::text::str_eq(t.as_str(), "bundle") {
        let mut m = String::from_str("type was '");
        m.append(t.as_str());
        m.append("'");
        return Err(ModelError::NotABundle(m));
    }
    let id: Option<String> = match lookup(entries, "id") {
        Some(StixValue::String(s)) => Some(s.clone()),
        _ => None,
    };
    let found = lookup(entries, "objects");
    let items: Vec<StixValue> = match found {
        Some(StixValue::List(list)) => {
            proof { lemma_list_view(*list); }
            let mut out: Vec<StixValue> = Vec::new();
            let mut i: usize = 0;
            while i < list.len()
                invariant
                    0 <= i <= list@.len(),
                    values_view(out@) == values_view(list@).subrange(0, i as int),
                decreases list@.len() - i,
            {
                let ghost before = values_view(out@);
                out.push(list[i].deep_copy());
                assert(values_view(out@) =~= before.push(list@[i as int]@));
                assert(values_view(list@).subrange(0, i + 1) =~= values_view(list@).subrange(0, i as int).push(list@[i as int]@));
                i = i + 1;
            }
            assert(values_view(list@).subrange(0, list@.len() as int) =~= values_view(list@));
            out
        },
        _ => {
            let v: Vec<StixValue> = Vec::new();
            assert(values_view(v@) =~= Seq::<SpecValue>::empty());
            v
        },
    };
    Ok((id, items))
}

} // verus!
