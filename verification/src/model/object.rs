//! `StixObject`: a typed or generic STIX object, with dispatch on `type`.

use vstd::prelude::*;
use vstd::string::StringExecFns;

use crate::model::error::{ModelError, ModelErrorV};
use crate::model::sdo::{observed_data_of_wf, observed_data_properties_wf, observed_data_wf, 
    all_strings, count_field, is_typed_field, objects_field, observed_data_of, observed_data_property, other_entries,
    refs_field, string_field, ObservedData, SpecObservedData,
};
use crate::model::value::{entries_lookup, entries_wf, lemma_lookup_wf, value_wf};
use crate::model::value::{SpecValue, StixValue};
use crate::model::view::{string_property, GenericObject, ObjectView};
use crate::text::str_eq;

verus! {

/// The types with dedicated typed structs.
#[derive(Debug, PartialEq)]
pub enum TypedObject {
    ObservedData(ObservedData),
}

/// The mathematical form of a [`TypedObject`].
pub enum SpecTypedObject {
    ObservedData(SpecObservedData),
}

impl View for TypedObject {
    type V = SpecTypedObject;

    open spec fn view(&self) -> SpecTypedObject {
        match self {
            TypedObject::ObservedData(od) => SpecTypedObject::ObservedData(od@),
        }
    }
}

/// A STIX object: a recognized typed object or a generic property map.
#[derive(Debug, PartialEq)]
pub enum StixObject {
    Typed(TypedObject),
    Generic(GenericObject),
}

/// The mathematical form of a [`StixObject`].
pub enum SpecObject {
    Typed(SpecTypedObject),
    Generic(Seq<(Seq<char>, SpecValue)>),
}

impl View for StixObject {
    type V = SpecObject;

    open spec fn view(&self) -> SpecObject {
        match self {
            StixObject::Typed(t) => SpecObject::Typed(t@),
            StixObject::Generic(g) => SpecObject::Generic(g@),
        }
    }
}

/// The `id` of an object.
pub open spec fn object_id(o: SpecObject) -> Option<Seq<char>> {
    match o {
        SpecObject::Typed(SpecTypedObject::ObservedData(od)) => Some(od.id),
        SpecObject::Generic(e) => string_property(e, "id"@),
    }
}

/// The `type` of an object.
pub open spec fn object_type(o: SpecObject) -> Option<Seq<char>> {
    match o {
        SpecObject::Typed(SpecTypedObject::ObservedData(od)) => Some(od.type_),
        SpecObject::Generic(e) => string_property(e, "type"@),
    }
}

/// The value of a property of an object.
pub open spec fn object_property(o: SpecObject, name: Seq<char>) -> Option<SpecValue> {
    match o {
        SpecObject::Typed(SpecTypedObject::ObservedData(od)) => observed_data_property(od, name),
        SpecObject::Generic(e) => crate::model::value::entries_lookup(e, name),
    }
}

/// The message for an object without a string `type`.
pub open spec fn missing_type_message() -> Seq<char> {
    "missing 'type' property"@
}

/// How a value reads as a STIX object: by its string `type` property, an
/// `observed-data` object is typed, any other object is generic.
pub open spec fn object_of_value(v: SpecValue) -> Result<SpecObject, ModelErrorV> {
    match v {
        SpecValue::Object(e) => match string_property(e, "type"@) {
            None => Err(ModelErrorV::InvalidObject(missing_type_message())),
            Some(t) => if t == "observed-data"@ {
                match observed_data_of(e) {
                    Ok(od) => Ok(SpecObject::Typed(SpecTypedObject::ObservedData(od))),
                    Err(m) => Err(ModelErrorV::Json(m)),
                }
            } else {
                Ok(SpecObject::Generic(e))
            },
        },
        _ => Err(ModelErrorV::InvalidObject(missing_type_message())),
    }
}

/// Whether an object is well formed: its properties are well-formed entries
/// (each key once, in increasing order), or, for `observed-data`, its
/// remaining properties are (see [`observed_data_wf`]).
pub open spec fn object_wf(o: SpecObject) -> bool {
    match o {
        SpecObject::Typed(SpecTypedObject::ObservedData(od)) => observed_data_wf(od),
        SpecObject::Generic(e) => entries_wf(e),
    }
}

/// An object read from a well-formed value is well formed.
pub proof fn object_of_value_wf(v: SpecValue)
    requires
        value_wf(v),
        object_of_value(v) is Ok,
    ensures
        object_wf(object_of_value(v)->Ok_0),
{
    let e = v->Object_0;
    if observed_data_of(e) is Ok {
        observed_data_of_wf(e);
    }
}

/// Every property of a well-formed object is a well-formed value.
pub proof fn object_properties_wf(o: SpecObject, name: Seq<char>)
    requires
        object_wf(o),
    ensures
        object_property(o, name) matches Some(p) ==> value_wf(p),
{
    match o {
        SpecObject::Typed(SpecTypedObject::ObservedData(od)) => observed_data_properties_wf(od, name),
        SpecObject::Generic(e) => lemma_lookup_wf(e, name),
    }
}

/// The mathematical form of the result of reading an object.
pub open spec fn object_result_view(r: Result<StixObject, ModelError>) -> Result<SpecObject, ModelErrorV> {
    match r {
        Ok(o) => Ok(o@),
        Err(e) => Err(e@),
    }
}

impl StixObject {
    /// Build a `StixObject` from a value, dispatching on its `type` property
    /// (see [`object_of_value`]).
    pub fn from_json(value: StixValue) -> (r: Result<StixObject, ModelError>)
        ensures
            object_result_view(r) == object_of_value(value@),
            value_wf(value@) ==> (r matches Ok(o) ==> object_wf(o@)),
    {
        proof {
            if value_wf(value@) && object_of_value(value@) is Ok {
                object_of_value_wf(value@);
            }
        }
        let is_observed_data = match &value {
            StixValue::Object(entries) => {
                proof { crate::model::value::lemma_object_view(*entries); }
                match crate::model::value::lookup(entries, "type") {
                    Some(StixValue::String(t)) => str_eq(t.as_str(), "observed-data"),
                    _ => {
                        return Err(ModelError::InvalidObject(String::from_str("missing 'type' property")));
                    },
                }
            },
            _ => return Err(ModelError::InvalidObject(String::from_str("missing 'type' property"))),
        };
        if is_observed_data {
            match ObservedData::from_value(&value) {
                Ok(od) => Ok(StixObject::Typed(TypedObject::ObservedData(od))),
                Err(e) => Err(e),
            }
        } else {
            match GenericObject::from_json(value) {
                Ok(g) => Ok(StixObject::Generic(g)),
                Err(e) => Err(e),
            }
        }
    }

    /// The string `type` of a raw object value, which must have one.
    pub fn raw_type(value: &StixValue) -> (r: Result<String, ModelError>)
        ensures
            (match r {
                Ok(t) => value@ matches SpecValue::Object(e) && string_property(e, "type"@) == Some(t@),
                Err(e) => e@ == ModelErrorV::InvalidObject(missing_type_message()) && match value@ {
                    SpecValue::Object(e) => string_property(e, "type"@) is None,
                    _ => true,
                },
            }),
    {
        match value {
            StixValue::Object(entries) => {
                proof { crate::model::value::lemma_object_view(*entries); }
                match crate::model::value::lookup(entries, "type") {
                    Some(StixValue::String(t)) => Ok(t.clone()),
                    _ => Err(ModelError::InvalidObject(String::from_str("missing 'type' property"))),
                }
            },
            _ => Err(ModelError::InvalidObject(String::from_str("missing 'type' property"))),
        }
    }

    /// A copy of this object.
    pub fn deep_copy(&self) -> (r: StixObject)
        ensures
            r@ == self@,
    {
        match self {
            StixObject::Typed(TypedObject::ObservedData(od)) => StixObject::Typed(TypedObject::ObservedData(od.deep_copy())),
            StixObject::Generic(g) => StixObject::Generic(g.deep_copy()),
        }
    }
}

impl ObjectView for TypedObject {
    open spec fn spec_id(&self) -> Option<Seq<char>> {
        object_id(SpecObject::Typed(self@))
    }

    open spec fn spec_type(&self) -> Option<Seq<char>> {
        object_type(SpecObject::Typed(self@))
    }

    open spec fn spec_property(&self, name: Seq<char>) -> Option<SpecValue> {
        object_property(SpecObject::Typed(self@), name)
    }

    fn id(&self) -> (r: Option<&str>) {
        match self {
            TypedObject::ObservedData(od) => od.id(),
        }
    }

    fn type_(&self) -> (r: Option<&str>) {
        match self {
            TypedObject::ObservedData(od) => od.type_(),
        }
    }

    fn property(&self, name: &str) -> (r: Option<StixValue>) {
        match self {
            TypedObject::ObservedData(od) => od.property(name),
        }
    }
}

impl ObjectView for StixObject {
    open spec fn spec_id(&self) -> Option<Seq<char>> {
        object_id(self@)
    }

    open spec fn spec_type(&self) -> Option<Seq<char>> {
        object_type(self@)
    }

    open spec fn spec_property(&self, name: Seq<char>) -> Option<SpecValue> {
        object_property(self@, name)
    }

    fn id(&self) -> (r: Option<&str>) {
        match self {
            StixObject::Typed(t) => t.id(),
            StixObject::Generic(g) => g.id(),
        }
    }

    fn type_(&self) -> (r: Option<&str>) {
        match self {
            StixObject::Typed(t) => t.type_(),
            StixObject::Generic(g) => g.type_(),
        }
    }

    fn property(&self, name: &str) -> (r: Option<StixValue>) {
        match self {
            StixObject::Typed(t) => t.property(name),
            StixObject::Generic(g) => g.property(name),
        }
    }
}

/// Looking a key up after appending an entry finds the earlier entry first.
proof fn lemma_lookup_push(entries: Seq<(Seq<char>, SpecValue)>, x: (Seq<char>, SpecValue), k: Seq<char>)
    ensures
        entries_lookup(entries.push(x), k) == match entries_lookup(entries, k) {
            Some(v) => Some(v),
            None => if x.0 == k {
                Some(x.1)
            } else {
                None
            },
        },
    decreases entries.len(),
{
    if entries.len() > 0 {
        assert(entries.push(x)[0] == entries[0]);
        assert(entries.push(x).drop_first() =~= entries.drop_first().push(x));
        lemma_lookup_push(entries.drop_first(), x, k);
    } else {
        assert(entries.push(x)[0] == x);
        assert(entries.push(x).drop_first() =~= Seq::<(Seq<char>, SpecValue)>::empty());
        assert(entries_lookup(Seq::<(Seq<char>, SpecValue)>::empty(), k) is None);
        assert(entries =~= Seq::<(Seq<char>, SpecValue)>::empty());
    }
}

/// The entries kept besides the typed fields give every other key the value
/// of the whole list.
proof fn lemma_other_entries_lookup(entries: Seq<(Seq<char>, SpecValue)>, k: Seq<char>)
    requires
        !is_typed_field(k),
    ensures
        entries_lookup(other_entries(entries), k) == entries_lookup(entries, k),
    decreases entries.len(),
{
    if entries.len() > 0 {
        let init = entries.drop_last();
        lemma_other_entries_lookup(init, k);
        assert(init.push(entries.last()) =~= entries);
        lemma_lookup_push(init, entries.last(), k);
        if !is_typed_field(entries.last().0) {
            lemma_lookup_push(other_entries(init), entries.last(), k);
        }
    }
}

/// Reading an object keeps its properties: every property of the object read
/// from a value is the value's entry of that name (typed, generic and custom
/// properties alike). The exceptions are the defaults of `observed-data`: an
/// absent `object_refs` reads as an empty list and a null `objects` as absent.
pub proof fn reading_keeps_properties(v: SpecValue, k: Seq<char>)
    requires
        object_of_value(v) is Ok,
        !(k == "object_refs"@ && entries_lookup(v->Object_0, k) is None),
        !(k == "objects"@ && entries_lookup(v->Object_0, k) == Some(SpecValue::Null)),
    ensures
        object_property(object_of_value(v)->Ok_0, k) == entries_lookup(v->Object_0, k),
{
    reveal_strlit("type");
    reveal_strlit("id");
    reveal_strlit("first_observed");
    reveal_strlit("last_observed");
    reveal_strlit("number_observed");
    reveal_strlit("object_refs");
    reveal_strlit("objects");
    reveal_strlit("observed-data");
    let e = v->Object_0;
    match object_of_value(v)->Ok_0 {
        SpecObject::Generic(_) => {},
        SpecObject::Typed(SpecTypedObject::ObservedData(od)) => {
            if k == "number_observed"@ {
                let m = entries_lookup(e, k)->Some_0->Integer_0;
                assert(count_field(e) == Ok::<u64, Seq<char>>(m as u64));
                assert((m as u64) as i64 == m);
            } else if k == "object_refs"@ {
                let items = entries_lookup(e, k)->Some_0->List_0;
                assert(all_strings(items));
                assert forall|i: int| 0 <= i < items.len() implies SpecValue::String((#[trigger] items[i])->String_0) == items[i] by {
                    assert(items[i] is String);
                }
                assert(od.object_refs.map_values(|s: Seq<char>| SpecValue::String(s)) =~= items);
            } else if !is_typed_field(k) {
                lemma_other_entries_lookup(e, k);
            }
        },
    }
}

} // verus!
