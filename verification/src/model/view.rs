//! The `ObjectView` trait and the generic, property-map-backed object.

use vstd::prelude::*;
use vstd::string::StringExecFns;

use crate::model::error::ModelError;
use crate::model::value::{
    copy_entries, entries_lookup, entries_view, lookup, opt_str_view, opt_value_view, SpecValue,
    StixValue,
};

verus! {

/// A read-only, type-agnostic view over a STIX object.
///
/// `property` returns an owned [`StixValue`], so typed objects can synthesize
/// values on demand. The matcher consumes objects through this view only.
pub trait ObjectView {
    /// The object's `id`, if it has one.
    spec fn spec_id(&self) -> Option<Seq<char>>;

    /// The object's `type`, if it has one.
    spec fn spec_type(&self) -> Option<Seq<char>>;

    /// The value of the property `name`, if the object has it.
    spec fn spec_property(&self, name: Seq<char>) -> Option<SpecValue>;

    /// The object's `id`.
    fn id(&self) -> (r: Option<&str>)
        ensures
            opt_str_view(r) == self.spec_id(),
    ;

    /// The object's `type`.
    fn type_(&self) -> (r: Option<&str>)
        ensures
            opt_str_view(r) == self.spec_type(),
    ;

    /// The value of the property `name`.
    fn property(&self, name: &str) -> (r: Option<StixValue>)
        ensures
            opt_value_view(r) == self.spec_property(name@),
    ;
}

/// The string stored under `key` in a property map, if there is one.
pub open spec fn string_property(entries: Seq<(Seq<char>, SpecValue)>, key: Seq<char>) -> Option<Seq<char>> {
    match entries_lookup(entries, key) {
        Some(SpecValue::String(s)) => Some(s),
        _ => None,
    }
}

/// A STIX object stored as a flat property map: used for every object type
/// without a dedicated typed struct, and keeps all properties, custom ones
/// included.
#[derive(Debug, PartialEq)]
pub struct GenericObject {
    properties: Vec<(String, StixValue)>,
}

impl View for GenericObject {
    type V = Seq<(Seq<char>, SpecValue)>;

    closed spec fn view(&self) -> Seq<(Seq<char>, SpecValue)> {
        entries_view(self.properties@)
    }
}

impl GenericObject {
    /// Build a generic object from a value, which must be an object.
    pub fn from_json(value: StixValue) -> (r: Result<GenericObject, ModelError>)
        ensures
            (match value@ {
                SpecValue::Object(entries) => r is Ok && r->Ok_0@ == entries,
                _ => r matches Err(ModelError::InvalidObject(m)) && m@ == "expected a JSON object"@,
            }),
    {
        match value {
            StixValue::Object(properties) => {
                let g = GenericObject { properties };
                proof { assert(g@ =~= value@->Object_0); }
                Ok(g)
            },
            _ => Err(ModelError::InvalidObject(String::from_str("expected a JSON object"))),
        }
    }

    /// The full property map.
    pub fn properties(&self) -> (r: &Vec<(String, StixValue)>)
        ensures
            entries_view(r@) == self@,
    {
        &self.properties
    }

    /// A copy of this object.
    pub fn deep_copy(&self) -> (r: GenericObject)
        ensures
            r@ == self@,
    {
        GenericObject { properties: copy_entries(&self.properties) }
    }
}

impl ObjectView for GenericObject {
    open spec fn spec_id(&self) -> Option<Seq<char>> {
        string_property(self@, "id"@)
    }

    open spec fn spec_type(&self) -> Option<Seq<char>> {
        string_property(self@, "type"@)
    }

    open spec fn spec_property(&self, name: Seq<char>) -> Option<SpecValue> {
        entries_lookup(self@, name)
    }

    fn id(&self) -> (r: Option<&str>) {
        match lookup(&self.properties, "id") {
            Some(v) => v.as_str(),
            None => None,
        }
    }

    fn type_(&self) -> (r: Option<&str>) {
        match lookup(&self.properties, "type") {
            Some(v) => v.as_str(),
            None => None,
        }
    }

    fn property(&self, name: &str) -> (r: Option<StixValue>) {
        match lookup(&self.properties, name) {
            Some(v) => Some(v.deep_copy()),
            None => None,
        }
    }
}

} // verus!
