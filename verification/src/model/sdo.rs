//! Typed STIX Domain Objects: `observed-data`.

use vstd::prelude::*;
use vstd::string::StringExecFns;

use crate::model::error::ModelError;
use crate::model::value::{
    copy_entries, entries_lookup, entries_view, entries_wf, lemma_lookup_wf, lookup, opt_value_view, value_wf,
    SpecValue, StixValue,
};
use crate::model::view::ObjectView;
use crate::text::str_eq;

verus! {

/// The STIX `observed-data` SDO.
///
/// Carries the temporal fields and `object_refs` the matcher needs. Other
/// properties are kept in `additional`, so the object view still exposes them.
/// STIX 2.0 inline `objects` are kept as well.
#[derive(Debug, PartialEq)]
pub struct ObservedData {
    pub type_: String,
    pub id: String,
    pub first_observed: String,
    pub last_observed: String,
    pub number_observed: u64,
    pub object_refs: Vec<String>,
    /// STIX 2.0 inline observed objects (`objects`), if present.
    pub objects: Option<Vec<(String, StixValue)>>,
    /// Every other property.
    pub additional: Vec<(String, StixValue)>,
}

/// The mathematical form of an [`ObservedData`].
pub struct SpecObservedData {
    pub type_: Seq<char>,
    pub id: Seq<char>,
    pub first_observed: Seq<char>,
    pub last_observed: Seq<char>,
    pub number_observed: u64,
    pub object_refs: Seq<Seq<char>>,
    pub objects: Option<Seq<(Seq<char>, SpecValue)>>,
    pub additional: Seq<(Seq<char>, SpecValue)>,
}

/// The mathematical form of a list of strings.
pub open spec fn strings_view(v: Seq<String>) -> Seq<Seq<char>> {
    v.map_values(|s: String| s@)
}

impl View for ObservedData {
    type V = SpecObservedData;

    open spec fn view(&self) -> SpecObservedData {
        SpecObservedData {
            type_: self.type_@,
            id: self.id@,
            first_observed: self.first_observed@,
            last_observed: self.last_observed@,
            number_observed: self.number_observed,
            object_refs: strings_view(self.object_refs@),
            objects: match self.objects {
                Some(e) => Some(entries_view(e@)),
                None => None,
            },
            additional: entries_view(self.additional@),
        }
    }
}

/// The value of a property of an `observed-data` object: the typed fields as
/// values, every other name from `additional`.
pub open spec fn observed_data_property(od: SpecObservedData, name: Seq<char>) -> Option<SpecValue> {
    if name == "type"@ {
        Some(SpecValue::String(od.type_))
    } else if name == "id"@ {
        Some(SpecValue::String(od.id))
    } else if name == "first_observed"@ {
        Some(SpecValue::String(od.first_observed))
    } else if name == "last_observed"@ {
        Some(SpecValue::String(od.last_observed))
    } else if name == "number_observed"@ {
        Some(SpecValue::Integer(od.number_observed as i64))
    } else if name == "object_refs"@ {
        Some(SpecValue::List(od.object_refs.map_values(|s: Seq<char>| SpecValue::String(s))))
    } else if name == "objects"@ {
        match od.objects {
            Some(e) => Some(SpecValue::Object(e)),
            None => None,
        }
    } else {
        entries_lookup(od.additional, name)
    }
}

/// The message for a required field that is absent.
pub open spec fn missing_field_message(name: Seq<char>) -> Seq<char> {
    "missing field `"@ + name + "`"@
}

/// The message for a field of the wrong type.
pub open spec fn invalid_field_message(name: Seq<char>) -> Seq<char> {
    "invalid type for field `"@ + name + "`"@
}

/// A required string field of a property map, or the message saying why it
/// cannot be read.
pub open spec fn string_field(entries: Seq<(Seq<char>, SpecValue)>, name: Seq<char>) -> Result<Seq<char>, Seq<char>> {
    match entries_lookup(entries, name) {
        Some(SpecValue::String(s)) => Ok(s),
        Some(_) => Err(invalid_field_message(name)),
        None => Err(missing_field_message(name)),
    }
}

/// The required `number_observed` field: a non-negative integer.
pub open spec fn count_field(entries: Seq<(Seq<char>, SpecValue)>) -> Result<u64, Seq<char>> {
    match entries_lookup(entries, "number_observed"@) {
        Some(SpecValue::Integer(n)) => if n >= 0 { Ok(n as u64) } else { Err(invalid_field_message("number_observed"@)) },
        Some(_) => Err(invalid_field_message("number_observed"@)),
        None => Err(missing_field_message("number_observed"@)),
    }
}

/// Whether every item of a list is a string.
pub open spec fn all_strings(items: Seq<SpecValue>) -> bool {
    forall|i: int| 0 <= i < items.len() ==> (#[trigger] items[i]) is String
}

/// The optional `object_refs` field: a list of strings, empty when absent.
pub open spec fn refs_field(entries: Seq<(Seq<char>, SpecValue)>) -> Result<Seq<Seq<char>>, Seq<char>> {
    match entries_lookup(entries, "object_refs"@) {
        None => Ok(Seq::empty()),
        Some(SpecValue::List(items)) => if all_strings(items) {
            Ok(items.map_values(|v: SpecValue| v->String_0))
        } else {
            Err(invalid_field_message("object_refs"@))
        },
        Some(_) => Err(invalid_field_message("object_refs"@)),
    }
}

/// The optional `objects` field: an object, absent when missing or null.
pub open spec fn objects_field(entries: Seq<(Seq<char>, SpecValue)>) -> Result<Option<Seq<(Seq<char>, SpecValue)>>, Seq<char>> {
    match entries_lookup(entries, "objects"@) {
        None => Ok(None),
        Some(SpecValue::Null) => Ok(None),
        Some(SpecValue::Object(e)) => Ok(Some(e)),
        Some(_) => Err(invalid_field_message("objects"@)),
    }
}

/// Whether a key is one of the typed fields of `observed-data`.
pub open spec fn is_typed_field(k: Seq<char>) -> bool {
    k == "type"@ || k == "id"@ || k == "first_observed"@ || k == "last_observed"@
        || k == "number_observed"@ || k == "object_refs"@ || k == "objects"@
}

/// The entries whose key is not a typed field, in order.
pub open spec fn other_entries(entries: Seq<(Seq<char>, SpecValue)>) -> Seq<(Seq<char>, SpecValue)>
    decreases entries.len(),
{
    if entries.len() == 0 {
        Seq::empty()
    } else {
        let rest = other_entries(entries.drop_last());
        if is_typed_field(entries.last().0) {
            rest
        } else {
            rest.push(entries.last())
        }
    }
}

/// How a property map reads as an `observed-data` object: the object, or the
/// message of the first field (in declaration order) that cannot be read.
pub open spec fn observed_data_of(entries: Seq<(Seq<char>, SpecValue)>) -> Result<SpecObservedData, Seq<char>> {
    match (string_field(entries, "type"@), string_field(entries, "id"@),
        string_field(entries, "first_observed"@), string_field(entries, "last_observed"@)) {
        (Err(m), _, _, _) => Err(m),
        (_, Err(m), _, _) => Err(m),
        (_, _, Err(m), _) => Err(m),
        (_, _, _, Err(m)) => Err(m),
        (Ok(t), Ok(id), Ok(first), Ok(last)) => match (count_field(entries), refs_field(entries), objects_field(entries)) {
            (Err(m), _, _) => Err(m),
            (_, Err(m), _) => Err(m),
            (_, _, Err(m)) => Err(m),
            (Ok(n), Ok(refs), Ok(objs)) => Ok(SpecObservedData {
                type_: t,
                id: id,
                first_observed: first,
                last_observed: last,
                number_observed: n,
                object_refs: refs,
                objects: objs,
                additional: other_entries(entries),
            }),
        },
    }
}

/// Whether an `observed-data` object is well formed: its other properties,
/// and its inline objects where it has them, are well-formed entries (each key
/// once, in increasing order).
pub open spec fn observed_data_wf(od: SpecObservedData) -> bool {
    &&& entries_wf(od.additional)
    &&& (od.objects matches Some(e) ==> entries_wf(e))
}

/// Leaving out the typed fields keeps entries well formed, and keeps only
/// entries of the list.
proof fn lemma_other_entries_wf(entries: Seq<(Seq<char>, SpecValue)>)
    requires
        entries_wf(entries),
    ensures
        entries_wf(other_entries(entries)),
        forall|p: int| 0 <= p < other_entries(entries).len() ==> exists|q: int| 0 <= q < entries.len() && #[trigger] other_entries(entries)[p] == entries[q],
    decreases entries.len(),
{
    if entries.len() > 0 {
        let init = entries.drop_last();
        assert forall|a: int, b: int| 0 <= a < b < init.len() implies crate::text::chars_less(#[trigger] init[a].0, #[trigger] init[b].0) by {
            assert(crate::text::chars_less(entries[a].0, entries[b].0));
        }
        assert forall|i: int| 0 <= i < init.len() implies value_wf(#[trigger] init[i].1) by {
            assert(value_wf(entries[i].1));
        }
        lemma_other_entries_wf(init);
        let rest = other_entries(init);
        let last = entries.last();
        assert(value_wf(entries[entries.len() - 1].1));
        if !is_typed_field(last.0) {
            let r = rest.push(last);
            assert forall|p: int| 0 <= p < rest.len() implies exists|q: int| 0 <= q < entries.len() - 1 && #[trigger] rest[p] == entries[q] by {
                let q = choose|q: int| 0 <= q < init.len() && #[trigger] rest[p] == init[q];
                assert(rest[p] == entries[q]);
            }
            assert forall|a: int, b: int| 0 <= a < b < r.len() implies crate::text::chars_less(#[trigger] r[a].0, #[trigger] r[b].0) by {
                if b == r.len() - 1 {
                    let q = choose|q: int| 0 <= q < entries.len() - 1 && #[trigger] rest[a] == entries[q];
                    assert(crate::text::chars_less(entries[q].0, entries[entries.len() - 1].0));
                } else {
                    assert(r[a] == rest[a] && r[b] == rest[b]);
                }
            }
            assert forall|i: int| 0 <= i < r.len() implies value_wf(#[trigger] r[i].1) by {
                if i < rest.len() {
                    assert(r[i] == rest[i]);
                }
            }
            assert forall|p: int| 0 <= p < r.len() implies exists|q: int| 0 <= q < entries.len() && #[trigger] r[p] == entries[q] by {
                if p < rest.len() {
                    let q = choose|q: int| 0 <= q < entries.len() - 1 && #[trigger] rest[p] == entries[q];
                    assert(r[p] == entries[q]);
                } else {
                    assert(r[p] == entries[entries.len() - 1]);
                }
            }
        } else {
            assert forall|p: int| 0 <= p < rest.len() implies exists|q: int| 0 <= q < entries.len() && #[trigger] rest[p] == entries[q] by {
                let q = choose|q: int| 0 <= q < init.len() && #[trigger] rest[p] == init[q];
                assert(rest[p] == entries[q]);
            }
        }
    }
}

/// An `observed-data` object read from well-formed entries is well formed.
pub proof fn observed_data_of_wf(entries: Seq<(Seq<char>, SpecValue)>)
    requires
        entries_wf(entries),
        observed_data_of(entries) is Ok,
    ensures
        observed_data_wf(observed_data_of(entries)->Ok_0),
{
    lemma_other_entries_wf(entries);
    lemma_lookup_wf(entries, "objects"@);
}

/// Every property of a well-formed `observed-data` object is a well-formed
/// value.
pub proof fn observed_data_properties_wf(od: SpecObservedData, name: Seq<char>)
    requires
        observed_data_wf(od),
    ensures
        observed_data_property(od, name) matches Some(v) ==> value_wf(v),
{
    lemma_lookup_wf(od.additional, name);
    let items = od.object_refs.map_values(|s: Seq<char>| SpecValue::String(s));
    assert forall|i: int| 0 <= i < items.len() implies value_wf(#[trigger] items[i]) by {
        assert(items[i] is String);
    }
}

/// How a value reads as an `observed-data` object.
pub open spec fn observed_data_of_value(v: SpecValue) -> Result<SpecObservedData, Seq<char>> {
    match v {
        SpecValue::Object(entries) => observed_data_of(entries),
        _ => Err("invalid type: expected an object"@),
    }
}

fn message_with_field(prefix: &str, name: &str) -> (s: String)
    ensures
        s@ == prefix@ + name@ + "`"@,
{
    let mut s = String::from_str(prefix);
    s.append(name);
    s.append("`");
    s
}

fn read_string_field(entries: &Vec<(String, StixValue)>, name: &str) -> (r: Result<String, String>)
    ensures
        (match (r, string_field(entries_view(entries@), name@)) {
            (Ok(s), Ok(t)) => s@ == t,
            (Err(m), Err(n)) => m@ == n,
            _ => false,
        }),
{
    match lookup(entries, name) {
        Some(StixValue::String(s)) => Ok(s.clone()),
        Some(_) => Err(message_with_field("invalid type for field `", name)),
        None => Err(message_with_field("missing field `", name)),
    }
}

fn read_count_field(entries: &Vec<(String, StixValue)>) -> (r: Result<u64, String>)
    ensures
        (match (r, count_field(entries_view(entries@))) {
            (Ok(s), Ok(t)) => s == t,
            (Err(m), Err(n)) => m@ == n,
            _ => false,
        }),
{
    match lookup(entries, "number_observed") {
        Some(StixValue::Integer(n)) => if *n >= 0 {
            Ok(*n as u64)
        } else {
            Err(message_with_field("invalid type for field `", "number_observed"))
        },
        Some(_) => Err(message_with_field("invalid type for field `", "number_observed")),
        None => Err(message_with_field("missing field `", "number_observed")),
    }
}

fn read_refs_field(entries: &Vec<(String, StixValue)>) -> (r: Result<Vec<String>, String>)
    ensures
        (match (r, refs_field(entries_view(entries@))) {
            (Ok(s), Ok(t)) => strings_view(s@) == t,
            (Err(m), Err(n)) => m@ == n,
            _ => false,
        }),
{
    let found = lookup(entries, "object_refs");
    match found {
        None => {
            let v: Vec<String> = Vec::new();
            proof { assert(strings_view(v@) =~= Seq::<Seq<char>>::empty()); }
            Ok(v)
        },
        Some(StixValue::List(items)) => {
            let ghost iv = items@.map_values(|v: StixValue| v@);
            assert(found.unwrap()@->List_0 =~= iv);
            let mut out: Vec<String> = Vec::new();
            let mut i: usize = 0;
            while i < items.len()
                invariant
                    0 <= i <= items@.len(),
                    iv == items@.map_values(|v: StixValue| v@),
                    entries_lookup(entries_view(entries@), "object_refs"@) == Some(SpecValue::List(iv)),
                    out@.len() == i,
                    forall|j: int| 0 <= j < i ==> (#[trigger] iv[j]) is String && out@[j]@ == iv[j]->String_0,
                decreases items@.len() - i,
            {
                match &items[i] {
                    StixValue::String(s) => {
                        out.push(s.clone());
                    },
                    _ => {
                        assert(!(iv[i as int] is String));
                        assert(!all_strings(iv));
                        return Err(message_with_field("invalid type for field `", "object_refs"));
                    },
                }
                i = i + 1;
            }
            proof {
                assert(strings_view(out@) =~= iv.map_values(|v: SpecValue| v->String_0));
            }
            Ok(out)
        },
        Some(_) => Err(message_with_field("invalid type for field `", "object_refs")),
    }
}

fn read_objects_field(entries: &Vec<(String, StixValue)>) -> (r: Result<Option<Vec<(String, StixValue)>>, String>)
    ensures
        (match (r, objects_field(entries_view(entries@))) {
            (Ok(Some(s)), Ok(Some(t))) => entries_view(s@) == t,
            (Ok(None), Ok(None)) => true,
            (Err(m), Err(n)) => m@ == n,
            _ => false,
        }),
{
    match lookup(entries, "objects") {
        None => Ok(None),
        Some(StixValue::Null) => Ok(None),
        Some(StixValue::Object(e)) => {
            proof { assert(entries_view(e@) =~= (StixValue::Object(*e))@->Object_0); }
            Ok(Some(copy_entries(e)))
        },
        Some(_) => Err(message_with_field("invalid type for field `", "objects")),
    }
}

fn is_typed_field_name(k: &str) -> (r: bool)
    ensures
        r == is_typed_field(k@),
{
    str_eq(k, "type") || str_eq(k, "id") || str_eq(k, "first_observed") || str_eq(k, "last_observed")
        || str_eq(k, "number_observed") || str_eq(k, "object_refs") || str_eq(k, "objects")
}

fn read_other_entries(entries: &Vec<(String, StixValue)>) -> (r: Vec<(String, StixValue)>)
    ensures
        entries_view(r@) == other_entries(entries_view(entries@)),
{
    let mut out: Vec<(String, StixValue)> = Vec::new();
    let mut i: usize = 0;
    while i < entries.len()
        invariant
            0 <= i <= entries@.len(),
            entries_view(out@) == other_entries(entries_view(entries@).subrange(0, i as int)),
        decreases entries@.len() - i,
    {
        let ghost before = entries_view(entries@).subrange(0, i as int);
        let ghost after = entries_view(entries@).subrange(0, i + 1);
        assert(after.drop_last() =~= before);
        if !is_typed_field_name(entries[i].0.as_str()) {
            let k = entries[i].0.clone();
            let c = entries[i].1.deep_copy();
            out.push((k, c));
            assert(entries_view(out@) =~= other_entries(before).push(after.last()));
        }
        i = i + 1;
    }
    assert(entries_view(entries@).subrange(0, entries@.len() as int) =~= entries_view(entries@));
    out
}

impl ObservedData {
    /// Read an `observed-data` object from a property value: the required
    /// string fields `type`, `id`, `first_observed`, `last_observed`, the
    /// non-negative integer `number_observed`, the optional string list
    /// `object_refs` and the optional object `objects`; every other property
    /// goes to `additional`.
    pub fn from_value(value: &StixValue) -> (r: Result<ObservedData, ModelError>)
        ensures
            (match (r, observed_data_of_value(value@)) {
                (Ok(od), Ok(spec)) => od@ == spec,
                (Err(ModelError::Json(m)), Err(n)) => m@ == n,
                _ => false,
            }),
    {
        let entries = match value {
            StixValue::Object(e) => e,
            _ => return Err(ModelError::Json(String::from_str("invalid type: expected an object"))),
        };
        proof { assert(entries_view(entries@) =~= value@->Object_0); }
        let type_ = match read_string_field(entries, "type") {
            Ok(s) => s,
            Err(m) => return Err(ModelError::Json(m)),
        };
        let id = match read_string_field(entries, "id") {
            Ok(s) => s,
            Err(m) => return Err(ModelError::Json(m)),
        };
        let first_observed = match read_string_field(entries, "first_observed") {
            Ok(s) => s,
            Err(m) => return Err(ModelError::Json(m)),
        };
        let last_observed = match read_string_field(entries, "last_observed") {
            Ok(s) => s,
            Err(m) => return Err(ModelError::Json(m)),
        };
        let number_observed = match read_count_field(entries) {
            Ok(n) => n,
            Err(m) => return Err(ModelError::Json(m)),
        };
        let object_refs = match read_refs_field(entries) {
            Ok(v) => v,
            Err(m) => return Err(ModelError::Json(m)),
        };
        let objects = match read_objects_field(entries) {
            Ok(v) => v,
            Err(m) => return Err(ModelError::Json(m)),
        };
        let additional = read_other_entries(entries);
        Ok(ObservedData {
            type_,
            id,
            first_observed,
            last_observed,
            number_observed,
            object_refs,
            objects,
            additional,
        })
    }

    /// The referenced SCO ids: the entries of `object_refs`, in order.
    /// (STIX 2.0 inline `objects` are keyed locally, not by id, so they yield
    /// no refs.)
    pub fn sco_ids(&self) -> (r: Vec<&str>)
        ensures
            r@.len() == self.object_refs@.len(),
            forall|i: int| 0 <= i < r@.len() ==> (#[trigger] r@[i])@ == self.object_refs@[i]@,
    {
        let mut out: Vec<&str> = Vec::new();
        let mut i: usize = 0;
        while i < self.object_refs.len()
            invariant
                0 <= i <= self.object_refs@.len(),
                out@.len() == i,
                forall|j: int| 0 <= j < i ==> (#[trigger] out@[j])@ == self.object_refs@[j]@,
            decreases self.object_refs@.len() - i,
        {
            out.push(self.object_refs[i].as_str());
            i = i + 1;
        }
        out
    }

    /// A copy of this object.
    pub fn deep_copy(&self) -> (r: ObservedData)
        ensures
            r@ == self@,
    {
        let mut refs: Vec<String> = Vec::new();
        let mut i: usize = 0;
        while i < self.object_refs.len()
            invariant
                0 <= i <= self.object_refs@.len(),
                refs@.len() == i,
                forall|j: int| 0 <= j < i ==> (#[trigger] refs@[j])@ == self.object_refs@[j]@,
            decreases self.object_refs@.len() - i,
        {
            refs.push(self.object_refs[i].clone());
            i = i + 1;
        }
        assert(strings_view(refs@) =~= strings_view(self.object_refs@));
        let objects = match &self.objects {
            Some(e) => Some(copy_entries(e)),
            None => None,
        };
        ObservedData {
            type_: self.type_.clone(),
            id: self.id.clone(),
            first_observed: self.first_observed.clone(),
            last_observed: self.last_observed.clone(),
            number_observed: self.number_observed,
            object_refs: refs,
            objects,
            additional: copy_entries(&self.additional),
        }
    }

    /// The value of the property `name` (see [`observed_data_property`]).
    pub fn property_value(&self, name: &str) -> (r: Option<StixValue>)
        ensures
            opt_value_view(r) == observed_data_property(self@, name@),
    {
        if str_eq(name, "type") {
            Some(StixValue::String(self.type_.clone()))
        } else if str_eq(name, "id") {
            Some(StixValue::String(self.id.clone()))
        } else if str_eq(name, "first_observed") {
            Some(StixValue::String(self.first_observed.clone()))
        } else if str_eq(name, "last_observed") {
            Some(StixValue::String(self.last_observed.clone()))
        } else if str_eq(name, "number_observed") {
            Some(StixValue::Integer(self.number_observed as i64))
        } else if str_eq(name, "object_refs") {
            let mut out: Vec<StixValue> = Vec::new();
            let mut i: usize = 0;
            while i < self.object_refs.len()
                invariant
                    0 <= i <= self.object_refs@.len(),
                    out@.len() == i,
                    forall|j: int| 0 <= j < i ==> (#[trigger] out@[j])@ == SpecValue::String(self.object_refs@[j]@),
                decreases self.object_refs@.len() - i,
            {
                out.push(StixValue::String(self.object_refs[i].clone()));
                i = i + 1;
            }
            let r = StixValue::List(out);
            proof {
                assert(r@->List_0 =~= self@.object_refs.map_values(|s: Seq<char>| SpecValue::String(s)));
            }
            Some(r)
        } else if str_eq(name, "objects") {
            match &self.objects {
                Some(e) => {
                    let r = StixValue::Object(copy_entries(e));
                    proof { assert(r@->Object_0 =~= entries_view(e@)); }
                    Some(r)
                },
                None => None,
            }
        } else {
            match lookup(&self.additional, name) {
                Some(v) => Some(v.deep_copy()),
                None => None,
            }
        }
    }
}

impl ObjectView for ObservedData {
    open spec fn spec_id(&self) -> Option<Seq<char>> {
        Some(self@.id)
    }

    open spec fn spec_type(&self) -> Option<Seq<char>> {
        Some(self@.type_)
    }

    open spec fn spec_property(&self, name: Seq<char>) -> Option<SpecValue> {
        observed_data_property(self@, name)
    }

    fn id(&self) -> (r: Option<&str>) {
        Some(self.id.as_str())
    }

    fn type_(&self) -> (r: Option<&str>) {
        Some(self.type_.as_str())
    }

    fn property(&self, name: &str) -> (r: Option<StixValue>) {
        self.property_value(name)
    }
}

} // verus!
