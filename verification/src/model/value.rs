//! `StixValue`: a uniform, JSON-shaped property value the matcher can walk.

use vstd::prelude::*;

use crate::binary64::{binary64_of_i64, binary64_of_int};
use crate::text::{chars_less, lemma_chars_less_irreflexive, str_eq};

verus! {

/// A dynamic STIX property value.
///
/// STIX timestamps, hex and binary are carried as [`StixValue::String`].
/// Integers and floats are kept distinct so numeric comparisons behave
/// correctly; a float is carried as the bits of its IEEE-754 binary64 value.
/// An object is a list of `(key, value)` entries; a key is looked up by its
/// first entry. A value read from JSON is well formed (see [`value_wf`]): each
/// object has every key once, in increasing order, so that first entry is the
/// only one.
#[derive(Debug, PartialEq)]
pub enum StixValue {
    Null,
    Bool(bool),
    Integer(i64),
    Float(u64),
    String(String),
    List(Vec<StixValue>),
    Object(Vec<(String, StixValue)>),
}

/// The mathematical form of a [`StixValue`].
pub enum SpecValue {
    Null,
    Bool(bool),
    Integer(i64),
    Float(u64),
    String(Seq<char>),
    List(Seq<SpecValue>),
    Object(Seq<(Seq<char>, SpecValue)>),
}

/// The mathematical form of a value.
pub open spec fn value_view(v: StixValue) -> SpecValue
    decreases v,
{
    match v {
        StixValue::Null => SpecValue::Null,
        StixValue::Bool(b) => SpecValue::Bool(b),
        StixValue::Integer(n) => SpecValue::Integer(n),
        StixValue::Float(b) => SpecValue::Float(b),
        StixValue::String(s) => SpecValue::String(s@),
        StixValue::List(items) => SpecValue::List(
            Seq::new(
                items@.len(),
                |i: int|
                    if 0 <= i < items@.len() {
                        value_view(items@[i])
                    } else {
                        SpecValue::Null
                    },
            ),
        ),
        StixValue::Object(entries) => SpecValue::Object(
            Seq::new(
                entries@.len(),
                |i: int|
                    if 0 <= i < entries@.len() {
                        (entries@[i].0@, value_view(entries@[i].1))
                    } else {
                        (Seq::empty(), SpecValue::Null)
                    },
            ),
        ),
    }
}

impl View for StixValue {
    type V = SpecValue;

    open spec fn view(&self) -> SpecValue {
        value_view(*self)
    }
}

/// The value stored under `key` in a list of entries: that of the first entry
/// with this key.
pub open spec fn entries_lookup(entries: Seq<(Seq<char>, SpecValue)>, key: Seq<char>) -> Option<SpecValue>
    decreases entries.len(),
{
    if entries.len() == 0 {
        None
    } else if entries[0].0 == key {
        Some(entries[0].1)
    } else {
        entries_lookup(entries.drop_first(), key)
    }
}

/// Whether the keys of a list of entries come in strictly increasing order,
/// as the entries of a map ordered by key do; so no key occurs twice.
pub open spec fn keys_increasing(entries: Seq<(Seq<char>, SpecValue)>) -> bool {
    forall|i: int, j: int| 0 <= i < j < entries.len() ==> chars_less(#[trigger] entries[i].0, #[trigger] entries[j].0)
}

/// Whether a value is well formed: the entries of every object in it, at any
/// depth, have strictly increasing keys. A JSON object read into a value is
/// well formed, its keys being those of a map ordered by key.
pub open spec fn value_wf(v: SpecValue) -> bool
    decreases v,
{
    match v {
        SpecValue::List(items) => forall|i: int| 0 <= i < items.len() ==> value_wf(#[trigger] items[i]),
        SpecValue::Object(e) => keys_increasing(e) && forall|i: int| 0 <= i < e.len() ==> value_wf(#[trigger] e[i].1),
        _ => true,
    }
}

/// Whether a list of entries is well formed: increasing keys and well-formed
/// values.
pub open spec fn entries_wf(e: Seq<(Seq<char>, SpecValue)>) -> bool {
    keys_increasing(e) && forall|i: int| 0 <= i < e.len() ==> value_wf(#[trigger] e[i].1)
}

/// In entries with increasing keys each key occurs once, so looking up the key
/// of any entry gives that entry's value: the entries behave as a map.
pub proof fn lemma_lookup_increasing(e: Seq<(Seq<char>, SpecValue)>, i: int)
    requires
        keys_increasing(e),
        0 <= i < e.len(),
    ensures
        entries_lookup(e, e[i].0) == Some(e[i].1),
        forall|j: int| 0 <= j < e.len() && j != i ==> #[trigger] e[j].0 != e[i].0,
    decreases i,
{
    assert forall|j: int| 0 <= j < e.len() && j != i implies #[trigger] e[j].0 != e[i].0 by {
        lemma_chars_less_irreflexive(e[i].0);
        if j < i {
            assert(chars_less(e[j].0, e[i].0));
        } else {
            assert(chars_less(e[i].0, e[j].0));
        }
    }
    if i > 0 {
        let rest = e.drop_first();
        assert forall|a: int, b: int| 0 <= a < b < rest.len() implies chars_less(#[trigger] rest[a].0, #[trigger] rest[b].0) by {
            assert(chars_less(e[a + 1].0, e[b + 1].0));
        }
        lemma_lookup_increasing(rest, i - 1);
        assert(e[0].0 != e[i].0);
    }
}

/// A key that a lookup finds belongs to an entry holding the value found.
pub proof fn lemma_lookup_found(e: Seq<(Seq<char>, SpecValue)>, k: Seq<char>)
    requires
        entries_lookup(e, k) is Some,
    ensures
        exists|i: int| 0 <= i < e.len() && #[trigger] e[i] == (k, entries_lookup(e, k)->0),
    decreases e.len(),
{
    if e[0].0 != k {
        lemma_lookup_found(e.drop_first(), k);
        let i = choose|i: int| 0 <= i < e.drop_first().len() && #[trigger] e.drop_first()[i] == (k, entries_lookup(e.drop_first(), k)->0);
        assert(e[i + 1] == (k, entries_lookup(e, k)->0));
    } else {
        assert(e[0] == (k, entries_lookup(e, k)->0));
    }
}

/// What a lookup finds in well-formed entries is a well-formed value.
pub proof fn lemma_lookup_wf(e: Seq<(Seq<char>, SpecValue)>, k: Seq<char>)
    requires
        entries_wf(e),
    ensures
        entries_lookup(e, k) matches Some(v) ==> value_wf(v),
{
    if entries_lookup(e, k) is Some {
        lemma_lookup_found(e, k);
        let i = choose|i: int| 0 <= i < e.len() && #[trigger] e[i] == (k, entries_lookup(e, k)->0);
        assert(value_wf(e[i].1));
    }
}

/// The mathematical form of a list of entries.
pub open spec fn entries_view(entries: Seq<(String, StixValue)>) -> Seq<(Seq<char>, SpecValue)> {
    entries.map_values(|e: (String, StixValue)| (e.0@, e.1@))
}

/// The mathematical form of a list of values.
pub open spec fn values_view(values: Seq<StixValue>) -> Seq<SpecValue> {
    values.map_values(|v: StixValue| v@)
}

/// The mathematical form of an optional value.
pub open spec fn opt_value_view(v: Option<StixValue>) -> Option<SpecValue> {
    match v {
        Some(x) => Some(x@),
        None => None,
    }
}

/// The mathematical form of an optional string slice.
pub open spec fn opt_str_view(s: Option<&str>) -> Option<Seq<char>> {
    match s {
        Some(x) => Some(x@),
        None => None,
    }
}

/// The view of an object value is the view of its entries.
pub proof fn lemma_object_view(entries: Vec<(String, StixValue)>)
    ensures
        StixValue::Object(entries)@ == SpecValue::Object(entries_view(entries@)),
{
    assert(StixValue::Object(entries)@->Object_0 =~= entries_view(entries@));
}

/// The view of a list value is the view of its items.
pub proof fn lemma_list_view(items: Vec<StixValue>)
    ensures
        StixValue::List(items)@ == SpecValue::List(values_view(items@)),
{
    assert(StixValue::List(items)@->List_0 =~= values_view(items@));
}

/// The number a value denotes as a binary64 bit pattern: a float's own bits,
/// or the binary64 value nearest to an integer.
pub open spec fn spec_as_f64(v: SpecValue) -> Option<u64> {
    match v {
        SpecValue::Float(b) => Some(b),
        SpecValue::Integer(n) => Some(binary64_of_int(n as int)),
        _ => None,
    }
}

impl StixValue {
    /// The string, for a string value.
    pub fn as_str(&self) -> (r: Option<&str>)
        ensures
            opt_str_view(r) == (match self@ {
                SpecValue::String(s) => Some(s),
                _ => None,
            }),
    {
        match self {
            StixValue::String(s) => Some(s.as_str()),
            _ => None,
        }
    }

    /// The integer, for an integer value.
    pub fn as_i64(&self) -> (r: Option<i64>)
        ensures
            r == (match self@ {
                SpecValue::Integer(n) => Some(n),
                _ => None,
            }),
    {
        match self {
            StixValue::Integer(n) => Some(*n),
            _ => None,
        }
    }

    /// The value as a binary64 number (its bit pattern), promoting integers to
    /// the nearest binary64 value.
    pub fn as_f64(&self) -> (r: Option<u64>)
        ensures
            r == spec_as_f64(self@),
    {
        match self {
            StixValue::Float(b) => Some(*b),
            StixValue::Integer(n) => Some(binary64_of_i64(*n)),
            _ => None,
        }
    }

    /// The boolean, for a boolean value.
    pub fn as_bool(&self) -> (r: Option<bool>)
        ensures
            r == (match self@ {
                SpecValue::Bool(b) => Some(b),
                _ => None,
            }),
    {
        match self {
            StixValue::Bool(b) => Some(*b),
            _ => None,
        }
    }

    /// The items, for a list value.
    pub fn as_list(&self) -> (r: Option<&[StixValue]>)
        ensures
            (match r {
                Some(items) => self@ == SpecValue::List(values_view(items@)),
                None => !(self@ is List),
            }),
    {
        match self {
            StixValue::List(items) => {
                proof { assert(values_view(items@) =~= self@->List_0); }
                Some(items.as_slice())
            },
            _ => None,
        }
    }

    /// The entries, for an object value.
    pub fn as_object(&self) -> (r: Option<&Vec<(String, StixValue)>>)
        ensures
            (match r {
                Some(entries) => self@ == SpecValue::Object(entries_view(entries@)),
                None => !(self@ is Object),
            }),
    {
        match self {
            StixValue::Object(entries) => {
                proof { assert(entries_view(entries@) =~= self@->Object_0); }
                Some(entries)
            },
            _ => None,
        }
    }

    /// Whether this is the null value.
    pub fn is_null(&self) -> (r: bool)
        ensures
            r == (self@ is Null),
    {
        match self {
            StixValue::Null => true,
            _ => false,
        }
    }

    /// A copy of this value.
    pub fn deep_copy(&self) -> (r: StixValue)
        ensures
            r@ == self@,
        decreases self,
    {
        match self {
            StixValue::Null => StixValue::Null,
            StixValue::Bool(b) => StixValue::Bool(*b),
            StixValue::Integer(n) => StixValue::Integer(*n),
            StixValue::Float(b) => StixValue::Float(*b),
            StixValue::String(s) => StixValue::String(s.clone()),
            StixValue::List(items) => {
                let mut out: Vec<StixValue> = Vec::new();
                let mut i: usize = 0;
                while i < items.len()
                    invariant
                        0 <= i <= items@.len(),
                        out@.len() == i,
                        forall|j: int| 0 <= j < i ==> (#[trigger] out@[j])@ == items@[j]@,
                        *self == StixValue::List(*items),
                    decreases items@.len() - i,
                {
                    proof {
                        assert(decreases_to!(*self => self->List_0));
                        assert(decreases_to!(*items => items@));
                        assert(decreases_to!(items@ => items@[i as int]));
                    }
                    let c = items[i].deep_copy();
                    out.push(c);
                    i = i + 1;
                }
                let r = StixValue::List(out);
                proof { assert(r@->List_0 =~= self@->List_0); }
                r
            },
            StixValue::Object(entries) => {
                let mut out: Vec<(String, StixValue)> = Vec::new();
                let mut i: usize = 0;
                while i < entries.len()
                    invariant
                        0 <= i <= entries@.len(),
                        out@.len() == i,
                        forall|j: int| 0 <= j < i ==> (#[trigger] out@[j]).0@ == entries@[j].0@ && out@[j].1@ == entries@[j].1@,
                        *self == StixValue::Object(*entries),
                    decreases entries@.len() - i,
                {
                    let k = entries[i].0.clone();
                    proof {
                        assert(decreases_to!(*self => self->Object_0));
                        assert(decreases_to!(*entries => entries@));
                        assert(decreases_to!(entries@ => entries@[i as int]));
                        assert(decreases_to!(entries@[i as int] => entries@[i as int].1));
                    }
                    let c = entries[i].1.deep_copy();
                    out.push((k, c));
                    i = i + 1;
                }
                let r = StixValue::Object(out);
                proof { assert(r@->Object_0 =~= self@->Object_0); }
                r
            },
        }
    }
}

/// A copy of a list of entries.
pub fn copy_entries(entries: &Vec<(String, StixValue)>) -> (r: Vec<(String, StixValue)>)
    ensures
        entries_view(r@) == entries_view(entries@),
{
    let mut out: Vec<(String, StixValue)> = Vec::new();
    let mut i: usize = 0;
    while i < entries.len()
        invariant
            0 <= i <= entries@.len(),
            out@.len() == i,
            forall|j: int| 0 <= j < i ==> (#[trigger] out@[j]).0@ == entries@[j].0@ && out@[j].1@ == entries@[j].1@,
        decreases entries@.len() - i,
    {
        let k = entries[i].0.clone();
        let c = entries[i].1.deep_copy();
        out.push((k, c));
        i = i + 1;
    }
    assert(entries_view(out@) =~= entries_view(entries@));
    out
}

/// The value stored under `key` in a list of entries (that of the first entry
/// with this key), as a reference.
pub fn lookup<'a>(entries: &'a Vec<(String, StixValue)>, key: &str) -> (r: Option<&'a StixValue>)
    ensures
        (match r {
            Some(v) => entries_lookup(entries_view(entries@), key@) == Some(v@),
            None => entries_lookup(entries_view(entries@), key@) is None,
        }),
{
    let mut i: usize = 0;
    assert(entries_view(entries@).subrange(0, entries@.len() as int) =~= entries_view(entries@));
    while i < entries.len()
        invariant
            0 <= i <= entries@.len(),
            entries_lookup(entries_view(entries@), key@) == entries_lookup(entries_view(entries@).subrange(i as int, entries@.len() as int), key@),
        decreases entries@.len() - i,
    {
        let ghost rest = entries_view(entries@).subrange(i as int, entries@.len() as int);
        assert(rest.drop_first() =~= entries_view(entries@).subrange(i + 1, entries@.len() as int));
        if str_eq(entries[i].0.as_str(), key) {
            return Some(&entries[i].1);
        }
        i = i + 1;
    }
    None
}

} // verus!
