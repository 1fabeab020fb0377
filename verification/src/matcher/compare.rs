//! Scalar comparison between a resolved value and a pattern literal.

use std::cmp::Ordering;

use vstd::prelude::*;

use crate::binary64::{
    binary64_eq, binary64_equal, binary64_is_nan, binary64_less, binary64_lt, binary64_of_i64,
    binary64_of_int, is_nan,
};
use crate::model::value::{spec_as_f64, SpecValue, StixValue};
use crate::pattern::ast::{Literal, LiteralOf, SpecLiteral};
use crate::text::{chars_less, lemma_chars_less_irreflexive, str_eq, str_less};

verus! {

/// The text of a string-like literal (string, timestamp, binary, hex).
pub open spec fn literal_text(l: SpecLiteral) -> Option<Seq<char>> {
    match l {
        LiteralOf::String(s) => Some(s),
        LiteralOf::Timestamp(s) => Some(s),
        LiteralOf::Binary(s) => Some(s),
        LiteralOf::Hex(s) => Some(s),
        _ => None,
    }
}

/// The binary64 number of a numeric literal (an integer is taken to the
/// nearest binary64 value).
pub open spec fn literal_number(l: SpecLiteral) -> Option<u64> {
    match l {
        LiteralOf::Integer(n) => Some(binary64_of_int(n as int)),
        LiteralOf::Float(b) => Some(b),
        _ => None,
    }
}

/// The text of a string value.
pub open spec fn value_text(v: SpecValue) -> Option<Seq<char>> {
    match v {
        SpecValue::String(s) => Some(s),
        _ => None,
    }
}

/// Equality of a value and a literal: booleans with booleans, strings with
/// string-like literals, numbers with numbers as binary64 values (IEEE
/// equality).
pub open spec fn value_equals_literal(v: SpecValue, l: SpecLiteral) -> bool {
    match (v, l) {
        (SpecValue::Bool(b), LiteralOf::Boolean(c)) => b == c,
        _ => match (value_text(v), literal_text(l)) {
            (Some(x), Some(y)) => x == y,
            _ => match (spec_as_f64(v), literal_number(l)) {
                (Some(x), Some(y)) => binary64_eq(x, y),
                _ => false,
            },
        },
    }
}

/// The IEEE-754 order of two binary64 values, `None` when either is a NaN.
pub open spec fn binary64_order(a: u64, b: u64) -> Option<Ordering> {
    if is_nan(a) || is_nan(b) {
        None
    } else if binary64_lt(a, b) {
        Some(Ordering::Less)
    } else if binary64_eq(a, b) {
        Some(Ordering::Equal)
    } else {
        Some(Ordering::Greater)
    }
}

/// The order of two strings.
pub open spec fn text_order(a: Seq<char>, b: Seq<char>) -> Ordering {
    if chars_less(a, b) {
        Ordering::Less
    } else if a == b {
        Ordering::Equal
    } else {
        Ordering::Greater
    }
}

/// The order of a value and a literal: numerically when both are numbers,
/// else by text when both are strings, else none.
pub open spec fn value_order_literal(v: SpecValue, l: SpecLiteral) -> Option<Ordering> {
    match (spec_as_f64(v), literal_number(l)) {
        (Some(x), Some(y)) => binary64_order(x, y),
        _ => match (value_text(v), literal_text(l)) {
            (Some(x), Some(y)) => Some(text_order(x, y)),
            _ => None,
        },
    }
}

/// Whether a value equals some member of a set of literals.
pub open spec fn value_in_literals(v: SpecValue, set: Seq<SpecLiteral>) -> bool {
    exists|i: int| 0 <= i < set.len() && value_equals_literal(v, #[trigger] set[i])
}

/// The text of a string-like literal.
fn literal_str(lit: &Literal) -> (r: Option<&str>)
    ensures
        crate::model::value::opt_str_view(r) == literal_text(lit@),
{
    match lit {
        LiteralOf::String(s) => Some(s.as_str()),
        LiteralOf::Timestamp(s) => Some(s.as_str()),
        LiteralOf::Binary(s) => Some(s.as_str()),
        LiteralOf::Hex(s) => Some(s.as_str()),
        _ => None,
    }
}

/// The binary64 number of a numeric literal.
fn literal_f64(lit: &Literal) -> (r: Option<u64>)
    ensures
        r == literal_number(lit@),
{
    match lit {
        LiteralOf::Integer(n) => Some(binary64_of_i64(*n)),
        LiteralOf::Float(b) => Some(*b),
        _ => None,
    }
}

/// Equality between a value and a literal (see [`value_equals_literal`]).
pub fn value_eq_literal(value: &StixValue, lit: &Literal) -> (r: bool)
    ensures
        r == value_equals_literal(value@, lit@),
{
    match (value, lit) {
        (StixValue::Bool(b), LiteralOf::Boolean(l)) => *b == *l,
        _ => {
            match (value.as_str(), literal_str(lit)) {
                (Some(v), Some(l)) => {
                    return str_eq(v, l);
                },
                _ => {},
            }
            match (value.as_f64(), literal_f64(lit)) {
                (Some(v), Some(l)) => binary64_equal(v, l),
                _ => false,
            }
        },
    }
}

/// Ordering between a value and a literal, or `None` where the two are not
/// comparable (see [`value_order_literal`]).
pub fn value_cmp_literal(value: &StixValue, lit: &Literal) -> (r: Option<Ordering>)
    ensures
        r == value_order_literal(value@, lit@),
{
    match (value.as_f64(), literal_f64(lit)) {
        (Some(v), Some(l)) => {
            if binary64_is_nan(v) || binary64_is_nan(l) {
                return None;
            } else if binary64_less(v, l) {
                return Some(Ordering::Less);
            } else if binary64_equal(v, l) {
                return Some(Ordering::Equal);
            } else {
                return Some(Ordering::Greater);
            }
        },
        _ => {},
    }
    match (value.as_str(), literal_str(lit)) {
        (Some(v), Some(l)) => {
            if str_less(v, l) {
                Some(Ordering::Less)
            } else if str_eq(v, l) {
                Some(Ordering::Equal)
            } else {
                Some(Ordering::Greater)
            }
        },
        _ => None,
    }
}

/// Whether a value equals any member of a set literal (`IN`).
pub fn value_in_set(value: &StixValue, set: &[Literal]) -> (r: bool)
    ensures
        r == value_in_literals(value@, set@.map_values(|l: Literal| l@)),
{
    let ghost sv = set@.map_values(|l: Literal| l@);
    let mut i: usize = 0;
    while i < set.len()
        invariant
            0 <= i <= set@.len(),
            sv == set@.map_values(|l: Literal| l@),
            forall|j: int| 0 <= j < i ==> !value_equals_literal(value@, #[trigger] sv[j]),
        decreases set@.len() - i,
    {
        if value_eq_literal(value, &set[i]) {
            assert(value_equals_literal(value@, sv[i as int]));
            return true;
        }
        i = i + 1;
    }
    false
}

/// Order and equality agree: a value and a literal that order as equal are
/// equal, and equal ones (other than booleans, which have no order) order as
/// equal. In particular a NaN neither equals nor orders against anything.
pub proof fn order_agrees_with_equality(v: SpecValue, l: SpecLiteral)
    ensures
        value_order_literal(v, l) == Some(Ordering::Equal) ==> value_equals_literal(v, l),
        value_equals_literal(v, l) && !(v is Bool) ==> value_order_literal(v, l) == Some(Ordering::Equal),
{
    match value_text(v) {
        Some(x) => lemma_chars_less_irreflexive(x),
        None => {},
    }
}

/// Equality between a value and a literal of the same kind is equality of
/// their contents: a boolean equals the boolean literal of the same truth
/// value and no other, and a string equals a string-like literal (string,
/// timestamp, binary, hex) exactly when their texts are the same. Values of
/// unlike kinds are never equal: a boolean equals no string or number literal,
/// a string no boolean or number literal, a number no boolean or string
/// literal, and null and lists and objects nothing.
pub proof fn equality_laws(v: SpecValue, l: SpecLiteral, b: bool, c: bool, s: Seq<char>, t: Seq<char>)
    ensures
        value_equals_literal(SpecValue::Bool(b), LiteralOf::Boolean(c)) == (b == c),
        value_equals_literal(SpecValue::String(s), LiteralOf::String(t)) == (s == t),
        value_equals_literal(SpecValue::String(s), LiteralOf::Timestamp(t)) == (s == t),
        value_equals_literal(SpecValue::String(s), LiteralOf::Binary(t)) == (s == t),
        value_equals_literal(SpecValue::String(s), LiteralOf::Hex(t)) == (s == t),
        (v is Bool) != (l is Boolean) ==> !value_equals_literal(v, l),
        v is String && !(literal_text(l) is Some) ==> !value_equals_literal(v, l),
        (v is Integer || v is Float) && !(l is Integer || l is Float) ==> !value_equals_literal(v, l),
        (v is Null || v is List || v is Object) ==> !value_equals_literal(v, l),
{
}

} // verus!
