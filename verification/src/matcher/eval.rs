//! Evaluation: leaf comparisons, comparison expressions, and observation
//! expressions.

use std::cmp::Ordering;

use vstd::prelude::*;
use vstd::string::StringExecFns;

use crate::matcher::compare::{
    literal_text, value_cmp_literal, value_eq_literal, value_equals_literal, value_in_literals,
    value_in_set, value_order_literal, value_text,
};
use crate::matcher::error::MatchError;
use crate::matcher::observation::Observation;
use crate::matcher::result::MatchResult;
use crate::matcher::pattern_ops::{like_matches, like_regex, regex_compiles, regex_finds, regex_matches};
use crate::matcher::resolve::{resolve_path, resolve_values, store_view};
use crate::matcher::subset::{is_subset, is_superset, subset_of};
use crate::model::object::{object_type, StixObject};
use crate::model::sdo::strings_view;
use crate::model::store::{objects_view, ObjectStore};
use crate::model::value::{values_view, SpecValue, StixValue};
use crate::model::view::ObjectView;
use crate::pattern::ast::{
    Comparison, ComparisonExpression, ComparisonOperand, ComparisonOperator, Literal, LiteralOf,
    ObservationExpression, Pattern, SpecComparison, SpecComparisonExpression, SpecComparisonOperand,
    SpecLiteral, SpecObservationExpression,
};
use crate::model::object::SpecObject;
use crate::text::str_eq;
use crate::pattern::lexer::SpecTokenKind;
use crate::pattern::parser::operator_of;

verus! {

// ---------------------------------------------------------------------------
// Leaf comparisons

/// Whether a string operator (`LIKE`, `MATCHES`, `ISSUBSET`, `ISSUPERSET`)
/// holds between a value and a literal; both must be strings.
pub open spec fn string_operator_holds(v: SpecValue, l: SpecLiteral, op: ComparisonOperator) -> bool {
    match (value_text(v), literal_text(l)) {
        (Some(x), Some(y)) => match op {
            ComparisonOperator::Like => regex_compiles(like_regex(y)) && regex_finds(like_regex(y), x),
            ComparisonOperator::Matches => regex_compiles(y) && regex_finds(y, x),
            ComparisonOperator::IsSubset => subset_of(x, y),
            ComparisonOperator::IsSuperset => subset_of(y, x),
            _ => false,
        },
        _ => false,
    }
}

/// Whether one resolved value satisfies an operator (other than `EXISTS`) and
/// its operand. Only `IN` takes a set; any other operator with a set never
/// holds.
pub open spec fn operator_holds_for(v: SpecValue, op: ComparisonOperator, operand: SpecComparisonOperand) -> bool {
    if op == ComparisonOperator::In {
        match operand {
            SpecComparisonOperand::SetLiteral(set) => value_in_literals(v, set),
            SpecComparisonOperand::Literal(l) => value_in_literals(v, seq![l]),
        }
    } else {
        match operand {
            SpecComparisonOperand::SetLiteral(_) => false,
            SpecComparisonOperand::Literal(l) => match op {
                ComparisonOperator::Equal => value_equals_literal(v, l),
                ComparisonOperator::NotEqual => !value_equals_literal(v, l),
                ComparisonOperator::GreaterThan => value_order_literal(v, l) == Some(Ordering::Greater),
                ComparisonOperator::GreaterThanOrEqual => value_order_literal(v, l) == Some(Ordering::Greater)
                    || value_order_literal(v, l) == Some(Ordering::Equal),
                ComparisonOperator::LessThan => value_order_literal(v, l) == Some(Ordering::Less),
                ComparisonOperator::LessThanOrEqual => value_order_literal(v, l) == Some(Ordering::Less)
                    || value_order_literal(v, l) == Some(Ordering::Equal),
                ComparisonOperator::Like => string_operator_holds(v, l, op),
                ComparisonOperator::Matches => string_operator_holds(v, l, op),
                ComparisonOperator::IsSubset => string_operator_holds(v, l, op),
                ComparisonOperator::IsSuperset => string_operator_holds(v, l, op),
                _ => false,
            },
        }
    }
}

/// Whether a comparison holds on an object: `EXISTS` when the path selects
/// some value, any other operator when some selected value satisfies it; then
/// inverted when the comparison is negated.
pub open spec fn comparison_holds(obj: SpecObject, c: SpecComparison, store: Option<Seq<(Seq<char>, SpecObject)>>) -> bool {
    let values = resolve_values(obj, c.path, store);
    let base = if c.operator == ComparisonOperator::Exists {
        values.len() > 0
    } else {
        exists|i: int| 0 <= i < values.len() && operator_holds_for(#[trigger] values[i], c.operator, c.value)
    };
    base != c.negated
}

/// Apply a string operator, requiring both sides to be strings.
fn string_op(value: &StixValue, lit: &Literal, op: ComparisonOperator) -> (r: bool)
    ensures
        r == string_operator_holds(value@, lit@, op),
{
    let v = match value.as_str() {
        Some(s) => s,
        None => return false,
    };
    let l = match lit {
        LiteralOf::String(s) => s.as_str(),
        LiteralOf::Timestamp(s) => s.as_str(),
        LiteralOf::Binary(s) => s.as_str(),
        LiteralOf::Hex(s) => s.as_str(),
        _ => return false,
    };
    match op {
        ComparisonOperator::Like => like_matches(v, l),
        ComparisonOperator::Matches => regex_matches(v, l),
        ComparisonOperator::IsSubset => is_subset(v, l),
        ComparisonOperator::IsSuperset => is_superset(v, l),
        _ => false,
    }
}

/// Whether a single resolved value satisfies a (non-`EXISTS`) operator and
/// operand (see [`operator_holds_for`]).
fn operator_holds(value: &StixValue, op: ComparisonOperator, operand: &ComparisonOperand) -> (r: bool)
    ensures
        r == operator_holds_for(value@, op, operand@),
{
    if op == ComparisonOperator::In {
        return match operand {
            ComparisonOperand::SetLiteral(set) => value_in_set(value, set.as_slice()),
            ComparisonOperand::Literal(lit) => {
                let r = value_eq_literal(value, lit);
                proof {
                    let one = seq![lit@];
                    if r {
                        assert(value_equals_literal(value@, one[0]));
                    }
                }
                r
            },
        };
    }
    let lit = match operand {
        ComparisonOperand::Literal(l) => l,
        ComparisonOperand::SetLiteral(_) => return false,
    };
    match op {
        ComparisonOperator::Equal => value_eq_literal(value, lit),
        ComparisonOperator::NotEqual => !value_eq_literal(value, lit),
        ComparisonOperator::GreaterThan => match value_cmp_literal(value, lit) {
            Some(Ordering::Greater) => true,
            _ => false,
        },
        ComparisonOperator::GreaterThanOrEqual => match value_cmp_literal(value, lit) {
            Some(Ordering::Greater) => true,
            Some(Ordering::Equal) => true,
            _ => false,
        },
        ComparisonOperator::LessThan => match value_cmp_literal(value, lit) {
            Some(Ordering::Less) => true,
            _ => false,
        },
        ComparisonOperator::LessThanOrEqual => match value_cmp_literal(value, lit) {
            Some(Ordering::Less) => true,
            Some(Ordering::Equal) => true,
            _ => false,
        },
        ComparisonOperator::Like => string_op(value, lit, op),
        ComparisonOperator::Matches => string_op(value, lit, op),
        ComparisonOperator::IsSubset => string_op(value, lit, op),
        ComparisonOperator::IsSuperset => string_op(value, lit, op),
        _ => false,
    }
}

/// Evaluate a single comparison against a single object, dereferencing
/// through `store` where the path requires it, honouring the comparison's
/// negation (see [`comparison_holds`]).
pub fn eval_comparison(obj: &StixObject, c: &Comparison, store: Option<&ObjectStore>) -> (r: bool)
    ensures
        r == comparison_holds(obj@, c@, store_view(store)),
{
    let values = resolve_path(obj, &c.path, store);
    let ghost vv = values_view(values@);
    let base = if c.operator == ComparisonOperator::Exists {
        values.len() > 0
    } else {
        let mut any = false;
        let mut i: usize = 0;
        while i < values.len()
            invariant
                0 <= i <= values@.len(),
                vv == values_view(values@),
                any == exists|j: int| 0 <= j < i && operator_holds_for(#[trigger] vv[j], c.operator, c.value@),
            decreases values@.len() - i,
        {
            if operator_holds(&values[i], c.operator, &c.value) {
                any = true;
            }
            assert(vv[i as int] == values@[i as int]@);
            i = i + 1;
        }
        any
    };
    base != c.negated
}

// ---------------------------------------------------------------------------
// Comparison expressions: one object per referenced type

/// The distinct object types referenced by an expression's leaves, added to
/// `acc` in the order of first reference.
pub open spec fn add_types(acc: Seq<Seq<char>>, e: SpecComparisonExpression) -> Seq<Seq<char>>
    decreases e,
{
    match e {
        SpecComparisonExpression::Test(c) => if acc.contains(c.path.object_type) {
            acc
        } else {
            acc.push(c.path.object_type)
        },
        SpecComparisonExpression::And(a, b) => add_types(add_types(acc, *a), *b),
        SpecComparisonExpression::Or(a, b) => add_types(add_types(acc, *a), *b),
    }
}

/// The distinct object types an expression references, in order of first
/// reference.
pub open spec fn expression_types(e: SpecComparisonExpression) -> Seq<Seq<char>> {
    add_types(Seq::empty(), e)
}

/// The position of the first `t` in `types` at or after `k`.
pub open spec fn type_slot(types: Seq<Seq<char>>, t: Seq<char>, k: int) -> Option<int>
    decreases types.len() - k,
{
    if k < 0 || k >= types.len() {
        None
    } else if types[k] == t {
        Some(k)
    } else {
        type_slot(types, t, k + 1)
    }
}

/// Whether an expression holds when each type `types[k]` is bound to the
/// object `objs[b[k]]` (or to none): a leaf holds on the object bound to its
/// path's type, and never when that type is unbound.
pub open spec fn tree_holds(
    e: SpecComparisonExpression,
    objs: Seq<SpecObject>,
    types: Seq<Seq<char>>,
    b: Seq<Option<int>>,
    store: Option<Seq<(Seq<char>, SpecObject)>>,
) -> bool
    decreases e,
{
    match e {
        SpecComparisonExpression::Test(c) => match type_slot(types, c.path.object_type, 0) {
            Some(k) => match b[k] {
                Some(i) => comparison_holds(objs[i], c, store),
                None => false,
            },
            None => false,
        },
        SpecComparisonExpression::And(x, y) => tree_holds(*x, objs, types, b, store) && tree_holds(*y, objs, types, b, store),
        SpecComparisonExpression::Or(x, y) => tree_holds(*x, objs, types, b, store) || tree_holds(*y, objs, types, b, store),
    }
}

/// Whether the choice `o` for type `t` is allowed: an object of that type, or
/// none exactly when the observation has no object of that type.
pub open spec fn choice_ok(objs: Seq<SpecObject>, t: Seq<char>, o: Option<int>) -> bool {
    match o {
        Some(i) => 0 <= i < objs.len() && object_type(objs[i]) == Some(t),
        None => !(exists|i: int| 0 <= i < objs.len() && object_type(#[trigger] objs[i]) == Some(t)),
    }
}

/// Whether `b` binds every type to an allowed choice.
pub open spec fn valid_binding(objs: Seq<SpecObject>, types: Seq<Seq<char>>, b: Seq<Option<int>>) -> bool {
    b.len() == types.len() && forall|k: int| 0 <= k < types.len() ==> #[trigger] choice_ok(objs, types[k], b[k])
}

/// Whether `b` agrees with `base` below position `idx`.
pub open spec fn extends(b: Seq<Option<int>>, base: Seq<Option<int>>, idx: int) -> bool {
    b.len() == base.len() && forall|k: int| 0 <= k < idx ==> #[trigger] b[k] == base[k]
}

/// Whether a comparison expression matches an observation's objects: some
/// binding of each referenced type to one object of that type (or to none when
/// there is no such object) makes it hold. So the tests of an `AND` on one
/// type are all met by the same object.
pub open spec fn expression_matches(e: SpecComparisonExpression, objs: Seq<SpecObject>, store: Option<Seq<(Seq<char>, SpecObject)>>) -> bool {
    exists|b: Seq<Option<int>>| valid_binding(objs, expression_types(e), b) && tree_holds(e, objs, expression_types(e), b, store)
}

/// The mathematical form of a binding.
pub open spec fn binding_view(b: Seq<Option<usize>>) -> Seq<Option<int>> {
    b.map_values(|o: Option<usize>| match o {
        Some(i) => Some(i as int),
        None => None,
    })
}

/// Whether `cs` lists exactly the objects of type `t`.
pub open spec fn candidates_ok(objs: Seq<SpecObject>, t: Seq<char>, cs: Seq<usize>) -> bool {
    &&& forall|j: int| 0 <= j < cs.len() ==> (#[trigger] cs[j]) < objs.len() && object_type(objs[cs[j] as int]) == Some(t)
    &&& forall|i: int| 0 <= i < objs.len() && object_type(#[trigger] objs[i]) == Some(t) ==> cs.contains(i as usize)
}

/// Collect the distinct object types referenced by an expression's leaves
/// (see [`add_types`]).
fn collect_types(expr: &ComparisonExpression, out: &mut Vec<String>)
    ensures
        strings_view(final(out)@) == add_types(strings_view(old(out)@), expr@),
    decreases expr,
{
    match expr {
        ComparisonExpression::Test(c) => {
            let ghost acc = strings_view(out@);
            let mut i: usize = 0;
            let mut present = false;
            while i < out.len()
                invariant
                    0 <= i <= out@.len(),
                    acc == strings_view(out@),
                    present == exists|j: int| 0 <= j < i && #[trigger] acc[j] == c.path.object_type@,
                decreases out@.len() - i,
            {
                if str_eq(out[i].as_str(), c.path.object_type.as_str()) {
                    present = true;
                }
                assert(acc[i as int] == out@[i as int]@);
                i = i + 1;
            }
            proof {
                if acc.contains(c.path.object_type@) {
                    let j = choose|j: int| 0 <= j < acc.len() && acc[j] == c.path.object_type@;
                    assert(acc[j] == c.path.object_type@);
                }
            }
            if !present {
                out.push(c.path.object_type.clone());
                assert(strings_view(out@) =~= acc.push(c.path.object_type@));
            }
        },
        ComparisonExpression::And(a, b) => {
            collect_types(a, out);
            collect_types(b, out);
        },
        ComparisonExpression::Or(a, b) => {
            collect_types(a, out);
            collect_types(b, out);
        },
    }
}

/// Evaluate the expression tree under a fixed binding (see [`tree_holds`]).
fn eval_tree(
    expr: &ComparisonExpression,
    observation: &Observation,
    types: &Vec<String>,
    binding: &Vec<Option<usize>>,
    store: Option<&ObjectStore>,
) -> (r: bool)
    requires
        binding@.len() == types@.len(),
        forall|k: int| 0 <= k < binding@.len() ==> (#[trigger] binding@[k] matches Some(i) ==> i < objects_view(observation.objects@).len()),
    ensures
        r == tree_holds(expr@, objects_view(observation.objects@), strings_view(types@), binding_view(binding@), store_view(store)),
    decreases expr,
{
    match expr {
        ComparisonExpression::Test(c) => {
            let ghost tv = strings_view(types@);
            let ghost t = c.path.object_type@;
            let mut k: usize = 0;
            while k < types.len() && !str_eq(types[k].as_str(), c.path.object_type.as_str())
                invariant
                    0 <= k <= types@.len(),
                    tv == strings_view(types@),
                    t == c.path.object_type@,
                    type_slot(tv, t, 0) == type_slot(tv, t, k as int),
                decreases types@.len() - k,
            {
                assert(tv[k as int] == types@[k as int]@);
                k = k + 1;
            }
            if k == types.len() {
                return false;
            }
            assert(tv[k as int] == types@[k as int]@);
            assert(binding_view(binding@)[k as int] == match binding@[k as int] { Some(i) => Some(i as int), None => None::<int> });
            match binding[k] {
                Some(i) => eval_comparison(&observation.objects[i], c, store),
                None => false,
            }
        },
        ComparisonExpression::And(a, b) => {
            eval_tree(a, observation, types, binding, store) && eval_tree(b, observation, types, binding, store)
        },
        ComparisonExpression::Or(a, b) => {
            eval_tree(a, observation, types, binding, store) || eval_tree(b, observation, types, binding, store)
        },
    }
}

/// Whether `o` is an allowed pick from the candidate list `cs`: one of its
/// entries, or none exactly when the list is empty.
pub open spec fn pick_ok(cs: Seq<usize>, o: Option<int>) -> bool {
    match o {
        Some(i) => exists|j: int| 0 <= j < cs.len() && #[trigger] cs[j] as int == i,
        None => cs.len() == 0,
    }
}

/// Whether some binding that agrees with `base` below `idx`, and from `idx`
/// on picks from each position's candidate list (see [`pick_ok`]), makes the
/// expression hold.
pub open spec fn some_pick_holds(
    e: SpecComparisonExpression,
    objs: Seq<SpecObject>,
    types: Seq<Seq<char>>,
    cands: Seq<Seq<usize>>,
    base: Seq<Option<int>>,
    idx: int,
    store: Option<Seq<(Seq<char>, SpecObject)>>,
) -> bool {
    exists|b: Seq<Option<int>>|
        extends(b, base, idx) && (forall|k: int| idx <= k < cands.len() ==> #[trigger] pick_ok(cands[k], b[k]))
            && tree_holds(e, objs, types, b, store)
}

/// The candidate lists as sequences.
pub open spec fn candidates_view(c: Seq<Vec<usize>>) -> Seq<Seq<usize>> {
    c.map_values(|v: Vec<usize>| v@)
}

/// Try every assignment of one candidate object per type from position `idx`
/// on, returning `true` as soon as one makes the expression hold. A type with
/// no candidate stays unbound (its leaves are false). The binding is restored
/// before returning.
fn enumerate_bindings(
    types: &Vec<String>,
    candidates: &Vec<Vec<usize>>,
    idx: usize,
    binding: &mut Vec<Option<usize>>,
    expr: &ComparisonExpression,
    observation: &Observation,
    store: Option<&ObjectStore>,
) -> (r: bool)
    requires
        types@.len() == candidates@.len(),
        old(binding)@.len() == types@.len(),
        idx <= types@.len(),
        forall|k: int, j: int| 0 <= k < candidates@.len() && 0 <= j < candidates@[k]@.len() ==> #[trigger] candidates@[k]@[j]
            < observation.objects@.len(),
        forall|k: int| 0 <= k < idx ==> (#[trigger] old(binding)@[k] matches Some(i) ==> i < observation.objects@.len()),
        forall|k: int| idx <= k < types@.len() ==> #[trigger] old(binding)@[k] is None,
    ensures
        final(binding)@ == old(binding)@,
        r == some_pick_holds(
            expr@,
            objects_view(observation.objects@),
            strings_view(types@),
            candidates_view(candidates@),
            binding_view(old(binding)@),
            idx as int,
            store_view(store),
        ),
    decreases types@.len() - idx,
{
    let n_types = types.len();
    let ghost objs = objects_view(observation.objects@);
    let ghost tv = strings_view(types@);
    let ghost cv = candidates_view(candidates@);
    let ghost e = expr@;
    let ghost st = store_view(store);
    let ghost base = binding_view(binding@);
    assert forall|k: int| 0 <= k < cv.len() implies #[trigger] cv[k] == candidates@[k]@ by {}
    if idx == types.len() {
        proof {
            assert forall|k: int| 0 <= k < binding@.len() implies (#[trigger] binding@[k] matches Some(i) ==> i
                < objs.len()) by {}
        }
        let r = eval_tree(expr, observation, types, binding, store);
        proof {
            if r {
                assert(extends(base, base, idx as int));
            }
            if some_pick_holds(e, objs, tv, cv, base, idx as int, st) {
                let b = choose|b: Seq<Option<int>>|
                    extends(b, base, idx as int) && (forall|k: int| idx <= k < cv.len() ==> #[trigger] pick_ok(cv[k], b[k]))
                        && tree_holds(e, objs, tv, b, st);
                assert(b =~= base);
            }
        }
        return r;
    }
    if candidates[idx].len() == 0 {
        let r = enumerate_bindings(types, candidates, idx + 1, binding, expr, observation, store);
        proof {
            assert(base[idx as int] is None);
            if some_pick_holds(e, objs, tv, cv, base, idx + 1, st) {
                let b = choose|b: Seq<Option<int>>|
                    extends(b, base, idx + 1) && (forall|k: int| idx + 1 <= k < cv.len() ==> #[trigger] pick_ok(cv[k], b[k]))
                        && tree_holds(e, objs, tv, b, st);
                assert(extends(b, base, idx as int));
                assert(pick_ok(cv[idx as int], b[idx as int]));
            }
            if some_pick_holds(e, objs, tv, cv, base, idx as int, st) {
                let b = choose|b: Seq<Option<int>>|
                    extends(b, base, idx as int) && (forall|k: int| idx <= k < cv.len() ==> #[trigger] pick_ok(cv[k], b[k]))
                        && tree_holds(e, objs, tv, b, st);
                assert(pick_ok(cv[idx as int], b[idx as int]));
                assert(b[idx as int] is None);
                assert(extends(b, base, idx + 1));
            }
        }
        return r;
    }
    let ghost cands = candidates@[idx as int]@;
    let mut j: usize = 0;
    while j < candidates[idx].len()
        invariant
            0 <= j <= cands.len(),
            cands == candidates@[idx as int]@,
            cands == cv[idx as int],
            idx < types@.len(),
            types@.len() == n_types,
            binding@ == old(binding)@,
            base == binding_view(old(binding)@),
            objs == objects_view(observation.objects@),
            tv == strings_view(types@),
            cv == candidates_view(candidates@),
            e == expr@,
            st == store_view(store),
            types@.len() == candidates@.len(),
            old(binding)@.len() == types@.len(),
            forall|k: int, j: int| 0 <= k < candidates@.len() && 0 <= j < candidates@[k]@.len() ==> #[trigger] candidates@[k]@[j]
                < observation.objects@.len(),
            forall|k: int| 0 <= k < idx ==> (#[trigger] old(binding)@[k] matches Some(i) ==> i < observation.objects@.len()),
            forall|k: int| idx <= k < types@.len() ==> #[trigger] old(binding)@[k] is None,
            forall|m: int| 0 <= m < j ==> !some_pick_holds(e, objs, tv, cv, base.update(idx as int, Some(#[trigger] cands[m] as int)), idx + 1, st),
        decreases cands.len() - j,
    {
        let c = candidates[idx][j];
        binding.set(idx, Some(c));
        proof {
            assert(binding_view(binding@) =~= base.update(idx as int, Some(c as int)));
            assert(candidates@[idx as int]@[j as int] < observation.objects@.len());
        }
        let found = enumerate_bindings(types, candidates, idx + 1, binding, expr, observation, store);
        binding.set(idx, None);
        proof {
            assert(binding@ =~= old(binding)@);
        }
        if found {
            proof {
                let b = choose|b: Seq<Option<int>>|
                    extends(b, base.update(idx as int, Some(c as int)), idx + 1) && (forall|k: int| idx + 1 <= k < cv.len() ==> #[trigger] pick_ok(cv[k], b[k]))
                        && tree_holds(e, objs, tv, b, st);
                assert(extends(b, base, idx as int));
                assert(cands[j as int] as int == c as int);
                assert(pick_ok(cv[idx as int], b[idx as int]));
            }
            return true;
        }
        j = j + 1;
    }
    proof {
        if some_pick_holds(e, objs, tv, cv, base, idx as int, st) {
            let b = choose|b: Seq<Option<int>>|
                extends(b, base, idx as int) && (forall|k: int| idx <= k < cv.len() ==> #[trigger] pick_ok(cv[k], b[k]))
                    && tree_holds(e, objs, tv, b, st);
            assert(pick_ok(cv[idx as int], b[idx as int]));
            assert(cands.len() > 0);
            let m = choose|m: int| 0 <= m < cands.len() && #[trigger] cands[m] as int == b[idx as int]->0;
            assert(extends(b, base.update(idx as int, Some(cands[m] as int)), idx + 1));
            assert(false);
        }
    }
    false
}

/// With candidate lists that hold exactly the objects of each type, picking
/// from them is choosing an allowed object per type.
proof fn lemma_picks_are_choices(
    objs: Seq<SpecObject>,
    types: Seq<Seq<char>>,
    cands: Seq<Seq<usize>>,
    b: Seq<Option<int>>,
)
    requires
        cands.len() == types.len(),
        b.len() == types.len(),
        objs.len() <= usize::MAX,
        forall|k: int| 0 <= k < types.len() ==> #[trigger] candidates_ok(objs, types[k], cands[k]),
    ensures
        (forall|k: int| 0 <= k < cands.len() ==> #[trigger] pick_ok(cands[k], b[k])) == valid_binding(objs, types, b),
{
    if forall|k: int| 0 <= k < cands.len() ==> #[trigger] pick_ok(cands[k], b[k]) {
        assert forall|k: int| 0 <= k < types.len() implies #[trigger] choice_ok(objs, types[k], b[k]) by {
            assert(pick_ok(cands[k], b[k]));
            assert(candidates_ok(objs, types[k], cands[k]));
            if b[k] is None {
                if exists|i: int| 0 <= i < objs.len() && object_type(#[trigger] objs[i]) == Some(types[k]) {
                    let i = choose|i: int| 0 <= i < objs.len() && object_type(#[trigger] objs[i]) == Some(types[k]);
                    assert(cands[k].contains(i as usize));
                }
            } else {
                let j = choose|j: int| 0 <= j < cands[k].len() && #[trigger] cands[k][j] as int == b[k]->0;
                assert(cands[k][j] < objs.len());
            }
        }
    }
    if valid_binding(objs, types, b) {
        assert forall|k: int| 0 <= k < cands.len() implies #[trigger] pick_ok(cands[k], b[k]) by {
            assert(choice_ok(objs, types[k], b[k]));
            assert(candidates_ok(objs, types[k], cands[k]));
            if b[k] is None {
                if cands[k].len() > 0 {
                    let i = cands[k][0] as int;
                    assert(object_type(objs[i]) == Some(types[k]));
                }
            } else {
                let i = b[k]->0;
                assert(cands[k].contains(i as usize));
                let j = choose|j: int| 0 <= j < cands[k].len() && cands[k][j] == i as usize;
                assert(cands[k][j] as int == i);
            }
        }
    }
}

/// Evaluate a comparison expression against one observation by binding
/// enumeration (see [`expression_matches`]): each distinct referenced object
/// type is bound to one object of that type from the observation (or none);
/// the expression matches if some binding makes the tree true.
pub fn eval_comparison_expression(expr: &ComparisonExpression, observation: &Observation, store: Option<&ObjectStore>) -> (r: bool)
    ensures
        r == expression_matches(expr@, objects_view(observation.objects@), store_view(store)),
{
    let ghost objs = objects_view(observation.objects@);
    let mut types: Vec<String> = Vec::new();
    assert(strings_view(types@) =~= Seq::<Seq<char>>::empty());
    collect_types(expr, &mut types);
    let mut candidates: Vec<Vec<usize>> = Vec::new();
    let mut k: usize = 0;
    while k < types.len()
        invariant
            0 <= k <= types@.len(),
            candidates@.len() == k,
            objs == objects_view(observation.objects@),
            forall|m: int| 0 <= m < k ==> #[trigger] candidates_ok(objs, types@[m]@, candidates@[m]@),
        decreases types@.len() - k,
    {
        let mut cs: Vec<usize> = Vec::new();
        let mut i: usize = 0;
        while i < observation.objects.len()
            invariant
                0 <= i <= objs.len(),
                k < types@.len(),
                objs == objects_view(observation.objects@),
                forall|j: int| 0 <= j < cs@.len() ==> (#[trigger] cs@[j]) < objs.len() && object_type(objs[cs@[j] as int]) == Some(types@[k as int]@),
                forall|x: int| 0 <= x < i && object_type(#[trigger] objs[x]) == Some(types@[k as int]@) ==> cs@.contains(x as usize),
            decreases objs.len() - i,
        {
            let matches_type = match observation.objects[i].type_() {
                Some(t) => str_eq(t, types[k].as_str()),
                None => false,
            };
            let ghost old_cs = cs@;
            if matches_type {
                cs.push(i);
                assert(cs@[cs@.len() - 1] == i);
            }
            proof {
                assert forall|x: int| 0 <= x < i + 1 && object_type(#[trigger] objs[x]) == Some(types@[k as int]@) implies cs@.contains(x as usize) by {
                    if x == i {
                        assert(cs@[cs@.len() - 1] == i);
                    } else {
                        assert(old_cs.contains(x as usize));
                        let j = choose|j: int| 0 <= j < old_cs.len() && old_cs[j] == x as usize;
                        assert(cs@[j] == x as usize);
                    }
                }
            }
            i = i + 1;
        }
        candidates.push(cs);
        proof {
            assert forall|m: int| 0 <= m < k + 1 implies #[trigger] candidates_ok(objs, types@[m]@, candidates@[m]@) by {

            }
        }
        k = k + 1;
    }
    let mut binding: Vec<Option<usize>> = Vec::new();
    let mut t: usize = 0;
    while t < types.len()
        invariant
            0 <= t <= types@.len(),
            binding@.len() == t,
            forall|m: int| 0 <= m < t ==> #[trigger] binding@[m] is None,
        decreases types@.len() - t,
    {
        binding.push(None);
        t = t + 1;
    }
    proof {
        assert forall|m: int, j: int| 0 <= m < candidates@.len() && 0 <= j < candidates@[m]@.len() implies #[trigger] candidates@[m]@[j]
            < observation.objects@.len() by {
            assert(candidates_ok(objs, types@[m]@, candidates@[m]@));
        }
    }
    let r = enumerate_bindings(&types, &candidates, 0, &mut binding, expr, observation, store);
    let n_objects = observation.objects.len();
    proof {
        assert(objs.len() == n_objects);
        let tv = strings_view(types@);
        let cv = candidates_view(candidates@);
        let base = binding_view(binding@);
        let e = expr@;
        let st = store_view(store);
        assert(tv == expression_types(e));
        assert forall|m: int| 0 <= m < tv.len() implies #[trigger] candidates_ok(objs, tv[m], cv[m]) by {
            assert(candidates_ok(objs, types@[m]@, candidates@[m]@));
        }
        if r {
            let b = choose|b: Seq<Option<int>>|
                extends(b, base, 0) && (forall|k: int| 0 <= k < cv.len() ==> #[trigger] pick_ok(cv[k], b[k]))
                    && tree_holds(e, objs, tv, b, st);
            lemma_picks_are_choices(objs, tv, cv, b);
        }
        if expression_matches(e, objs, st) {
            let b = choose|b: Seq<Option<int>>| valid_binding(objs, expression_types(e), b) && tree_holds(e, objs, expression_types(e), b, st);
            lemma_picks_are_choices(objs, tv, cv, b);
            assert(extends(b, base, 0));
        }
    }
    r
}

// ---------------------------------------------------------------------------
// Observation expressions

/// The mathematical form of a list of observations: each observation's
/// objects.
pub open spec fn observations_view(obs: Seq<Observation>) -> Seq<Seq<SpecObject>> {
    obs.map_values(|o: Observation| objects_view(o.objects@))
}

/// The message for a `FOLLOWEDBY`.
pub open spec fn followedby_message() -> Seq<char> {
    "FOLLOWEDBY sequencing is not yet implemented"@
}

/// The message for a qualified observation expression.
pub open spec fn qualifier_message() -> Seq<char> {
    "observation qualifiers (WITHIN/REPEATS/START..STOP) are not yet implemented"@
}

/// The first unsupported feature of an observation expression, left to right:
/// `FOLLOWEDBY` and qualifiers are parsed but not evaluated.
pub open spec fn unsupported_in(e: SpecObservationExpression) -> Option<Seq<char>>
    decreases e,
{
    match e {
        SpecObservationExpression::Observation(_) => None,
        SpecObservationExpression::And(a, b) => match unsupported_in(*a) {
            Some(m) => Some(m),
            None => unsupported_in(*b),
        },
        SpecObservationExpression::Or(a, b) => match unsupported_in(*a) {
            Some(m) => Some(m),
            None => unsupported_in(*b),
        },
        SpecObservationExpression::FollowedBy(_, _) => Some(followedby_message()),
        SpecObservationExpression::Qualified { .. } => Some(qualifier_message()),
    }
}

/// Whether an observation expression holds on a list of observations: a
/// bracketed comparison expression when it matches some observation; `AND`
/// and `OR` as usual.
pub open spec fn observation_holds(e: SpecObservationExpression, obs: Seq<Seq<SpecObject>>, store: Option<Seq<(Seq<char>, SpecObject)>>) -> bool
    decreases e,
{
    match e {
        SpecObservationExpression::Observation(c) => exists|i: int| 0 <= i < obs.len() && expression_matches(c, #[trigger] obs[i], store),
        SpecObservationExpression::And(a, b) => observation_holds(*a, obs, store) && observation_holds(*b, obs, store),
        SpecObservationExpression::Or(a, b) => observation_holds(*a, obs, store) || observation_holds(*b, obs, store),
        _ => false,
    }
}

/// The indices of the observations that satisfy some bracketed comparison
/// expression anywhere in the tree (both sides of `AND` and `OR` are
/// evaluated).
pub open spec fn matched_indices(e: SpecObservationExpression, obs: Seq<Seq<SpecObject>>, store: Option<Seq<(Seq<char>, SpecObject)>>) -> Set<int>
    decreases e,
{
    match e {
        SpecObservationExpression::Observation(c) => Set::new(|i: int| 0 <= i < obs.len() && expression_matches(c, obs[i], store)),
        SpecObservationExpression::And(a, b) => matched_indices(*a, obs, store) + matched_indices(*b, obs, store),
        SpecObservationExpression::Or(a, b) => matched_indices(*a, obs, store) + matched_indices(*b, obs, store),
        _ => Set::empty(),
    }
}

/// Whether a list of indices is strictly increasing.
pub open spec fn strictly_increasing(s: Seq<usize>) -> bool {
    forall|i: int, j: int| 0 <= i < j < s.len() ==> #[trigger] s[i] < #[trigger] s[j]
}

/// The indices a list holds.
pub open spec fn index_set(s: Seq<usize>) -> Set<int> {
    Set::new(|x: int| exists|i: int| 0 <= i < s.len() && s[i] as int == x)
}

/// What evaluating a pattern's expression gives: the unsupported feature it
/// meets first, or whether it holds with the sorted, distinct indices of the
/// observations that satisfied its bracketed expressions (none when it does
/// not hold).
pub open spec fn pattern_outcome(e: SpecObservationExpression, obs: Seq<Seq<SpecObject>>, store: Option<Seq<(Seq<char>, SpecObject)>>, r: Result<MatchResult, MatchError>) -> bool {
    match r {
        Err(MatchError::Unsupported(m)) => unsupported_in(e) == Some(m@),
        Ok(res) => {
            &&& unsupported_in(e) is None
            &&& res@.0 == observation_holds(e, obs, store)
            &&& if res@.0 {
                strictly_increasing(res@.1) && index_set(res@.1) == matched_indices(e, obs, store)
            } else {
                res@.1.len() == 0
            }
        },
    }
}

/// Insert `x` into a strictly increasing list, keeping it so.
fn insert_sorted(v: &mut Vec<usize>, x: usize)
    requires
        strictly_increasing(old(v)@),
    ensures
        strictly_increasing(final(v)@),
        index_set(final(v)@) == index_set(old(v)@).insert(x as int),
{
    let mut p: usize = 0;
    while p < v.len() && v[p] < x
        invariant
            0 <= p <= v@.len(),
            forall|i: int| 0 <= i < p ==> #[trigger] v@[i] < x,
        decreases v@.len() - p,
    {
        p = p + 1;
    }
    let ghost old_v = v@;
    if p < v.len() && v[p] == x {
        assert(index_set(v@) =~= index_set(v@).insert(x as int));
        return;
    }
    v.insert(p, x);
    proof {
        assert(v@ == old_v.insert(p as int, x));
        assert forall|i: int, j: int| 0 <= i < j < v@.len() implies #[trigger] v@[i] < #[trigger] v@[j] by {
            if i < p as int && j > p as int {
                assert(v@[j] == old_v[j - 1]);
            }
        }
        assert forall|y: int| index_set(v@).contains(y) == index_set(old_v).insert(x as int).contains(y) by {
            if index_set(v@).contains(y) {
                let i = choose|i: int| 0 <= i < v@.len() && v@[i] as int == y;
                if i < p {
                    assert(old_v[i] as int == y);
                } else if i > p {
                    assert(old_v[i - 1] as int == y);
                }
            }
            if index_set(old_v).contains(y) {
                let i = choose|i: int| 0 <= i < old_v.len() && old_v[i] as int == y;
                if i < p {
                    assert(v@[i] as int == y);
                } else {
                    assert(v@[i + 1] as int == y);
                }
            }
            if y == x as int {
                assert(v@[p as int] as int == y);
            }
        }
        assert(index_set(v@) =~= index_set(old_v).insert(x as int));
    }
}

/// The indices, in increasing order, of the observations below `k` that a
/// bracketed comparison expression matches.
pub open spec fn leaf_hits(
    c: SpecComparisonExpression,
    obs: Seq<Seq<SpecObject>>,
    store: Option<Seq<(Seq<char>, SpecObject)>>,
    k: int,
) -> Seq<usize>
    decreases k,
{
    if k <= 0 {
        Seq::empty()
    } else if expression_matches(c, obs[k - 1], store) {
        leaf_hits(c, obs, store, k - 1).push((k - 1) as usize)
    } else {
        leaf_hits(c, obs, store, k - 1)
    }
}

/// The indices that evaluating an observation expression records, in the
/// order it records them: for a bracketed expression each matching
/// observation in turn, for `AND` and `OR` those of the left side and then
/// those of the right, repeats included.
pub open spec fn recorded_indices(
    e: SpecObservationExpression,
    obs: Seq<Seq<SpecObject>>,
    store: Option<Seq<(Seq<char>, SpecObject)>>,
) -> Seq<usize>
    decreases e,
{
    match e {
        SpecObservationExpression::Observation(c) => leaf_hits(c, obs, store, obs.len() as int),
        SpecObservationExpression::And(a, b) => recorded_indices(*a, obs, store) + recorded_indices(*b, obs, store),
        SpecObservationExpression::Or(a, b) => recorded_indices(*a, obs, store) + recorded_indices(*b, obs, store),
        _ => Seq::empty(),
    }
}

/// Returns whether the observation expression matches, appending to `matched`
/// the index of each observation that satisfied a bracketed leaf (see
/// [`recorded_indices`]).
fn eval_observation_expression(
    expr: &ObservationExpression,
    observations: &[Observation],
    store: Option<&ObjectStore>,
    matched: &mut Vec<usize>,
) -> (r: Result<bool, MatchError>)
    ensures
        (match r {
            Err(MatchError::Unsupported(m)) => unsupported_in(expr@) == Some(m@),
            Ok(b) => {
                &&& unsupported_in(expr@) is None
                &&& b == observation_holds(expr@, observations_view(observations@), store_view(store))
                &&& final(matched)@ == old(matched)@ + recorded_indices(
                    expr@,
                    observations_view(observations@),
                    store_view(store),
                )
            },
        }),
    decreases expr,
{
    let ghost ov = observations_view(observations@);
    let ghost st = store_view(store);
    match expr {
        ObservationExpression::Observation(comparison) => {
            let ghost c = (**comparison)@;
            let ghost start = matched@;
            let mut any = false;
            let mut i: usize = 0;
            assert(start + Seq::<usize>::empty() =~= start);
            while i < observations.len()
                invariant
                    0 <= i <= observations@.len(),
                    ov == observations_view(observations@),
                    st == store_view(store),
                    c == (**comparison)@,
                    matched@ == start + leaf_hits(c, ov, st, i as int),
                    any == exists|x: int| 0 <= x < i && expression_matches(c, #[trigger] ov[x], st),
                decreases observations@.len() - i,
            {
                let hit = eval_comparison_expression(comparison, &observations[i], store);
                assert(ov[i as int] == objects_view(observations@[i as int].objects@));
                assert(hit == expression_matches(c, ov[i as int], st));
                if hit {
                    matched.push(i);
                    any = true;
                }
                assert(matched@ =~= start + leaf_hits(c, ov, st, i + 1));
                i = i + 1;
            }
            Ok(any)
        },
        ObservationExpression::And(a, b) => {
            let ghost start = matched@;
            let left = match eval_observation_expression(a, observations, store, matched) {
                Ok(x) => x,
                Err(e) => return Err(e),
            };
            let right = match eval_observation_expression(b, observations, store, matched) {
                Ok(x) => x,
                Err(e) => return Err(e),
            };
            assert(matched@ =~= start + recorded_indices(expr@, ov, st));
            Ok(left && right)
        },
        ObservationExpression::Or(a, b) => {
            let ghost start = matched@;
            let left = match eval_observation_expression(a, observations, store, matched) {
                Ok(x) => x,
                Err(e) => return Err(e),
            };
            let right = match eval_observation_expression(b, observations, store, matched) {
                Ok(x) => x,
                Err(e) => return Err(e),
            };
            assert(matched@ =~= start + recorded_indices(expr@, ov, st));
            Ok(left || right)
        },
        ObservationExpression::FollowedBy(_, _) => Err(
            MatchError::Unsupported(String::from_str("FOLLOWEDBY sequencing is not yet implemented")),
        ),
        ObservationExpression::Qualified { .. } => Err(
            MatchError::Unsupported(
                String::from_str("observation qualifiers (WITHIN/REPEATS/START..STOP) are not yet implemented"),
            ),
        ),
    }
}

/// The recorded indices of a bracketed expression below `k` are those of the
/// observations below `k` that it matches.
proof fn lemma_leaf_hits_set(
    c: SpecComparisonExpression,
    obs: Seq<Seq<SpecObject>>,
    store: Option<Seq<(Seq<char>, SpecObject)>>,
    k: int,
)
    requires
        0 <= k <= obs.len() <= usize::MAX,
    ensures
        index_set(leaf_hits(c, obs, store, k)) == Set::new(|i: int| 0 <= i < k && expression_matches(c, obs[i], store)),
    decreases k,
{
    if k > 0 {
        lemma_leaf_hits_set(c, obs, store, k - 1);
        let prev = leaf_hits(c, obs, store, k - 1);
        if expression_matches(c, obs[k - 1], store) {
            lemma_index_set_push(prev, (k - 1) as usize);
        }
        assert(index_set(leaf_hits(c, obs, store, k)) =~= Set::new(|i: int| 0 <= i < k && expression_matches(c, obs[i], store)));
    } else {
        assert(index_set(Seq::<usize>::empty()) =~= Set::<int>::empty());
        assert(Set::new(|i: int| 0 <= i < k && expression_matches(c, obs[i], store)) =~= Set::<int>::empty());
    }
}

/// Appending an index adds it to the set of indices.
proof fn lemma_index_set_push(s: Seq<usize>, x: usize)
    ensures
        index_set(s.push(x)) == index_set(s).insert(x as int),
{
    assert forall|y: int| index_set(s.push(x)).contains(y) == index_set(s).insert(x as int).contains(y) by {
        if index_set(s.push(x)).contains(y) {
            let i = choose|i: int| 0 <= i < s.push(x).len() && s.push(x)[i] as int == y;
            if i < s.len() {
                assert(s[i] as int == y);
            }
        }
        if index_set(s).contains(y) {
            let i = choose|i: int| 0 <= i < s.len() && s[i] as int == y;
            assert(s.push(x)[i] as int == y);
        }
        if y == x as int {
            assert(s.push(x)[s.len() as int] as int == y);
        }
    }
    assert(index_set(s.push(x)) =~= index_set(s).insert(x as int));
}

/// The indices of a concatenation are those of both parts.
proof fn lemma_index_set_concat(a: Seq<usize>, b: Seq<usize>)
    ensures
        index_set(a + b) == index_set(a) + index_set(b),
{
    assert forall|y: int| index_set(a + b).contains(y) == (index_set(a) + index_set(b)).contains(y) by {
        if index_set(a + b).contains(y) {
            let i = choose|i: int| 0 <= i < (a + b).len() && (a + b)[i] as int == y;
            if i < a.len() {
                assert(a[i] as int == y);
            } else {
                assert(b[i - a.len()] as int == y);
            }
        }
        if index_set(a).contains(y) {
            let i = choose|i: int| 0 <= i < a.len() && a[i] as int == y;
            assert((a + b)[i] as int == y);
        }
        if index_set(b).contains(y) {
            let i = choose|i: int| 0 <= i < b.len() && b[i] as int == y;
            assert((a + b)[a.len() + i] as int == y);
        }
    }
    assert(index_set(a + b) =~= index_set(a) + index_set(b));
}

/// The indices that evaluation records are exactly the matched indices.
proof fn lemma_recorded_indices_set(
    e: SpecObservationExpression,
    obs: Seq<Seq<SpecObject>>,
    store: Option<Seq<(Seq<char>, SpecObject)>>,
)
    requires
        obs.len() <= usize::MAX,
    ensures
        index_set(recorded_indices(e, obs, store)) == matched_indices(e, obs, store),
    decreases e,
{
    match e {
        SpecObservationExpression::Observation(c) => {
            lemma_leaf_hits_set(c, obs, store, obs.len() as int);
            assert(Set::new(|i: int| 0 <= i < obs.len() as int && expression_matches(c, obs[i], store))
                =~= matched_indices(e, obs, store));
        },
        SpecObservationExpression::And(a, b) => {
            lemma_recorded_indices_set(*a, obs, store);
            lemma_recorded_indices_set(*b, obs, store);
            lemma_index_set_concat(recorded_indices(*a, obs, store), recorded_indices(*b, obs, store));
        },
        SpecObservationExpression::Or(a, b) => {
            lemma_recorded_indices_set(*a, obs, store);
            lemma_recorded_indices_set(*b, obs, store);
            lemma_index_set_concat(recorded_indices(*a, obs, store), recorded_indices(*b, obs, store));
        },
        _ => {
            assert(index_set(Seq::<usize>::empty()) =~= Set::<int>::empty());
        },
    }
}

/// The distinct indices of a list, in increasing order.
fn sorted_distinct(v: &Vec<usize>) -> (r: Vec<usize>)
    ensures
        strictly_increasing(r@),
        index_set(r@) == index_set(v@),
{
    let mut r: Vec<usize> = Vec::new();
    let mut j: usize = 0;
    assert(index_set(r@) =~= index_set(v@.subrange(0, 0)));
    while j < v.len()
        invariant
            0 <= j <= v@.len(),
            strictly_increasing(r@),
            index_set(r@) == index_set(v@.subrange(0, j as int)),
        decreases v@.len() - j,
    {
        insert_sorted(&mut r, v[j]);
        proof {
            assert(v@.subrange(0, j + 1) =~= v@.subrange(0, j as int).push(v@[j as int]));
            lemma_index_set_push(v@.subrange(0, j as int), v@[j as int]);
        }
        j = j + 1;
    }
    assert(v@.subrange(0, v@.len() as int) =~= v@);
    r
}

/// Evaluate a whole pattern against a list of observations (see
/// [`pattern_outcome`]). Single observations and observation-level `AND` /
/// `OR` are evaluated; `FOLLOWEDBY` and qualifiers (`WITHIN`, `REPEATS`,
/// `START .. STOP`) give `MatchError::Unsupported` rather than passing
/// silently. On a match the recorded indices are sorted and freed of repeats.
pub fn eval_pattern(pattern: &Pattern, observations: &[Observation], store: Option<&ObjectStore>) -> (r: Result<MatchResult, MatchError>)
    ensures
        pattern_outcome(pattern@.expression, observations_view(observations@), store_view(store), r),
{
    let mut matched: Vec<usize> = Vec::new();
    let is_match = match eval_observation_expression(&pattern.expression, observations, store, &mut matched) {
        Ok(b) => b,
        Err(e) => return Err(e),
    };
    if is_match {
        let sorted = sorted_distinct(&matched);
        let n_obs = observations.len();
        proof {
            let e = pattern@.expression;
            let ov = observations_view(observations@);
            let st = store_view(store);
            assert(ov.len() == n_obs);
            assert(matched@ =~= recorded_indices(e, ov, st));
            lemma_recorded_indices_set(e, ov, st);
        }
        Ok(MatchResult::matched(sorted))
    } else {
        Ok(MatchResult::no_match())
    }
}

// ---------------------------------------------------------------------------
// Laws

/// Negating a comparison inverts its outcome on every object.
pub proof fn negation_inverts(o: SpecObject, c: SpecComparison, store: Option<Seq<(Seq<char>, SpecObject)>>)
    ensures
        comparison_holds(o, SpecComparison { path: c.path, operator: c.operator, negated: !c.negated, value: c.value }, store)
            == !comparison_holds(o, c, store),
{
    let c2 = SpecComparison { path: c.path, operator: c.operator, negated: !c.negated, value: c.value };
    assert(resolve_values(o, c2.path, store) == resolve_values(o, c.path, store));
    let values = resolve_values(o, c.path, store);
    let base = if c.operator == ComparisonOperator::Exists {
        values.len() > 0
    } else {
        exists|i: int| 0 <= i < values.len() && operator_holds_for(#[trigger] values[i], c.operator, c.value)
    };
    assert(comparison_holds(o, c, store) == (base != c.negated));
    assert(comparison_holds(o, c2, store) == (base != c2.negated));
}

/// How the operators relate on one value and one literal: `!=` holds exactly
/// when `=` does not (so also between values of incomparable kinds); `>=` is
/// `>` or equal in order, and `<=` is `<` or equal in order; `>` and `<` never
/// both hold; `EXISTS` is no test on a value; and with a set operand no
/// operator but `IN` holds.
pub proof fn operator_laws(v: SpecValue, l: SpecLiteral, set: Seq<SpecLiteral>)
    ensures
        operator_holds_for(v, ComparisonOperator::NotEqual, SpecComparisonOperand::Literal(l))
            == !operator_holds_for(v, ComparisonOperator::Equal, SpecComparisonOperand::Literal(l)),
        operator_holds_for(v, ComparisonOperator::GreaterThanOrEqual, SpecComparisonOperand::Literal(l))
            == (operator_holds_for(v, ComparisonOperator::GreaterThan, SpecComparisonOperand::Literal(l))
            || value_order_literal(v, l) == Some(Ordering::Equal)),
        operator_holds_for(v, ComparisonOperator::LessThanOrEqual, SpecComparisonOperand::Literal(l))
            == (operator_holds_for(v, ComparisonOperator::LessThan, SpecComparisonOperand::Literal(l))
            || value_order_literal(v, l) == Some(Ordering::Equal)),
        !(operator_holds_for(v, ComparisonOperator::GreaterThan, SpecComparisonOperand::Literal(l))
            && operator_holds_for(v, ComparisonOperator::LessThan, SpecComparisonOperand::Literal(l))),
        !operator_holds_for(v, ComparisonOperator::Exists, SpecComparisonOperand::Literal(l)),
        forall|op: ComparisonOperator|
            op != ComparisonOperator::In ==> !#[trigger] operator_holds_for(v, op, SpecComparisonOperand::SetLiteral(set)),
{
}

/// A parsed operator means what its token says: `=` holds on a value and a
/// literal exactly when they are equal and `!=` exactly when they are not;
/// `<` exactly when the value orders below the literal and `<=` when below or
/// equal; `>` and `>=` likewise above; `IN` with a single literal exactly when
/// the value equals it.
pub proof fn operator_tokens_mean_their_names(k: SpecTokenKind, v: SpecValue, l: SpecLiteral)
    requires
        operator_of(k) is Some,
    ensures
        k is Equal ==> operator_holds_for(v, operator_of(k)->0, SpecComparisonOperand::Literal(l))
            == value_equals_literal(v, l),
        k is NotEqual ==> operator_holds_for(v, operator_of(k)->0, SpecComparisonOperand::Literal(l))
            == !value_equals_literal(v, l),
        k is LessThan ==> operator_holds_for(v, operator_of(k)->0, SpecComparisonOperand::Literal(l))
            == (value_order_literal(v, l) == Some(Ordering::Less)),
        k is LessThanOrEqual ==> operator_holds_for(v, operator_of(k)->0, SpecComparisonOperand::Literal(l))
            == (value_order_literal(v, l) == Some(Ordering::Less) || value_order_literal(v, l) == Some(Ordering::Equal)),
        k is GreaterThan ==> operator_holds_for(v, operator_of(k)->0, SpecComparisonOperand::Literal(l))
            == (value_order_literal(v, l) == Some(Ordering::Greater)),
        k is GreaterThanOrEqual ==> operator_holds_for(v, operator_of(k)->0, SpecComparisonOperand::Literal(l))
            == (value_order_literal(v, l) == Some(Ordering::Greater) || value_order_literal(v, l) == Some(Ordering::Equal)),
        k is In ==> operator_holds_for(v, operator_of(k)->0, SpecComparisonOperand::Literal(l))
            == value_equals_literal(v, l),
{
    if k is In {
        if value_equals_literal(v, l) {
            assert(seq![l][0] == l);
        }
    }
}

/// `EXISTS path` holds on an object exactly when the path selects some value
/// there.
pub proof fn exists_means_some_value(o: SpecObject, c: SpecComparison, store: Option<Seq<(Seq<char>, SpecObject)>>)
    requires
        c.operator == ComparisonOperator::Exists,
        !c.negated,
    ensures
        comparison_holds(o, c, store) == (resolve_values(o, c.path, store).len() > 0),
{
}

/// Two tests joined by `AND` on one object type match an observation exactly
/// when a single object of that type meets both.
pub proof fn and_tests_bind_one_object(c1: SpecComparison, c2: SpecComparison, objs: Seq<SpecObject>, store: Option<Seq<(Seq<char>, SpecObject)>>)
    requires
        c1.path.object_type == c2.path.object_type,
    ensures
        expression_matches(
            SpecComparisonExpression::And(
                Box::new(SpecComparisonExpression::Test(c1)),
                Box::new(SpecComparisonExpression::Test(c2)),
            ),
            objs,
            store,
        ) <==> exists|i: int|
            0 <= i < objs.len() && object_type(#[trigger] objs[i]) == Some(c1.path.object_type) && comparison_holds(objs[i], c1, store)
                && comparison_holds(objs[i], c2, store),
{
    let t = c1.path.object_type;
    let e = SpecComparisonExpression::And(
        Box::new(SpecComparisonExpression::Test(c1)),
        Box::new(SpecComparisonExpression::Test(c2)),
    );
    let types = expression_types(e);
    reveal_with_fuel(add_types, 3);
    reveal_with_fuel(tree_holds, 3);
    assert(add_types(Seq::empty(), SpecComparisonExpression::Test(c1)) =~= seq![t]);
    assert(seq![t].contains(t)) by {
        assert(seq![t][0] == t);
    }
    assert(types =~= seq![t]);
    assert(type_slot(types, t, 0) == Some(0int));
    if expression_matches(e, objs, store) {
        let b = choose|b: Seq<Option<int>>| valid_binding(objs, types, b) && tree_holds(e, objs, types, b, store);
        assert(choice_ok(objs, types[0], b[0]));
        let i = b[0]->0;
        assert(0 <= i < objs.len() && object_type(objs[i]) == Some(t) && comparison_holds(objs[i], c1, store)
            && comparison_holds(objs[i], c2, store));
    }
    if exists|i: int| 0 <= i < objs.len() && object_type(#[trigger] objs[i]) == Some(t) && comparison_holds(objs[i], c1, store)
        && comparison_holds(objs[i], c2, store) {
        let i = choose|i: int| 0 <= i < objs.len() && object_type(#[trigger] objs[i]) == Some(t) && comparison_holds(objs[i], c1, store)
            && comparison_holds(objs[i], c2, store);
        let b = seq![Some(i)];
        assert(choice_ok(objs, types[0], b[0]));
        assert(valid_binding(objs, types, b));
        assert(tree_holds(e, objs, types, b, store));
    }
}

/// An expression that holds has some observation among its matched indices.
proof fn lemma_holding_has_index(e: SpecObservationExpression, obs: Seq<Seq<SpecObject>>, store: Option<Seq<(Seq<char>, SpecObject)>>)
    requires
        observation_holds(e, obs, store),
    ensures
        exists|i: int| matched_indices(e, obs, store).contains(i),
    decreases e,
{
    match e {
        SpecObservationExpression::Observation(c) => {
            let i = choose|i: int| 0 <= i < obs.len() && expression_matches(c, #[trigger] obs[i], store);
            assert(matched_indices(e, obs, store).contains(i));
        },
        SpecObservationExpression::And(a, b) => {
            lemma_holding_has_index(*a, obs, store);
            let i = choose|i: int| matched_indices(*a, obs, store).contains(i);
            assert(matched_indices(e, obs, store).contains(i));
        },
        SpecObservationExpression::Or(a, b) => {
            if observation_holds(*a, obs, store) {
                lemma_holding_has_index(*a, obs, store);
                let i = choose|i: int| matched_indices(*a, obs, store).contains(i);
                assert(matched_indices(e, obs, store).contains(i));
            } else {
                lemma_holding_has_index(*b, obs, store);
                let i = choose|i: int| matched_indices(*b, obs, store).contains(i);
                assert(matched_indices(e, obs, store).contains(i));
            }
        },
        _ => {},
    }
}

/// A match records at least one observation, and the observations it records
/// are the ones that satisfied a bracketed expression, each once, in
/// increasing order.
pub proof fn match_records_observations(
    e: SpecObservationExpression,
    obs: Seq<Seq<SpecObject>>,
    store: Option<Seq<(Seq<char>, SpecObject)>>,
    r: Result<MatchResult, MatchError>,
)
    requires
        pattern_outcome(e, obs, store, r),
        r matches Ok(res) && res@.0,
    ensures
        r->Ok_0@.1.len() > 0,
        strictly_increasing(r->Ok_0@.1),
        forall|i: int| 0 <= i < r->Ok_0@.1.len() ==> 0 <= #[trigger] r->Ok_0@.1[i] < obs.len(),
{
    let res = r->Ok_0;
    lemma_holding_has_index(e, obs, store);
    let i = choose|i: int| matched_indices(e, obs, store).contains(i);
    assert(index_set(res@.1).contains(i));
    lemma_matched_in_range(e, obs, store);
    assert forall|k: int| 0 <= k < res@.1.len() implies 0 <= #[trigger] res@.1[k] < obs.len() by {
        assert(index_set(res@.1).contains(res@.1[k] as int));
    }
}

/// Two strictly increasing lists that hold the same indices are the same list.
proof fn lemma_increasing_unique(a: Seq<usize>, b: Seq<usize>)
    requires
        strictly_increasing(a),
        strictly_increasing(b),
        index_set(a) == index_set(b),
    ensures
        a == b,
    decreases a.len(),
{
    if a.len() == 0 {
        if b.len() > 0 {
            assert(index_set(b).contains(b[0] as int));
        }
        assert(a =~= b);
    } else {
        assert(index_set(a).contains(a[0] as int));
        assert(b.len() > 0);
        assert(index_set(b).contains(b[0] as int));
        let i = choose|i: int| 0 <= i < a.len() && a[i] as int == b[0] as int;
        let j = choose|j: int| 0 <= j < b.len() && b[j] as int == a[0] as int;
        if i > 0 {
            assert(a[0] < a[i]);
        }
        if j > 0 {
            assert(b[0] < b[j]);
        }
        assert(a[0] == b[0]);
        let a1 = a.drop_first();
        let b1 = b.drop_first();
        assert forall|x: int| index_set(a1).contains(x) == index_set(b1).contains(x) by {
            if index_set(a1).contains(x) {
                let k = choose|k: int| 0 <= k < a1.len() && a1[k] as int == x;
                assert(a[k + 1] as int == x);
                assert(a[0] < a[k + 1]);
                assert(index_set(a).contains(x));
                let m = choose|m: int| 0 <= m < b.len() && b[m] as int == x;
                assert(m != 0);
                assert(b1[m - 1] as int == x);
            }
            if index_set(b1).contains(x) {
                let k = choose|k: int| 0 <= k < b1.len() && b1[k] as int == x;
                assert(b[k + 1] as int == x);
                assert(b[0] < b[k + 1]);
                assert(index_set(b).contains(x));
                let m = choose|m: int| 0 <= m < a.len() && a[m] as int == x;
                assert(m != 0);
                assert(a1[m - 1] as int == x);
            }
        }
        assert(index_set(a1) =~= index_set(b1));
        lemma_increasing_unique(a1, b1);
        assert(a =~= seq![a[0]] + a1);
        assert(b =~= seq![b[0]] + b1);
    }
}

/// The outcome of evaluating a pattern is determined: two results that both
/// meet [`pattern_outcome`] for the same expression, observations and store
/// are the same result.
pub proof fn pattern_outcome_is_determined(
    e: SpecObservationExpression,
    obs: Seq<Seq<SpecObject>>,
    store: Option<Seq<(Seq<char>, SpecObject)>>,
    r1: Result<MatchResult, MatchError>,
    r2: Result<MatchResult, MatchError>,
)
    requires
        pattern_outcome(e, obs, store, r1),
        pattern_outcome(e, obs, store, r2),
    ensures
        match (r1, r2) {
            (Ok(a), Ok(b)) => a@ == b@,
            (Err(MatchError::Unsupported(x)), Err(MatchError::Unsupported(y))) => x@ == y@,
            _ => false,
        },
{
    match (r1, r2) {
        (Ok(a), Ok(b)) => {
            if a@.0 {
                lemma_increasing_unique(a@.1, b@.1);
            } else {
                assert(a@.1 =~= b@.1);
            }
        },
        _ => {},
    }
}

/// Matched indices are indices of observations.
proof fn lemma_matched_in_range(e: SpecObservationExpression, obs: Seq<Seq<SpecObject>>, store: Option<Seq<(Seq<char>, SpecObject)>>)
    ensures
        forall|i: int| #[trigger] matched_indices(e, obs, store).contains(i) ==> 0 <= i < obs.len(),
    decreases e,
{
    match e {
        SpecObservationExpression::And(a, b) => {
            lemma_matched_in_range(*a, obs, store);
            lemma_matched_in_range(*b, obs, store);
            assert forall|i: int| #[trigger] matched_indices(e, obs, store).contains(i) implies 0 <= i < obs.len() by {
                assert(matched_indices(*a, obs, store).contains(i) || matched_indices(*b, obs, store).contains(i));
            }
        },
        SpecObservationExpression::Or(a, b) => {
            lemma_matched_in_range(*a, obs, store);
            lemma_matched_in_range(*b, obs, store);
            assert forall|i: int| #[trigger] matched_indices(e, obs, store).contains(i) implies 0 <= i < obs.len() by {
                assert(matched_indices(*a, obs, store).contains(i) || matched_indices(*b, obs, store).contains(i));
            }
        },
        _ => {},
    }
}

} // verus!
