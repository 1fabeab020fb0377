//! Every successful production consumes tokens: the parser always moves
//! forward, so its "no progress" guard never fires.

use vstd::prelude::*;

use crate::pattern::ast::{SpecComparisonExpression, SpecObjectPath, SpecObservationExpression, SpecPathStep};
use crate::pattern::lexer::{SpecToken, SpecTokenKind};
use crate::pattern::parser::{
    close_index_at, comparison_and_at, comparison_and_tail_at, comparison_expression_at,
    comparison_or_tail_at, expect_at, key_component_at, level_rank, literal_at, object_path_at,
    observation_expression_at, observation_level_at, observation_primary_at,
    observation_qualified_at, observation_tail_at, operand_at, path_steps_at, prop_test_at,
    qualifier_at, qualifiers_at, set_items_at, set_literal_at, test_rest_at, ObservationLevel,
    PResult,
};
use crate::pattern::ast::SpecLiteral;

verus! {

/// Whether a successful result starts after `p` and ends within the tokens.
pub open spec fn moves_forward<T>(r: PResult<T>, toks: Seq<SpecToken>, p: int) -> bool {
    r matches Ok((_, q)) ==> p < q <= toks.len()
}

/// Whether a successful result ends at or after `p` and within the tokens.
pub open spec fn stays_ahead<T>(r: PResult<T>, toks: Seq<SpecToken>, p: int) -> bool {
    r matches Ok((_, q)) ==> p <= q <= toks.len()
}

proof fn lemma_expect(toks: Seq<SpecToken>, p: int, src_len: int, want: SpecTokenKind, what: Seq<char>)
    requires
        0 <= p,
    ensures
        expect_at(toks, p, src_len, want, what) matches Ok(q) ==> q == p + 1 && q <= toks.len(),
{
}

proof fn lemma_path_steps(toks: Seq<SpecToken>, p: int, src_len: int, steps: Seq<SpecPathStep>)
    requires
        0 <= p <= toks.len(),
    ensures
        stays_ahead(path_steps_at(toks, p, src_len, steps), toks, p),
    decreases toks.len() - p, 1int,
{
    if p < toks.len() {
        match key_component_at(toks, p + 1, src_len) {
            Ok((k, q)) => {
                if toks[p].kind is Dot {
                    lemma_path_steps(toks, q, src_len, steps.push(crate::pattern::ast::PathStepOf::Key(k)));
                }
            },
            Err(_) => {},
        }
        if p + 1 < toks.len() {
            lemma_close_index(toks, p + 2, src_len, steps, crate::pattern::ast::PathStepOf::AnyIndex);
        }
        if p + 1 < toks.len() && toks[p + 1].kind is Integer {
            let n = toks[p + 1].kind->Integer_0;
            if n >= 0 {
                lemma_close_index(toks, p + 2, src_len, steps, crate::pattern::ast::PathStepOf::Index(n as u64));
            }
        }
    }
}

proof fn lemma_close_index(toks: Seq<SpecToken>, p: int, src_len: int, steps: Seq<SpecPathStep>, step: SpecPathStep)
    requires
        0 <= p,
    ensures
        moves_forward(close_index_at(toks, p, src_len, steps, step), toks, p),
    decreases toks.len() - p, 0int,
{
    lemma_expect(toks, p, src_len, crate::pattern::lexer::TokenKindOf::RBracket, "']' to close index"@);
    if p < toks.len() {
        lemma_path_steps(toks, p + 1, src_len, steps.push(step));
    }
}

proof fn lemma_object_path(toks: Seq<SpecToken>, p: int, src_len: int)
    requires
        0 <= p,
    ensures
        moves_forward(object_path_at(toks, p, src_len), toks, p),
{
    if p + 2 < toks.len() {
        match key_component_at(toks, p + 2, src_len) {
            Ok((k, q2)) => lemma_path_steps(toks, q2, src_len, seq![crate::pattern::ast::PathStepOf::Key(k)]),
            Err(_) => {},
        }
    }
}

proof fn lemma_set_items(toks: Seq<SpecToken>, p: int, src_len: int, items: Seq<SpecLiteral>)
    requires
        0 <= p <= toks.len(),
    ensures
        stays_ahead(set_items_at(toks, p, src_len, items), toks, p),
    decreases toks.len() - p,
{
    match literal_at(toks, p + 1, src_len) {
        Ok((l, q)) => {
            if p + 1 < toks.len() {
                lemma_set_items(toks, q, src_len, items.push(l));
            }
        },
        Err(_) => {},
    }
}

proof fn lemma_set_literal(toks: Seq<SpecToken>, p: int, src_len: int)
    requires
        0 <= p,
    ensures
        moves_forward(set_literal_at(toks, p, src_len), toks, p),
{
    if p + 1 < toks.len() {
        match literal_at(toks, p + 1, src_len) {
            Ok((first, q2)) => lemma_set_items(toks, q2, src_len, seq![first]),
            Err(_) => {},
        }
    }
}

proof fn lemma_test_rest(toks: Seq<SpecToken>, p: int, src_len: int, path: SpecObjectPath)
    requires
        0 <= p,
    ensures
        moves_forward(test_rest_at(toks, p, src_len, path), toks, p),
{
    lemma_set_literal(toks, p + 1, src_len);
    lemma_set_literal(toks, p + 2, src_len);
}

proof fn lemma_prop_test(toks: Seq<SpecToken>, p: int, src_len: int)
    requires
        0 <= p,
    ensures
        moves_forward(prop_test_at(toks, p, src_len), toks, p),
    decreases toks.len() - p, 0int,
{
    lemma_object_path(toks, p, src_len);
    match object_path_at(toks, p, src_len) {
        Ok((path, q)) => lemma_test_rest(toks, q, src_len, path),
        Err(_) => {},
    }
    if p < toks.len() {
        lemma_comparison_expression(toks, p + 1, src_len);
        lemma_object_path(toks, p + 1, src_len);
    }
}

proof fn lemma_and_tail(toks: Seq<SpecToken>, p: int, src_len: int, left: SpecComparisonExpression)
    requires
        0 <= p <= toks.len(),
    ensures
        stays_ahead(comparison_and_tail_at(toks, p, src_len, left), toks, p),
    decreases toks.len() - p, 0int,
{
    if p < toks.len() {
        lemma_prop_test(toks, p + 1, src_len);
        match prop_test_at(toks, p + 1, src_len) {
            Ok((right, q)) => lemma_and_tail(toks, q, src_len, SpecComparisonExpression::And(Box::new(left), Box::new(right))),
            Err(_) => {},
        }
    }
}

proof fn lemma_and(toks: Seq<SpecToken>, p: int, src_len: int)
    requires
        0 <= p,
    ensures
        moves_forward(comparison_and_at(toks, p, src_len), toks, p),
    decreases toks.len() - p, 1int,
{
    lemma_prop_test(toks, p, src_len);
    match prop_test_at(toks, p, src_len) {
        Ok((left, q)) => lemma_and_tail(toks, q, src_len, left),
        Err(_) => {},
    }
}

proof fn lemma_or_tail(toks: Seq<SpecToken>, p: int, src_len: int, left: SpecComparisonExpression)
    requires
        0 <= p <= toks.len(),
    ensures
        stays_ahead(comparison_or_tail_at(toks, p, src_len, left), toks, p),
    decreases toks.len() - p, 0int,
{
    if p < toks.len() {
        lemma_and(toks, p + 1, src_len);
        match comparison_and_at(toks, p + 1, src_len) {
            Ok((right, q)) => lemma_or_tail(toks, q, src_len, SpecComparisonExpression::Or(Box::new(left), Box::new(right))),
            Err(_) => {},
        }
    }
}

proof fn lemma_comparison_expression(toks: Seq<SpecToken>, p: int, src_len: int)
    requires
        0 <= p,
    ensures
        moves_forward(comparison_expression_at(toks, p, src_len), toks, p),
    decreases toks.len() - p, 2int,
{
    lemma_and(toks, p, src_len);
    match comparison_and_at(toks, p, src_len) {
        Ok((left, q)) => lemma_or_tail(toks, q, src_len, left),
        Err(_) => {},
    }
}

proof fn lemma_qualifier(toks: Seq<SpecToken>, p: int, src_len: int)
    requires
        0 <= p,
    ensures
        moves_forward(qualifier_at(toks, p, src_len), toks, p),
{
}

proof fn lemma_qualifiers(toks: Seq<SpecToken>, p: int, src_len: int, e: SpecObservationExpression)
    requires
        0 <= p <= toks.len(),
    ensures
        stays_ahead(qualifiers_at(toks, p, src_len, e), toks, p),
    decreases toks.len() - p,
{
    lemma_qualifier(toks, p, src_len);
    match qualifier_at(toks, p, src_len) {
        Ok((qual, q)) => lemma_qualifiers(
            toks,
            q,
            src_len,
            SpecObservationExpression::Qualified { expression: Box::new(e), qualifier: qual },
        ),
        Err(_) => {},
    }
}

proof fn lemma_primary(toks: Seq<SpecToken>, p: int, src_len: int)
    requires
        0 <= p,
    ensures
        moves_forward(observation_primary_at(toks, p, src_len), toks, p),
    decreases toks.len() - p, 0int,
{
    if p < toks.len() {
        lemma_comparison_expression(toks, p + 1, src_len);
        lemma_observation_expression(toks, p + 1, src_len);
    }
}

proof fn lemma_qualified(toks: Seq<SpecToken>, p: int, src_len: int)
    requires
        0 <= p,
    ensures
        moves_forward(observation_qualified_at(toks, p, src_len), toks, p),
    decreases toks.len() - p, 1int,
{
    lemma_primary(toks, p, src_len);
    match observation_primary_at(toks, p, src_len) {
        Ok((e, q)) => lemma_qualifiers(toks, q, src_len, e),
        Err(_) => {},
    }
}

proof fn lemma_operand(toks: Seq<SpecToken>, p: int, src_len: int, level: ObservationLevel)
    requires
        0 <= p,
    ensures
        moves_forward(operand_at(toks, p, src_len, level), toks, p),
    decreases toks.len() - p, level_rank(level) - 1,
{
    match level {
        ObservationLevel::And => lemma_qualified(toks, p, src_len),
        ObservationLevel::Or => lemma_level(toks, p, src_len, ObservationLevel::And),
        ObservationLevel::FollowedBy => lemma_level(toks, p, src_len, ObservationLevel::Or),
    }
}

proof fn lemma_tail(toks: Seq<SpecToken>, p: int, src_len: int, level: ObservationLevel, left: SpecObservationExpression)
    requires
        0 <= p <= toks.len(),
    ensures
        stays_ahead(observation_tail_at(toks, p, src_len, level, left), toks, p),
    decreases toks.len() - p, 0int,
{
    if p < toks.len() {
        lemma_operand(toks, p + 1, src_len, level);
        match operand_at(toks, p + 1, src_len, level) {
            Ok((right, q)) => lemma_tail(toks, q, src_len, level, crate::pattern::parser::join_at_level(level, left, right)),
            Err(_) => {},
        }
    }
}

proof fn lemma_level(toks: Seq<SpecToken>, p: int, src_len: int, level: ObservationLevel)
    requires
        0 <= p,
    ensures
        moves_forward(observation_level_at(toks, p, src_len, level), toks, p),
    decreases toks.len() - p, level_rank(level),
{
    lemma_operand(toks, p, src_len, level);
    match operand_at(toks, p, src_len, level) {
        Ok((left, q)) => lemma_tail(toks, q, src_len, level, left),
        Err(_) => {},
    }
}

proof fn lemma_observation_expression(toks: Seq<SpecToken>, p: int, src_len: int)
    requires
        0 <= p,
    ensures
        moves_forward(observation_expression_at(toks, p, src_len), toks, p),
    decreases toks.len() - p, 8int,
{
    lemma_level(toks, p, src_len, ObservationLevel::FollowedBy);
}

/// A comparison expression that parses consumes at least one token and ends
/// within the tokens; so does each of its parts, and the parser's guard
/// against a step that makes no progress never fires.
pub proof fn comparison_parse_moves_forward(toks: Seq<SpecToken>, p: int, src_len: int)
    requires
        0 <= p,
    ensures
        moves_forward(comparison_expression_at(toks, p, src_len), toks, p),
        moves_forward(comparison_and_at(toks, p, src_len), toks, p),
        moves_forward(prop_test_at(toks, p, src_len), toks, p),
{
    lemma_comparison_expression(toks, p, src_len);
    lemma_and(toks, p, src_len);
    lemma_prop_test(toks, p, src_len);
}

/// An observation expression that parses consumes at least one token and
/// ends within the tokens; so does each of its parts (qualifiers included),
/// and the parser's guard against a step that makes no progress never fires.
pub proof fn observation_parse_moves_forward(toks: Seq<SpecToken>, p: int, src_len: int)
    requires
        0 <= p,
    ensures
        moves_forward(observation_expression_at(toks, p, src_len), toks, p),
        moves_forward(observation_qualified_at(toks, p, src_len), toks, p),
        moves_forward(qualifier_at(toks, p, src_len), toks, p),
        forall|level: ObservationLevel| moves_forward(#[trigger] operand_at(toks, p, src_len, level), toks, p),
{
    lemma_observation_expression(toks, p, src_len);
    lemma_qualified(toks, p, src_len);
    lemma_qualifier(toks, p, src_len);
    assert forall|level: ObservationLevel| moves_forward(#[trigger] operand_at(toks, p, src_len, level), toks, p) by {
        lemma_operand(toks, p, src_len, level);
    }
}

} // verus!
