//! Recursive-descent parser: tokens -> AST.
//!
//! Grammar (loosest binding first):
//!
//! ```text
//! pattern      := obsFollowed EOF
//! obsFollowed  := obsOr ( FOLLOWEDBY obsOr )*
//! obsOr        := obsAnd ( OR obsAnd )*
//! obsAnd       := obsQualified ( AND obsQualified )*
//! obsQualified := obsPrimary ( WITHIN number SECONDS | REPEATS int TIMES
//!                            | START timestamp STOP timestamp )*
//! obsPrimary   := '[' cmpOr ']' | '(' obsFollowed ')'
//! cmpOr        := cmpAnd ( OR cmpAnd )*
//! cmpAnd       := propTest ( AND propTest )*
//! propTest     := '(' cmpOr ')' | EXISTS path | path NOT? operator operand
//! path         := identifier ':' key ( '.' key | '[' (int | '*') ']' )*
//! ```
//!
//! Each production has a mathematical statement (`..._at`) over the token
//! sequence: the node it builds and the position after it, or the error. The
//! parser computes exactly these.

use vstd::prelude::*;

use crate::binary64::{binary64_of_i64, binary64_of_int};
use crate::pattern::ast::{
    Comparison, ComparisonExpression, ComparisonOperand, ComparisonOperator, Literal, LiteralOf,
    ObjectPath, ObservationExpression, PathStep, PathStepOf, Pattern, Qualifier, QualifierOf,
    SpecComparison, SpecComparisonExpression, SpecComparisonOperand, SpecLiteral, SpecObjectPath,
    SpecObservationExpression, SpecPathStep, SpecPattern, SpecQualifier,
};
use crate::pattern::error::{ParseError, ParseErrorV, Span};
use crate::pattern::lexer::{
    kind_tag, is_plain_kind, spec_tokenize, tag_of, tokenize, tokens_view,
    SpecToken, SpecTokenKind, Token, TokenKind, TokenKindOf,
};
use crate::text::{push_str_chars, string_from_chars};
use vstd::string::StringSliceAdditionalSpecFns;

verus! {

/// A parse of a production: the node and the position after it, or an error.
pub type PResult<T> = Result<(T, int), ParseErrorV>;

/// The kind of the token at `p`, if any.
pub open spec fn kind_at(toks: Seq<SpecToken>, p: int) -> Option<SpecTokenKind> {
    if 0 <= p < toks.len() {
        Some(toks[p].kind)
    } else {
        None
    }
}

/// The span of the token at `p`, or the empty span at the end of the source.
pub open spec fn span_at(toks: Seq<SpecToken>, p: int, src_len: int) -> Span {
    if 0 <= p < toks.len() {
        toks[p].span
    } else {
        Span { start: src_len as usize, end: src_len as usize }
    }
}

/// An error with the given message at the token at `p`.
pub open spec fn error_at_token(
    message: Seq<char>,
    toks: Seq<SpecToken>,
    p: int,
    src_len: int,
) -> ParseErrorV {
    ParseErrorV { message, span: span_at(toks, p, src_len) }
}

/// The position after consuming one token, if there is one.
pub open spec fn advanced(toks: Seq<SpecToken>, p: int) -> int {
    if 0 <= p < toks.len() {
        p + 1
    } else {
        p
    }
}

/// Consume a token of kind `want` at `p`, or fail with "expected {what}".
pub open spec fn expect_at(
    toks: Seq<SpecToken>,
    p: int,
    src_len: int,
    want: SpecTokenKind,
    what: Seq<char>,
) -> Result<int, ParseErrorV> {
    if kind_at(toks, p) == Some(want) {
        Ok(p + 1)
    } else {
        Err(error_at_token("expected "@ + what, toks, p, src_len))
    }
}

/// Whether a parse that started at `p` moved forward and stayed in bounds.
/// Every successful step does (see `progress`), so the guards that test this
/// never reject a parse.
pub open spec fn progressed(toks: Seq<SpecToken>, p: int, q: int) -> bool {
    p < q <= toks.len()
}

/// A property name: an identifier or a quoted string.
pub open spec fn key_component_at(toks: Seq<SpecToken>, p: int, src_len: int) -> PResult<Seq<char>> {
    match kind_at(toks, p) {
        Some(TokenKindOf::Identifier(s)) => Ok((s, p + 1)),
        Some(TokenKindOf::String(s)) => Ok((s, p + 1)),
        _ => Err(error_at_token("expected property name"@, toks, advanced(toks, p), src_len)),
    }
}

/// The `]` that closes an index step, then the remaining steps.
pub open spec fn close_index_at(
    toks: Seq<SpecToken>,
    p: int,
    src_len: int,
    steps: Seq<SpecPathStep>,
    step: SpecPathStep,
) -> PResult<Seq<SpecPathStep>>
    decreases toks.len() - p, 0int,
{
    match expect_at(toks, p, src_len, TokenKindOf::RBracket, "']' to close index"@) {
        Ok(q) => path_steps_at(toks, q, src_len, steps.push(step)),
        Err(e) => Err(e),
    }
}

/// The steps after the first key of an object path: `.key`, `[n]` or `[*]`.
pub open spec fn path_steps_at(
    toks: Seq<SpecToken>,
    p: int,
    src_len: int,
    steps: Seq<SpecPathStep>,
) -> PResult<Seq<SpecPathStep>>
    decreases toks.len() - p, 1int,
{
    if p < 0 || p >= toks.len() {
        Ok((steps, p))
    } else {
        match toks[p].kind {
            TokenKindOf::Dot => match key_component_at(toks, p + 1, src_len) {
                Ok((k, q)) => path_steps_at(toks, q, src_len, steps.push(PathStepOf::Key(k))),
                Err(e) => Err(e),
            },
            TokenKindOf::LBracket => match kind_at(toks, p + 1) {
                Some(TokenKindOf::Star) => close_index_at(
                    toks,
                    p + 2,
                    src_len,
                    steps,
                    PathStepOf::AnyIndex,
                ),
                Some(TokenKindOf::Integer(n)) => if n < 0 {
                    Err(error_at_token("list index must be non-negative"@, toks, p + 2, src_len))
                } else {
                    close_index_at(toks, p + 2, src_len, steps, PathStepOf::Index(n as u64))
                },
                _ => Err(
                    error_at_token("expected index or '*' in '[...]'"@, toks, p + 1, src_len),
                ),
            },
            _ => Ok((steps, p)),
        }
    }
}

/// An object path: `object-type ':' key steps`.
pub open spec fn object_path_at(toks: Seq<SpecToken>, p: int, src_len: int) -> PResult<SpecObjectPath> {
    match kind_at(toks, p) {
        Some(TokenKindOf::Identifier(t)) => match expect_at(
            toks,
            p + 1,
            src_len,
            TokenKindOf::Colon,
            "':' after object type"@,
        ) {
            Ok(q) => match key_component_at(toks, q, src_len) {
                Ok((k, q2)) => match path_steps_at(toks, q2, src_len, seq![PathStepOf::Key(k)]) {
                    Ok((steps, q3)) => Ok((SpecObjectPath { object_type: t, steps }, q3)),
                    Err(e) => Err(e),
                },
                Err(e) => Err(e),
            },
            Err(e) => Err(e),
        },
        _ => Err(
            error_at_token("expected object type identifier"@, toks, advanced(toks, p), src_len),
        ),
    }
}

/// A literal value.
pub open spec fn literal_at(toks: Seq<SpecToken>, p: int, src_len: int) -> PResult<SpecLiteral> {
    match kind_at(toks, p) {
        Some(TokenKindOf::String(s)) => Ok((LiteralOf::String(s), p + 1)),
        Some(TokenKindOf::Integer(n)) => Ok((LiteralOf::Integer(n), p + 1)),
        Some(TokenKindOf::Float(b)) => Ok((LiteralOf::Float(b), p + 1)),
        Some(TokenKindOf::Boolean(b)) => Ok((LiteralOf::Boolean(b), p + 1)),
        Some(TokenKindOf::Timestamp(s)) => Ok((LiteralOf::Timestamp(s), p + 1)),
        Some(TokenKindOf::Binary(s)) => Ok((LiteralOf::Binary(s), p + 1)),
        Some(TokenKindOf::Hex(s)) => Ok((LiteralOf::Hex(s), p + 1)),
        _ => Err(error_at_token("expected a literal value"@, toks, p, src_len)),
    }
}

/// The items of a set literal after the first: `( ',' literal )*`.
pub open spec fn set_items_at(
    toks: Seq<SpecToken>,
    p: int,
    src_len: int,
    items: Seq<SpecLiteral>,
) -> PResult<Seq<SpecLiteral>>
    decreases toks.len() - p,
{
    if kind_at(toks, p) == Some(TokenKindOf::<Seq<char>>::Comma) {
        match literal_at(toks, p + 1, src_len) {
            Ok((l, q)) => set_items_at(toks, q, src_len, items.push(l)),
            Err(e) => Err(e),
        }
    } else {
        Ok((items, p))
    }
}

/// The closing `)` of a set literal, after its items.
pub open spec fn close_set_at(
    toks: Seq<SpecToken>,
    src_len: int,
    items: PResult<Seq<SpecLiteral>>,
) -> PResult<SpecComparisonOperand> {
    match items {
        Ok((items, q)) => match expect_at(toks, q, src_len, TokenKindOf::RParen, "')' to close set literal"@) {
            Ok(q2) => Ok((SpecComparisonOperand::SetLiteral(items), q2)),
            Err(e) => Err(e),
        },
        Err(e) => Err(e),
    }
}

/// A set literal: `'(' literal ( ',' literal )* ')'`.
pub open spec fn set_literal_at(toks: Seq<SpecToken>, p: int, src_len: int) -> PResult<SpecComparisonOperand> {
    match expect_at(toks, p, src_len, TokenKindOf::LParen, "'(' to open set literal"@) {
        Ok(q) => match literal_at(toks, q, src_len) {
            Ok((first, q2)) => close_set_at(toks, src_len, set_items_at(toks, q2, src_len, seq![first])),
            Err(e) => Err(e),
        },
        Err(e) => Err(e),
    }
}

/// The comparison operator that a token kind denotes, if any.
pub open spec fn operator_of(k: SpecTokenKind) -> Option<ComparisonOperator> {
    match k {
        TokenKindOf::Equal => Some(ComparisonOperator::Equal),
        TokenKindOf::NotEqual => Some(ComparisonOperator::NotEqual),
        TokenKindOf::GreaterThan => Some(ComparisonOperator::GreaterThan),
        TokenKindOf::GreaterThanOrEqual => Some(ComparisonOperator::GreaterThanOrEqual),
        TokenKindOf::LessThan => Some(ComparisonOperator::LessThan),
        TokenKindOf::LessThanOrEqual => Some(ComparisonOperator::LessThanOrEqual),
        TokenKindOf::In => Some(ComparisonOperator::In),
        TokenKindOf::Like => Some(ComparisonOperator::Like),
        TokenKindOf::Matches => Some(ComparisonOperator::Matches),
        TokenKindOf::IsSubset => Some(ComparisonOperator::IsSubset),
        TokenKindOf::IsSuperset => Some(ComparisonOperator::IsSuperset),
        _ => None,
    }
}

/// Distinct operator tokens denote distinct operators, and the tokens that
/// denote an operator are exactly the eleven comparison-operator tokens.
pub proof fn operators_are_distinct(k1: SpecTokenKind, k2: SpecTokenKind)
    ensures
        operator_of(k1) is Some && operator_of(k1) == operator_of(k2) ==> k1 == k2,
        operator_of(k1) is Some <==> (k1 is Equal || k1 is NotEqual || k1 is GreaterThan || k1 is GreaterThanOrEqual
            || k1 is LessThan || k1 is LessThanOrEqual || k1 is In || k1 is Like || k1 is Matches || k1 is IsSubset
            || k1 is IsSuperset),
{
}

/// `objectPath NOT? operator operand`, with the path already read.
pub open spec fn test_rest_at(
    toks: Seq<SpecToken>,
    p: int,
    src_len: int,
    path: SpecObjectPath,
) -> PResult<SpecComparisonExpression> {
    let negated = kind_at(toks, p) == Some(TokenKindOf::<Seq<char>>::Not);
    let q = if negated { p + 1 } else { p };
    match kind_at(toks, q) {
        Some(k) if operator_of(k) is Some => {
            let op = operator_of(k)->0;
            let value = if op == ComparisonOperator::In {
                set_literal_at(toks, q + 1, src_len)
            } else {
                match literal_at(toks, q + 1, src_len) {
                    Ok((l, q2)) => Ok((SpecComparisonOperand::Literal(l), q2)),
                    Err(e) => Err(e),
                }
            };
            match value {
                Ok((v, q2)) => Ok(
                    (
                        SpecComparisonExpression::Test(
                            SpecComparison { path, operator: op, negated, value: v },
                        ),
                        q2,
                    ),
                ),
                Err(e) => Err(e),
            }
        },
        _ => Err(error_at_token("expected a comparison operator"@, toks, q, src_len)),
    }
}

/// A property test: a parenthesized comparison expression, `EXISTS path`, or
/// `path NOT? operator operand`.
pub open spec fn prop_test_at(toks: Seq<SpecToken>, p: int, src_len: int) -> PResult<SpecComparisonExpression>
    decreases toks.len() - p, 0int,
{
    if p < 0 || p >= toks.len() {
        match object_path_at(toks, p, src_len) {
            Ok((path, q)) => test_rest_at(toks, q, src_len, path),
            Err(e) => Err(e),
        }
    } else if toks[p].kind == TokenKindOf::<Seq<char>>::LParen {
        match comparison_expression_at(toks, p + 1, src_len) {
            Ok((inner, q)) => match expect_at(
                toks,
                q,
                src_len,
                TokenKindOf::RParen,
                "')' to close comparison group"@,
            ) {
                Ok(q2) => Ok((inner, q2)),
                Err(e) => Err(e),
            },
            Err(e) => Err(e),
        }
    } else if toks[p].kind == TokenKindOf::<Seq<char>>::Exists {
        match object_path_at(toks, p + 1, src_len) {
            Ok((path, q)) => Ok(
                (
                    SpecComparisonExpression::Test(
                        SpecComparison {
                            path,
                            operator: ComparisonOperator::Exists,
                            negated: false,
                            value: SpecComparisonOperand::Literal(LiteralOf::Boolean(true)),
                        },
                    ),
                    q,
                ),
            ),
            Err(e) => Err(e),
        }
    } else {
        match object_path_at(toks, p, src_len) {
            Ok((path, q)) => test_rest_at(toks, q, src_len, path),
            Err(e) => Err(e),
        }
    }
}

/// `( AND propTest )*` after `left`.
pub open spec fn comparison_and_tail_at(
    toks: Seq<SpecToken>,
    p: int,
    src_len: int,
    left: SpecComparisonExpression,
) -> PResult<SpecComparisonExpression>
    decreases toks.len() - p, 0int,
{
    if 0 <= p < toks.len() && toks[p].kind == TokenKindOf::<Seq<char>>::And {
        match prop_test_at(toks, p + 1, src_len) {
            Ok((right, q)) => if progressed(toks, p, q) {
                comparison_and_tail_at(
                    toks,
                    q,
                    src_len,
                    SpecComparisonExpression::And(Box::new(left), Box::new(right)),
                )
            } else {
                Err(error_at_token("parser made no progress"@, toks, q, src_len))
            },
            Err(e) => Err(e),
        }
    } else {
        Ok((left, p))
    }
}

/// `propTest ( AND propTest )*`.
pub open spec fn comparison_and_at(toks: Seq<SpecToken>, p: int, src_len: int) -> PResult<SpecComparisonExpression>
    decreases toks.len() - p, 1int,
{
    match prop_test_at(toks, p, src_len) {
        Ok((left, q)) => if progressed(toks, p, q) {
            comparison_and_tail_at(toks, q, src_len, left)
        } else {
            Err(error_at_token("parser made no progress"@, toks, q, src_len))
        },
        Err(e) => Err(e),
    }
}

/// `( OR cmpAnd )*` after `left`.
pub open spec fn comparison_or_tail_at(
    toks: Seq<SpecToken>,
    p: int,
    src_len: int,
    left: SpecComparisonExpression,
) -> PResult<SpecComparisonExpression>
    decreases toks.len() - p, 0int,
{
    if 0 <= p < toks.len() && toks[p].kind == TokenKindOf::<Seq<char>>::Or {
        match comparison_and_at(toks, p + 1, src_len) {
            Ok((right, q)) => if progressed(toks, p, q) {
                comparison_or_tail_at(
                    toks,
                    q,
                    src_len,
                    SpecComparisonExpression::Or(Box::new(left), Box::new(right)),
                )
            } else {
                Err(error_at_token("parser made no progress"@, toks, q, src_len))
            },
            Err(e) => Err(e),
        }
    } else {
        Ok((left, p))
    }
}

/// `cmpAnd ( OR cmpAnd )*`: AND binds tighter than OR; both associate to the left.
pub open spec fn comparison_expression_at(
    toks: Seq<SpecToken>,
    p: int,
    src_len: int,
) -> PResult<SpecComparisonExpression>
    decreases toks.len() - p, 2int,
{
    match comparison_and_at(toks, p, src_len) {
        Ok((left, q)) => if progressed(toks, p, q) {
            comparison_or_tail_at(toks, q, src_len, left)
        } else {
            Err(error_at_token("parser made no progress"@, toks, q, src_len))
        },
        Err(e) => Err(e),
    }
}

} // verus!

verus! {

/// Whether a token is a positive number usable after `WITHIN`, and its
/// binary64 value.
pub open spec fn within_seconds(k: SpecTokenKind) -> Option<u64> {
    match k {
        TokenKindOf::Integer(n) => if n > 0 { Some(binary64_of_int(n as int)) } else { None },
        TokenKindOf::Float(b) => if b != 0 && b < 0x8000_0000_0000_0000 { Some(b) } else { None },
        _ => None,
    }
}

/// One qualifier at `p` (whose token is WITHIN, REPEATS or START).
pub open spec fn qualifier_at(toks: Seq<SpecToken>, p: int, src_len: int) -> PResult<SpecQualifier> {
    match kind_at(toks, p) {
        Some(TokenKindOf::Within) => match kind_at(toks, p + 1) {
            Some(k) if within_seconds(k) is Some => match expect_at(
                toks,
                p + 2,
                src_len,
                TokenKindOf::Seconds,
                "SECONDS after WITHIN value"@,
            ) {
                Ok(q) => Ok((QualifierOf::Within { seconds: within_seconds(k)->0 }, q)),
                Err(e) => Err(e),
            },
            _ => Err(
                error_at_token("expected a positive number after WITHIN"@, toks, p + 1, src_len),
            ),
        },
        Some(TokenKindOf::Repeats) => match kind_at(toks, p + 1) {
            Some(TokenKindOf::Integer(n)) if n > 0 => match expect_at(
                toks,
                p + 2,
                src_len,
                TokenKindOf::Times,
                "TIMES after REPEATS count"@,
            ) {
                Ok(q) => Ok((QualifierOf::Repeats { count: n as u64 }, q)),
                Err(e) => Err(e),
            },
            _ => Err(
                error_at_token("expected a positive integer after REPEATS"@, toks, p + 1, src_len),
            ),
        },
        _ => match kind_at(toks, p + 1) {
            Some(TokenKindOf::Timestamp(start)) => match expect_at(
                toks,
                p + 2,
                src_len,
                TokenKindOf::Stop,
                "STOP after START timestamp"@,
            ) {
                Ok(q) => match kind_at(toks, q) {
                    Some(TokenKindOf::Timestamp(stop)) => Ok(
                        (QualifierOf::StartStop { start, stop }, q + 1),
                    ),
                    _ => Err(
                        error_at_token("expected a timestamp after STOP"@, toks, q, src_len),
                    ),
                },
                Err(e) => Err(e),
            },
            _ => Err(error_at_token("expected a timestamp after START"@, toks, p + 1, src_len)),
        },
    }
}

/// Whether the token at `p` starts a qualifier.
pub open spec fn starts_qualifier(toks: Seq<SpecToken>, p: int) -> bool {
    kind_at(toks, p) == Some(TokenKindOf::<Seq<char>>::Within) || kind_at(toks, p) == Some(
        TokenKindOf::<Seq<char>>::Repeats,
    ) || kind_at(toks, p) == Some(TokenKindOf::<Seq<char>>::Start)
}

/// Qualifiers after an observation expression, applied left to right.
pub open spec fn qualifiers_at(
    toks: Seq<SpecToken>,
    p: int,
    src_len: int,
    e: SpecObservationExpression,
) -> PResult<SpecObservationExpression>
    decreases toks.len() - p,
{
    if starts_qualifier(toks, p) {
        match qualifier_at(toks, p, src_len) {
            Ok((qual, q)) => if progressed(toks, p, q) {
                qualifiers_at(
                    toks,
                    q,
                    src_len,
                    SpecObservationExpression::Qualified { expression: Box::new(e), qualifier: qual },
                )
            } else {
                Err(error_at_token("parser made no progress"@, toks, q, src_len))
            },
            Err(err) => Err(err),
        }
    } else {
        Ok((e, p))
    }
}

/// `'[' cmpOr ']'` or `'(' obsFollowed ')'`.
pub open spec fn observation_primary_at(
    toks: Seq<SpecToken>,
    p: int,
    src_len: int,
) -> PResult<SpecObservationExpression>
    decreases toks.len() - p, 0int,
{
    if kind_at(toks, p) == Some(TokenKindOf::<Seq<char>>::LBracket) {
        match comparison_expression_at(toks, p + 1, src_len) {
            Ok((c, q)) => match expect_at(
                toks,
                q,
                src_len,
                TokenKindOf::RBracket,
                "']' to close observation"@,
            ) {
                Ok(q2) => Ok((SpecObservationExpression::Observation(c), q2)),
                Err(e) => Err(e),
            },
            Err(e) => Err(e),
        }
    } else if kind_at(toks, p) == Some(TokenKindOf::<Seq<char>>::LParen) {
        match observation_expression_at(toks, p + 1, src_len) {
            Ok((inner, q)) => match expect_at(
                toks,
                q,
                src_len,
                TokenKindOf::RParen,
                "')' to close observation group"@,
            ) {
                Ok(q2) => Ok((inner, q2)),
                Err(e) => Err(e),
            },
            Err(e) => Err(e),
        }
    } else {
        Err(
            error_at_token(
                "expected '[' or '(' to start an observation expression"@,
                toks,
                p,
                src_len,
            ),
        )
    }
}

/// `obsPrimary qualifier*`.
pub open spec fn observation_qualified_at(
    toks: Seq<SpecToken>,
    p: int,
    src_len: int,
) -> PResult<SpecObservationExpression>
    decreases toks.len() - p, 1int,
{
    match observation_primary_at(toks, p, src_len) {
        Ok((e, q)) => if progressed(toks, p, q) {
            qualifiers_at(toks, q, src_len, e)
        } else {
            Err(error_at_token("parser made no progress"@, toks, q, src_len))
        },
        Err(err) => Err(err),
    }
}

/// The three binary observation operators, loosest last.
#[derive(Clone, Copy)]
pub enum ObservationLevel {
    And,
    Or,
    FollowedBy,
}

/// The keyword of a level.
pub open spec fn level_keyword(level: ObservationLevel) -> SpecTokenKind {
    match level {
        ObservationLevel::And => TokenKindOf::And,
        ObservationLevel::Or => TokenKindOf::Or,
        ObservationLevel::FollowedBy => TokenKindOf::FollowedBy,
    }
}

pub open spec fn level_rank(level: ObservationLevel) -> int {
    match level {
        ObservationLevel::And => 3,
        ObservationLevel::Or => 5,
        ObservationLevel::FollowedBy => 7,
    }
}

/// The node that joins two operands at a level.
pub open spec fn join_at_level(
    level: ObservationLevel,
    a: SpecObservationExpression,
    b: SpecObservationExpression,
) -> SpecObservationExpression {
    match level {
        ObservationLevel::And => SpecObservationExpression::And(Box::new(a), Box::new(b)),
        ObservationLevel::Or => SpecObservationExpression::Or(Box::new(a), Box::new(b)),
        ObservationLevel::FollowedBy => SpecObservationExpression::FollowedBy(Box::new(a), Box::new(b)),
    }
}

/// An operand of a level: the next tighter level (qualified observations for AND).
pub open spec fn operand_at(
    toks: Seq<SpecToken>,
    p: int,
    src_len: int,
    level: ObservationLevel,
) -> PResult<SpecObservationExpression>
    decreases toks.len() - p, level_rank(level) - 1,
{
    match level {
        ObservationLevel::And => observation_qualified_at(toks, p, src_len),
        ObservationLevel::Or => observation_level_at(toks, p, src_len, ObservationLevel::And),
        ObservationLevel::FollowedBy => observation_level_at(toks, p, src_len, ObservationLevel::Or),
    }
}

/// `( keyword operand )*` after `left`, associating to the left.
pub open spec fn observation_tail_at(
    toks: Seq<SpecToken>,
    p: int,
    src_len: int,
    level: ObservationLevel,
    left: SpecObservationExpression,
) -> PResult<SpecObservationExpression>
    decreases toks.len() - p, 0int,
{
    if 0 <= p < toks.len() && toks[p].kind == level_keyword(level) {
        match operand_at(toks, p + 1, src_len, level) {
            Ok((right, q)) => if progressed(toks, p, q) {
                observation_tail_at(toks, q, src_len, level, join_at_level(level, left, right))
            } else {
                Err(error_at_token("parser made no progress"@, toks, q, src_len))
            },
            Err(e) => Err(e),
        }
    } else {
        Ok((left, p))
    }
}

/// `operand ( keyword operand )*` at a level.
pub open spec fn observation_level_at(
    toks: Seq<SpecToken>,
    p: int,
    src_len: int,
    level: ObservationLevel,
) -> PResult<SpecObservationExpression>
    decreases toks.len() - p, level_rank(level),
{
    match operand_at(toks, p, src_len, level) {
        Ok((left, q)) => if progressed(toks, p, q) {
            observation_tail_at(toks, q, src_len, level, left)
        } else {
            Err(error_at_token("parser made no progress"@, toks, q, src_len))
        },
        Err(e) => Err(e),
    }
}

/// A whole observation expression: FOLLOWEDBY binds loosest, then OR, then AND.
pub open spec fn observation_expression_at(
    toks: Seq<SpecToken>,
    p: int,
    src_len: int,
) -> PResult<SpecObservationExpression>
    decreases toks.len() - p, 8int,
{
    observation_level_at(toks, p, src_len, ObservationLevel::FollowedBy)
}

/// A whole pattern: an observation expression that uses up every token.
pub open spec fn pattern_of_tokens(toks: Seq<SpecToken>, src_len: int) -> Result<SpecPattern, ParseErrorV> {
    match observation_expression_at(toks, 0, src_len) {
        Ok((e, q)) => if q == toks.len() {
            Ok(SpecPattern { expression: e })
        } else {
            Err(error_at_token("unexpected token after pattern"@, toks, q, src_len))
        },
        Err(err) => Err(err),
    }
}

/// The pattern that a source string denotes: its tokens, parsed.
pub open spec fn spec_parse(src: Seq<u8>) -> Result<SpecPattern, ParseErrorV> {
    match spec_tokenize(src) {
        Ok(toks) => pattern_of_tokens(toks, src.len() as int),
        Err(e) => Err(e),
    }
}

} // verus!

verus! {

/// The mathematical form of a parse result.
pub open spec fn pattern_result_view(r: Result<Pattern, ParseError>) -> Result<SpecPattern, ParseErrorV> {
    match r {
        Ok(p) => Ok(p@),
        Err(e) => Err(e@),
    }
}

/// Whether a computed result agrees with a production's statement:
/// on success the node's view and the new position, on failure the error.
pub open spec fn agrees<T: View>(
    r: Result<T, ParseError>,
    expected: PResult<T::V>,
    new_pos: usize,
) -> bool {
    match r {
        Ok(v) => expected == Ok::<(T::V, int), ParseErrorV>((v@, new_pos as int)),
        Err(e) => expected == Err::<(T::V, int), ParseErrorV>(e@),
    }
}

proof fn lemma_tag_view(k: TokenKind)
    ensures
        kind_tag(k@) == kind_tag(k),
{
}

proof fn lemma_plain_tag(k: SpecTokenKind, w: SpecTokenKind)
    requires
        is_plain_kind(w),
        kind_tag(k) == kind_tag(w),
    ensures
        k == w,
{
}

/// A cursor over the tokens of one pattern.
pub struct Parser<'a> {
    pub tokens: &'a [Token],
    pub pos: usize,
    /// Length of the source string, used to build end-of-input spans.
    pub src_len: usize,
}

impl<'a> Parser<'a> {
    pub open spec fn toks(&self) -> Seq<SpecToken> {
        tokens_view(self.tokens@)
    }

    pub open spec fn at(&self) -> int {
        self.pos as int
    }

    pub open spec fn n(&self) -> int {
        self.src_len as int
    }

    pub open spec fn wf(&self) -> bool {
        self.pos <= self.tokens@.len() <= usize::MAX
    }

    /// The same token sequence and source length.
    pub open spec fn same_input(&self, other: &Parser<'a>) -> bool {
        self.tokens == other.tokens && self.src_len == other.src_len && self.wf()
    }

    pub fn new(tokens: &'a [Token], src: &str) -> (p: Parser<'a>)
        ensures
            p.tokens == tokens,
            p.pos == 0,
            p.src_len == src.spec_bytes().len(),
            p.wf(),
    {
        let bytes = src.as_bytes();
        let _count = tokens.len();
        Parser { tokens, pos: 0, src_len: bytes.len() }
    }

    // --- cursor helpers ---
    fn peek(&self) -> (r: Option<&'a TokenKind>)
        requires
            self.wf(),
        ensures
            match r {
                Some(k) => kind_at(self.toks(), self.at()) == Some(k@),
                None => kind_at(self.toks(), self.at()) is None,
            },
    {
        if self.pos < self.tokens.len() {
            Some(&self.tokens[self.pos].kind)
        } else {
            None
        }
    }

    fn current_span(&self) -> (s: Span)
        requires
            self.wf(),
        ensures
            s == span_at(self.toks(), self.at(), self.n()),
    {
        if self.pos < self.tokens.len() {
            self.tokens[self.pos].span
        } else {
            Span::new(self.src_len, self.src_len)
        }
    }

    fn advance(&mut self) -> (r: Option<&'a Token>)
        requires
            old(self).wf(),
        ensures
            final(self).same_input(old(self)),
            final(self).at() == advanced(old(self).toks(), old(self).at()),
            match r {
                Some(t) => old(self).at() < old(self).toks().len() && old(self).toks()[old(
                    self,
                ).at()] == t@,
                None => old(self).at() >= old(self).toks().len(),
            },
    {
        if self.pos < self.tokens.len() {
            let t = &self.tokens[self.pos];
            self.pos = self.pos + 1;
            Some(t)
        } else {
            None
        }
    }

    fn at_end(&self) -> (r: bool)
        requires
            self.wf(),
        ensures
            r == (self.at() >= self.toks().len()),
    {
        self.pos >= self.tokens.len()
    }

    /// Consume the current token if its kind equals `want` (a kind without data).
    fn eat(&mut self, want: &TokenKind) -> (r: bool)
        requires
            old(self).wf(),
            is_plain_kind(want@),
        ensures
            final(self).same_input(old(self)),
            r == (kind_at(old(self).toks(), old(self).at()) == Some(want@)),
            r ==> final(self).at() == old(self).at() + 1,
            !r ==> final(self).at() == old(self).at(),
    {
        if self.pos < self.tokens.len() && tag_of(&self.tokens[self.pos].kind) == tag_of(want) {
            proof {
                lemma_tag_view(self.tokens@[self.at()].kind);
                lemma_tag_view(*want);
                lemma_plain_tag(self.tokens@[self.at()].kind@, want@);
            }
            self.pos = self.pos + 1;
            true
        } else {
            proof {
                if self.pos < self.tokens.len() {
                    lemma_tag_view(self.tokens@[self.at()].kind);
                    lemma_tag_view(*want);
                }
            }
            false
        }
    }

    fn expect(&mut self, want: &TokenKind, what: &str) -> (r: Result<(), ParseError>)
        requires
            old(self).wf(),
            is_plain_kind(want@),
        ensures
            final(self).same_input(old(self)),
            match r {
                Ok(()) => expect_at(old(self).toks(), old(self).at(), old(self).n(), want@, what@)
                    == Ok::<int, ParseErrorV>(final(self).at()),
                Err(e) => expect_at(old(self).toks(), old(self).at(), old(self).n(), want@, what@)
                    == Err::<int, ParseErrorV>(e@),
            },
    {
        if self.eat(want) {
            Ok(())
        } else {
            let mut m: Vec<char> = Vec::new();
            push_str_chars(&mut m, "expected ");
            push_str_chars(&mut m, what);
            Err(ParseError::new(string_from_chars(&m), self.current_span()))
        }
    }

    fn error_here(&self, msg: &str) -> (e: ParseError)
        requires
            self.wf(),
        ensures
            e@ == error_at_token(msg@, self.toks(), self.at(), self.n()),
    {
        ParseError::new(msg.to_owned(), self.current_span())
    }

    fn no_progress(&self) -> (e: ParseError)
        requires
            self.wf(),
        ensures
            e@ == error_at_token("parser made no progress"@, self.toks(), self.at(), self.n()),
    {
        self.error_here("parser made no progress")
    }

    // --- object path ---
    pub fn parse_object_path(&mut self) -> (r: Result<ObjectPath, ParseError>)
        requires
            old(self).wf(),
        ensures
            final(self).same_input(old(self)),
            agrees(r, object_path_at(old(self).toks(), old(self).at(), old(self).n()), final(self).pos),
    {
        let object_type = match self.advance() {
            Some(t) => match &t.kind {
                TokenKindOf::Identifier(s) => s.clone(),
                _ => {
                    return Err(self.error_here("expected object type identifier"));
                },
            },
            None => {
                return Err(self.error_here("expected object type identifier"));
            },
        };
        self.expect(&TokenKindOf::Colon, "':' after object type")?;
        let mut steps: Vec<PathStep> = Vec::new();
        let first = self.parse_key_component()?;
        steps.push(PathStepOf::Key(first));
        let ghost start = self.at();
        assert(steps@.map_values(|s: PathStep| s@) =~= seq![PathStepOf::Key(first@)]);
        let steps = self.parse_path_steps(steps)?;
        Ok(ObjectPath { object_type, steps })
    }

    /// The steps after the first key.
    fn parse_path_steps(&mut self, steps: Vec<PathStep>) -> (r: Result<Vec<PathStep>, ParseError>)
        requires
            old(self).wf(),
        ensures
            final(self).same_input(old(self)),
            match r {
                Ok(v) => path_steps_at(
                    old(self).toks(),
                    old(self).at(),
                    old(self).n(),
                    steps@.map_values(|s: PathStep| s@),
                ) == Ok::<(Seq<SpecPathStep>, int), ParseErrorV>(
                    (v@.map_values(|s: PathStep| s@), final(self).at()),
                ),
                Err(e) => path_steps_at(
                    old(self).toks(),
                    old(self).at(),
                    old(self).n(),
                    steps@.map_values(|s: PathStep| s@),
                ) == Err::<(Seq<SpecPathStep>, int), ParseErrorV>(e@),
            },
        decreases old(self).tokens@.len() - old(self).pos,
    {
        proof {
            reveal_with_fuel(path_steps_at, 2);
            reveal_with_fuel(close_index_at, 2);
        }
        let mut steps = steps;
        let ghost old_steps = steps@.map_values(|s: PathStep| s@);
        if self.pos >= self.tokens.len() {
            return Ok(steps);
        }
        let ghost p = self.at();
        match &self.tokens[self.pos].kind {
            TokenKindOf::Dot => {
                self.pos = self.pos + 1;
                let k = self.parse_key_component()?;
                let ghost kv = k@;
                steps.push(PathStepOf::Key(k));
                assert(steps@.map_values(|s: PathStep| s@) =~= old_steps.push(PathStepOf::Key(kv)));
                self.parse_path_steps(steps)
            },
            TokenKindOf::LBracket => {
                self.pos = self.pos + 1;
                let step = match self.peek() {
                    Some(TokenKindOf::Star) => {
                        self.pos = self.pos + 1;
                        PathStepOf::AnyIndex
                    },
                    Some(TokenKindOf::Integer(n)) => {
                        let n = *n;
                        self.pos = self.pos + 1;
                        if n < 0 {
                            return Err(self.error_here("list index must be non-negative"));
                        }
                        PathStepOf::Index(n as u64)
                    },
                    _ => {
                        return Err(self.error_here("expected index or '*' in '[...]'"));
                    },
                };
                let ghost sv = step@;
                self.expect(&TokenKindOf::RBracket, "']' to close index")?;
                steps.push(step);
                assert(steps@.map_values(|s: PathStep| s@) =~= old_steps.push(sv));
                self.parse_path_steps(steps)
            },
            _ => Ok(steps),
        }
    }

    fn parse_key_component(&mut self) -> (r: Result<String, ParseError>)
        requires
            old(self).wf(),
        ensures
            final(self).same_input(old(self)),
            match r {
                Ok(s) => key_component_at(old(self).toks(), old(self).at(), old(self).n()) == Ok::<
                    (Seq<char>, int),
                    ParseErrorV,
                >((s@, final(self).at())),
                Err(e) => key_component_at(old(self).toks(), old(self).at(), old(self).n())
                    == Err::<(Seq<char>, int), ParseErrorV>(e@),
            },
    {
        match self.advance() {
            Some(t) => match &t.kind {
                TokenKindOf::Identifier(s) => Ok(s.clone()),
                TokenKindOf::String(s) => Ok(s.clone()),
                _ => Err(self.error_here("expected property name")),
            },
            None => Err(self.error_here("expected property name")),
        }
    }


    /// Whether the current token has kind `want` (a kind without data).
    fn at_kind(&self, want: &TokenKind) -> (r: bool)
        requires
            self.wf(),
            is_plain_kind(want@),
        ensures
            r == (kind_at(self.toks(), self.at()) == Some(want@)),
            r ==> self.at() < self.toks().len(),
    {
        if self.pos < self.tokens.len() && tag_of(&self.tokens[self.pos].kind) == tag_of(want) {
            proof {
                lemma_tag_view(self.tokens@[self.at()].kind);
                lemma_tag_view(*want);
                lemma_plain_tag(self.tokens@[self.at()].kind@, want@);
            }
            true
        } else {
            proof {
                if self.pos < self.tokens.len() {
                    lemma_tag_view(self.tokens@[self.at()].kind);
                    lemma_tag_view(*want);
                }
            }
            false
        }
    }

    // --- comparison expressions ---
    pub fn parse_comparison_expression(&mut self) -> (r: Result<ComparisonExpression, ParseError>)
        requires
            old(self).wf(),
        ensures
            final(self).same_input(old(self)),
            agrees(
                r,
                comparison_expression_at(old(self).toks(), old(self).at(), old(self).n()),
                final(self).pos,
            ),
        decreases old(self).tokens@.len() - old(self).pos, 2int,
    {
        let p0 = self.pos;
        let ghost toks = self.toks();
        let ghost n = self.n();
        let ghost tokens = self.tokens;
        let mut left = self.parse_comparison_and()?;
        if !(p0 < self.pos && self.pos <= self.tokens.len()) {
            return Err(self.no_progress());
        }
        while self.at_kind(&TokenKindOf::Or)
            invariant
                self.wf(),
                self.tokens == tokens,
                self.src_len == n,
                old(self).tokens == tokens,
                old(self).src_len == n,
                toks == self.toks(),
                p0 < self.pos,
                old(self).pos == p0,
                comparison_expression_at(toks, p0 as int, n) == comparison_or_tail_at(
                    toks,
                    self.at(),
                    n,
                    left@,
                ),
            decreases self.tokens@.len() - self.pos,
        {
            let p = self.pos;
            self.pos = self.pos + 1;
            let right = self.parse_comparison_and()?;
            if !(p < self.pos && self.pos <= self.tokens.len()) {
                return Err(self.no_progress());
            }
            left = ComparisonExpression::Or(Box::new(left), Box::new(right));
        }
        Ok(left)
    }

    fn parse_comparison_and(&mut self) -> (r: Result<ComparisonExpression, ParseError>)
        requires
            old(self).wf(),
        ensures
            final(self).same_input(old(self)),
            agrees(
                r,
                comparison_and_at(old(self).toks(), old(self).at(), old(self).n()),
                final(self).pos,
            ),
        decreases old(self).tokens@.len() - old(self).pos, 1int,
    {
        let p0 = self.pos;
        let ghost toks = self.toks();
        let ghost n = self.n();
        let ghost tokens = self.tokens;
        let mut left = self.parse_prop_test()?;
        if !(p0 < self.pos && self.pos <= self.tokens.len()) {
            return Err(self.no_progress());
        }
        while self.at_kind(&TokenKindOf::And)
            invariant
                self.wf(),
                self.tokens == tokens,
                self.src_len == n,
                old(self).tokens == tokens,
                old(self).src_len == n,
                toks == self.toks(),
                p0 < self.pos,
                old(self).pos == p0,
                comparison_and_at(toks, p0 as int, n) == comparison_and_tail_at(toks, self.at(), n, left@),
            decreases self.tokens@.len() - self.pos,
        {
            let p = self.pos;
            self.pos = self.pos + 1;
            let right = self.parse_prop_test()?;
            if !(p < self.pos && self.pos <= self.tokens.len()) {
                return Err(self.no_progress());
            }
            left = ComparisonExpression::And(Box::new(left), Box::new(right));
        }
        Ok(left)
    }

    fn parse_prop_test(&mut self) -> (r: Result<ComparisonExpression, ParseError>)
        requires
            old(self).wf(),
        ensures
            final(self).same_input(old(self)),
            agrees(r, prop_test_at(old(self).toks(), old(self).at(), old(self).n()), final(self).pos),
        decreases old(self).tokens@.len() - old(self).pos, 0int,
    {
        // Parenthesized sub-expression
        if self.eat(&TokenKindOf::LParen) {
            let inner = self.parse_comparison_expression()?;
            self.expect(&TokenKindOf::RParen, "')' to close comparison group")?;
            return Ok(inner);
        }
        // EXISTS objectPath
        if self.eat(&TokenKindOf::Exists) {
            let path = self.parse_object_path()?;
            return Ok(
                ComparisonExpression::Test(
                    Comparison {
                        path,
                        operator: ComparisonOperator::Exists,
                        negated: false,
                        // operand unused for EXISTS; a benign placeholder.
                        value: ComparisonOperand::Literal(LiteralOf::Boolean(true)),
                    },
                ),
            );
        }
        // objectPath NOT? operator operand
        let path = self.parse_object_path()?;
        self.parse_test_rest(path)
    }

    fn parse_test_rest(&mut self, path: ObjectPath) -> (r: Result<ComparisonExpression, ParseError>)
        requires
            old(self).wf(),
        ensures
            final(self).same_input(old(self)),
            agrees(
                r,
                test_rest_at(old(self).toks(), old(self).at(), old(self).n(), path@),
                final(self).pos,
            ),
    {
        let negated = self.eat(&TokenKindOf::Not);
        let operator = self.parse_comparison_operator()?;
        let value = if operator == ComparisonOperator::In {
            self.parse_set_literal()?
        } else {
            ComparisonOperand::Literal(self.parse_literal()?)
        };
        Ok(ComparisonExpression::Test(Comparison { path, operator, negated, value }))
    }

    fn parse_comparison_operator(&mut self) -> (r: Result<ComparisonOperator, ParseError>)
        requires
            old(self).wf(),
        ensures
            final(self).same_input(old(self)),
            match r {
                Ok(op) => kind_at(old(self).toks(), old(self).at()) matches Some(k) && operator_of(k)
                    == Some(op) && final(self).at() == old(self).at() + 1,
                Err(e) => !(kind_at(old(self).toks(), old(self).at()) matches Some(k) && operator_of(
                    k,
                ) is Some) && e@ == error_at_token(
                    "expected a comparison operator"@,
                    old(self).toks(),
                    old(self).at(),
                    old(self).n(),
                ) && final(self).pos == old(self).pos,
            },
    {
        let op = match self.peek() {
            Some(TokenKindOf::Equal) => ComparisonOperator::Equal,
            Some(TokenKindOf::NotEqual) => ComparisonOperator::NotEqual,
            Some(TokenKindOf::GreaterThan) => ComparisonOperator::GreaterThan,
            Some(TokenKindOf::GreaterThanOrEqual) => ComparisonOperator::GreaterThanOrEqual,
            Some(TokenKindOf::LessThan) => ComparisonOperator::LessThan,
            Some(TokenKindOf::LessThanOrEqual) => ComparisonOperator::LessThanOrEqual,
            Some(TokenKindOf::In) => ComparisonOperator::In,
            Some(TokenKindOf::Like) => ComparisonOperator::Like,
            Some(TokenKindOf::Matches) => ComparisonOperator::Matches,
            Some(TokenKindOf::IsSubset) => ComparisonOperator::IsSubset,
            Some(TokenKindOf::IsSuperset) => ComparisonOperator::IsSuperset,
            _ => {
                return Err(self.error_here("expected a comparison operator"));
            },
        };
        self.advance();
        Ok(op)
    }

    fn parse_set_literal(&mut self) -> (r: Result<ComparisonOperand, ParseError>)
        requires
            old(self).wf(),
        ensures
            final(self).same_input(old(self)),
            agrees(r, set_literal_at(old(self).toks(), old(self).at(), old(self).n()), final(self).pos),
    {
        let ghost toks = self.toks();
        let ghost n = self.n();
        let ghost tokens = self.tokens;
        self.expect(&TokenKindOf::LParen, "'(' to open set literal")?;
        let ghost q = self.at();
        let first = self.parse_literal()?;
        let mut items: Vec<Literal> = Vec::new();
        items.push(first);
        assert(items@.map_values(|l: Literal| l@) =~= seq![first@]);
        let ghost q2 = self.at();
        while self.at_kind(&TokenKindOf::Comma)
            invariant
                self.wf(),
                self.tokens == tokens,
                self.src_len == n,
                old(self).tokens == tokens,
                old(self).src_len == n,
                toks == self.toks(),
                set_literal_at(toks, old(self).at(), n) == close_set_at(
                    toks,
                    n,
                    set_items_at(toks, self.at(), n, items@.map_values(|l: Literal| l@)),
                ),
            decreases self.tokens@.len() - self.pos,
        {
            self.pos = self.pos + 1;
            let item = self.parse_literal()?;
            let ghost before = items@.map_values(|l: Literal| l@);
            let ghost iv = item@;
            items.push(item);
            assert(items@.map_values(|l: Literal| l@) =~= before.push(iv));
        }
        self.expect(&TokenKindOf::RParen, "')' to close set literal")?;
        Ok(ComparisonOperand::SetLiteral(items))
    }

    fn parse_literal(&mut self) -> (r: Result<Literal, ParseError>)
        requires
            old(self).wf(),
        ensures
            final(self).same_input(old(self)),
            agrees(r, literal_at(old(self).toks(), old(self).at(), old(self).n()), final(self).pos),
    {
        let lit = match self.peek() {
            Some(TokenKindOf::String(s)) => LiteralOf::String(s.clone()),
            Some(TokenKindOf::Integer(n)) => LiteralOf::Integer(*n),
            Some(TokenKindOf::Float(f)) => LiteralOf::Float(*f),
            Some(TokenKindOf::Boolean(b)) => LiteralOf::Boolean(*b),
            Some(TokenKindOf::Timestamp(s)) => LiteralOf::Timestamp(s.clone()),
            Some(TokenKindOf::Binary(s)) => LiteralOf::Binary(s.clone()),
            Some(TokenKindOf::Hex(s)) => LiteralOf::Hex(s.clone()),
            _ => {
                return Err(self.error_here("expected a literal value"));
            },
        };
        self.advance();
        Ok(lit)
    }

    // --- observation expressions ---
    fn parse_qualifier(&mut self) -> (r: Result<Qualifier, ParseError>)
        requires
            old(self).wf(),
            starts_qualifier(old(self).toks(), old(self).at()),
        ensures
            final(self).same_input(old(self)),
            agrees(r, qualifier_at(old(self).toks(), old(self).at(), old(self).n()), final(self).pos),
    {
        if self.eat(&TokenKindOf::Within) {
            let seconds = match self.peek() {
                Some(TokenKindOf::Integer(n)) => {
                    if *n > 0 {
                        binary64_of_i64(*n)
                    } else {
                        return Err(self.error_here("expected a positive number after WITHIN"));
                    }
                },
                Some(TokenKindOf::Float(b)) => {
                    if *b != 0 && *b < 0x8000_0000_0000_0000 {
                        *b
                    } else {
                        return Err(self.error_here("expected a positive number after WITHIN"));
                    }
                },
                _ => {
                    return Err(self.error_here("expected a positive number after WITHIN"));
                },
            };
            self.advance();
            self.expect(&TokenKindOf::Seconds, "SECONDS after WITHIN value")?;
            Ok(QualifierOf::Within { seconds })
        } else if self.eat(&TokenKindOf::Repeats) {
            let count = match self.peek() {
                Some(TokenKindOf::Integer(n)) => {
                    if *n > 0 {
                        *n as u64
                    } else {
                        return Err(self.error_here("expected a positive integer after REPEATS"));
                    }
                },
                _ => {
                    return Err(self.error_here("expected a positive integer after REPEATS"));
                },
            };
            self.advance();
            self.expect(&TokenKindOf::Times, "TIMES after REPEATS count")?;
            Ok(QualifierOf::Repeats { count })
        } else {
            self.advance();
            let start = match self.peek() {
                Some(TokenKindOf::Timestamp(s)) => s.clone(),
                _ => {
                    return Err(self.error_here("expected a timestamp after START"));
                },
            };
            self.advance();
            self.expect(&TokenKindOf::Stop, "STOP after START timestamp")?;
            let stop = match self.peek() {
                Some(TokenKindOf::Timestamp(s)) => s.clone(),
                _ => {
                    return Err(self.error_here("expected a timestamp after STOP"));
                },
            };
            self.advance();
            Ok(QualifierOf::StartStop { start, stop })
        }
    }

    fn parse_observation_primary(&mut self) -> (r: Result<ObservationExpression, ParseError>)
        requires
            old(self).wf(),
        ensures
            final(self).same_input(old(self)),
            agrees(
                r,
                observation_primary_at(old(self).toks(), old(self).at(), old(self).n()),
                final(self).pos,
            ),
        decreases old(self).tokens@.len() - old(self).pos, 0int,
    {
        if self.eat(&TokenKindOf::LBracket) {
            let c = self.parse_comparison_expression()?;
            self.expect(&TokenKindOf::RBracket, "']' to close observation")?;
            Ok(ObservationExpression::Observation(Box::new(c)))
        } else if self.eat(&TokenKindOf::LParen) {
            let inner = self.parse_observation_expression()?;
            self.expect(&TokenKindOf::RParen, "')' to close observation group")?;
            Ok(inner)
        } else {
            Err(self.error_here("expected '[' or '(' to start an observation expression"))
        }
    }

    fn parse_observation_qualified(&mut self) -> (r: Result<ObservationExpression, ParseError>)
        requires
            old(self).wf(),
        ensures
            final(self).same_input(old(self)),
            agrees(
                r,
                observation_qualified_at(old(self).toks(), old(self).at(), old(self).n()),
                final(self).pos,
            ),
        decreases old(self).tokens@.len() - old(self).pos, 1int,
    {
        let p0 = self.pos;
        let ghost toks = self.toks();
        let ghost n = self.n();
        let ghost tokens = self.tokens;
        let mut e = self.parse_observation_primary()?;
        if !(p0 < self.pos && self.pos <= self.tokens.len()) {
            return Err(self.no_progress());
        }
        while self.at_kind(&TokenKindOf::Within) || self.at_kind(&TokenKindOf::Repeats)
            || self.at_kind(&TokenKindOf::Start)
            invariant
                self.wf(),
                self.tokens == tokens,
                self.src_len == n,
                old(self).tokens == tokens,
                old(self).src_len == n,
                toks == self.toks(),
                p0 < self.pos,
                old(self).pos == p0,
                observation_qualified_at(toks, p0 as int, n) == qualifiers_at(toks, self.at(), n, e@),
            decreases self.tokens@.len() - self.pos,
        {
            let p = self.pos;
            let qualifier = self.parse_qualifier()?;
            if !(p < self.pos && self.pos <= self.tokens.len()) {
                return Err(self.no_progress());
            }
            e = ObservationExpression::Qualified { expression: Box::new(e), qualifier };
        }
        Ok(e)
    }

    fn parse_operand(&mut self, level: ObservationLevel) -> (r: Result<ObservationExpression, ParseError>)
        requires
            old(self).wf(),
        ensures
            final(self).same_input(old(self)),
            agrees(r, operand_at(old(self).toks(), old(self).at(), old(self).n(), level), final(self).pos),
        decreases old(self).tokens@.len() - old(self).pos, level_rank(level) - 1,
    {
        match level {
            ObservationLevel::And => self.parse_observation_qualified(),
            ObservationLevel::Or => self.parse_observation_level(ObservationLevel::And),
            ObservationLevel::FollowedBy => self.parse_observation_level(ObservationLevel::Or),
        }
    }

    fn parse_observation_level(&mut self, level: ObservationLevel) -> (r: Result<ObservationExpression, ParseError>)
        requires
            old(self).wf(),
        ensures
            final(self).same_input(old(self)),
            agrees(
                r,
                observation_level_at(old(self).toks(), old(self).at(), old(self).n(), level),
                final(self).pos,
            ),
        decreases old(self).tokens@.len() - old(self).pos, level_rank(level),
    {
        let p0 = self.pos;
        let ghost toks = self.toks();
        let ghost n = self.n();
        let ghost tokens = self.tokens;
        let keyword = level_keyword_kind(level);
        let mut left = self.parse_operand(level)?;
        if !(p0 < self.pos && self.pos <= self.tokens.len()) {
            return Err(self.no_progress());
        }
        while self.at_kind(&keyword)
            invariant
                self.wf(),
                self.tokens == tokens,
                self.src_len == n,
                old(self).tokens == tokens,
                old(self).src_len == n,
                toks == self.toks(),
                p0 < self.pos,
                old(self).pos == p0,
                keyword@ == level_keyword(level),
                is_plain_kind(keyword@),
                observation_level_at(toks, p0 as int, n, level) == observation_tail_at(
                    toks,
                    self.at(),
                    n,
                    level,
                    left@,
                ),
            decreases self.tokens@.len() - self.pos,
        {
            let p = self.pos;
            self.pos = self.pos + 1;
            let right = self.parse_operand(level)?;
            if !(p < self.pos && self.pos <= self.tokens.len()) {
                return Err(self.no_progress());
            }
            left = join(level, left, right);
        }
        Ok(left)
    }

    pub(crate) fn parse_observation_expression(&mut self) -> (r: Result<ObservationExpression, ParseError>)
        requires
            old(self).wf(),
        ensures
            final(self).same_input(old(self)),
            agrees(
                r,
                observation_expression_at(old(self).toks(), old(self).at(), old(self).n()),
                final(self).pos,
            ),
        decreases old(self).tokens@.len() - old(self).pos, 8int,
    {
        self.parse_observation_level(ObservationLevel::FollowedBy)
    }

} // impl Parser

/// The keyword token of a level.
fn level_keyword_kind(level: ObservationLevel) -> (k: TokenKind)
    ensures
        k@ == level_keyword(level),
        is_plain_kind(k@),
{
    match level {
        ObservationLevel::And => TokenKindOf::And,
        ObservationLevel::Or => TokenKindOf::Or,
        ObservationLevel::FollowedBy => TokenKindOf::FollowedBy,
    }
}

/// The node that joins two operands at a level.
fn join(level: ObservationLevel, a: ObservationExpression, b: ObservationExpression) -> (e: ObservationExpression)
    ensures
        e@ == join_at_level(level, a@, b@),
{
    match level {
        ObservationLevel::And => ObservationExpression::And(Box::new(a), Box::new(b)),
        ObservationLevel::Or => ObservationExpression::Or(Box::new(a), Box::new(b)),
        ObservationLevel::FollowedBy => ObservationExpression::FollowedBy(Box::new(a), Box::new(b)),
    }
}

/// Parse a complete pattern string into an AST: the pattern [`spec_parse`]
/// states for the string's bytes, or the first lexing or parsing error.
pub fn parse(src: &str) -> (r: Result<Pattern, ParseError>)
    ensures
        pattern_result_view(r) == spec_parse(src.spec_bytes()),
{
    let tokens = tokenize(src)?;
    let mut p = Parser::new(tokens.as_slice(), src);
    let expression = p.parse_observation_expression()?;
    if !p.at_end() {
        return Err(p.error_here("unexpected token after pattern"));
    }
    Ok(Pattern { expression })
}

} // verus!
