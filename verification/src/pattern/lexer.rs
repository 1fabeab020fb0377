//! Lexer: converts a pattern string into a flat token stream.
//!
//! The lexer reads the pattern's UTF-8 bytes. [`lex_from`] states, byte by
//! byte, which token starts at each position; [`tokenize`] computes exactly
//! that sequence, or the first error.

use vstd::prelude::*;
use vstd::string::StringSliceAdditionalSpecFns;

use crate::binary64::{decimal_to_binary64, nearest_binary64, NEGATIVE_INFINITY, POSITIVE_INFINITY};
use crate::pattern::error::{ParseError, ParseErrorV, Span};
use crate::text::{decode_char_at, push_str_chars, string_from_chars};
use vstd::utf8::{decode_first_scalar, length_of_first_scalar, valid_first_scalar};

verus! {

/// The kind of a token, generic over its string representation.
#[derive(Debug, Clone, PartialEq)]
pub enum TokenKindOf<S> {
    // Punctuation
    LBracket,
    RBracket,
    LParen,
    RParen,
    Colon,
    Dot,
    Comma,
    Star,
    // Comparison operators
    Equal,
    NotEqual,
    LessThan,
    LessThanOrEqual,
    GreaterThan,
    GreaterThanOrEqual,
    // Keywords
    And,
    Or,
    Not,
    FollowedBy,
    Like,
    Matches,
    In,
    IsSubset,
    IsSuperset,
    Exists,
    Within,
    Repeats,
    Seconds,
    Times,
    Start,
    Stop,
    // Literals & identifiers
    Identifier(S),
    String(S),
    Integer(i64),
    /// A floating-point literal, as the bits of the nearest binary64 value.
    Float(u64),
    Boolean(bool),
    Timestamp(S),
    Binary(S),
    Hex(S),
}

/// The kind of a token.
pub type TokenKind = TokenKindOf<String>;

/// The mathematical form of a [`TokenKind`].
pub type SpecTokenKind = TokenKindOf<Seq<char>>;

impl View for TokenKindOf<String> {
    type V = SpecTokenKind;

    open spec fn view(&self) -> SpecTokenKind {
        match self {
            TokenKindOf::LBracket => TokenKindOf::LBracket,
            TokenKindOf::RBracket => TokenKindOf::RBracket,
            TokenKindOf::LParen => TokenKindOf::LParen,
            TokenKindOf::RParen => TokenKindOf::RParen,
            TokenKindOf::Colon => TokenKindOf::Colon,
            TokenKindOf::Dot => TokenKindOf::Dot,
            TokenKindOf::Comma => TokenKindOf::Comma,
            TokenKindOf::Star => TokenKindOf::Star,
            TokenKindOf::Equal => TokenKindOf::Equal,
            TokenKindOf::NotEqual => TokenKindOf::NotEqual,
            TokenKindOf::LessThan => TokenKindOf::LessThan,
            TokenKindOf::LessThanOrEqual => TokenKindOf::LessThanOrEqual,
            TokenKindOf::GreaterThan => TokenKindOf::GreaterThan,
            TokenKindOf::GreaterThanOrEqual => TokenKindOf::GreaterThanOrEqual,
            TokenKindOf::And => TokenKindOf::And,
            TokenKindOf::Or => TokenKindOf::Or,
            TokenKindOf::Not => TokenKindOf::Not,
            TokenKindOf::FollowedBy => TokenKindOf::FollowedBy,
            TokenKindOf::Like => TokenKindOf::Like,
            TokenKindOf::Matches => TokenKindOf::Matches,
            TokenKindOf::In => TokenKindOf::In,
            TokenKindOf::IsSubset => TokenKindOf::IsSubset,
            TokenKindOf::IsSuperset => TokenKindOf::IsSuperset,
            TokenKindOf::Exists => TokenKindOf::Exists,
            TokenKindOf::Within => TokenKindOf::Within,
            TokenKindOf::Repeats => TokenKindOf::Repeats,
            TokenKindOf::Seconds => TokenKindOf::Seconds,
            TokenKindOf::Times => TokenKindOf::Times,
            TokenKindOf::Start => TokenKindOf::Start,
            TokenKindOf::Stop => TokenKindOf::Stop,
            TokenKindOf::Identifier(s) => TokenKindOf::Identifier(s@),
            TokenKindOf::String(s) => TokenKindOf::String(s@),
            TokenKindOf::Timestamp(s) => TokenKindOf::Timestamp(s@),
            TokenKindOf::Binary(s) => TokenKindOf::Binary(s@),
            TokenKindOf::Hex(s) => TokenKindOf::Hex(s@),
            TokenKindOf::Integer(n) => TokenKindOf::Integer(*n),
            TokenKindOf::Float(b) => TokenKindOf::Float(*b),
            TokenKindOf::Boolean(b) => TokenKindOf::Boolean(*b),
        }
    }
}

/// A token and the bytes of the source it was read from.
#[derive(Debug, Clone, PartialEq)]
pub struct TokenOf<S> {
    pub kind: TokenKindOf<S>,
    pub span: Span,
}

/// A token.
pub type Token = TokenOf<String>;

/// The mathematical form of a [`Token`].
pub type SpecToken = TokenOf<Seq<char>>;

impl View for TokenOf<String> {
    type V = SpecToken;

    open spec fn view(&self) -> SpecToken {
        TokenOf { kind: self.kind@, span: self.span }
    }
}

/// The mathematical form of a sequence of tokens.
pub open spec fn tokens_view(v: Seq<Token>) -> Seq<SpecToken> {
    v.map_values(|t: Token| t@)
}

/// The mathematical form of an optional token kind.
pub open spec fn option_kind_view(k: Option<TokenKind>) -> Option<SpecTokenKind> {
    match k {
        Some(k) => Some(k@),
        None => None,
    }
}

/// A number that tells the variants of a token kind apart.
pub open spec fn kind_tag<S>(k: TokenKindOf<S>) -> u8 {
    match k {
        TokenKindOf::LBracket => 0,
        TokenKindOf::RBracket => 1,
        TokenKindOf::LParen => 2,
        TokenKindOf::RParen => 3,
        TokenKindOf::Colon => 4,
        TokenKindOf::Dot => 5,
        TokenKindOf::Comma => 6,
        TokenKindOf::Star => 7,
        TokenKindOf::Equal => 8,
        TokenKindOf::NotEqual => 9,
        TokenKindOf::LessThan => 10,
        TokenKindOf::LessThanOrEqual => 11,
        TokenKindOf::GreaterThan => 12,
        TokenKindOf::GreaterThanOrEqual => 13,
        TokenKindOf::And => 14,
        TokenKindOf::Or => 15,
        TokenKindOf::Not => 16,
        TokenKindOf::FollowedBy => 17,
        TokenKindOf::Like => 18,
        TokenKindOf::Matches => 19,
        TokenKindOf::In => 20,
        TokenKindOf::IsSubset => 21,
        TokenKindOf::IsSuperset => 22,
        TokenKindOf::Exists => 23,
        TokenKindOf::Within => 24,
        TokenKindOf::Repeats => 25,
        TokenKindOf::Seconds => 26,
        TokenKindOf::Times => 27,
        TokenKindOf::Start => 28,
        TokenKindOf::Stop => 29,
        TokenKindOf::Identifier(_) => 30,
        TokenKindOf::String(_) => 31,
        TokenKindOf::Integer(_) => 32,
        TokenKindOf::Float(_) => 33,
        TokenKindOf::Boolean(_) => 34,
        TokenKindOf::Timestamp(_) => 35,
        TokenKindOf::Binary(_) => 36,
        TokenKindOf::Hex(_) => 37,
    }
}

/// Whether a token kind carries no data.
pub open spec fn is_plain_kind<S>(k: TokenKindOf<S>) -> bool {
    kind_tag(k) < 30
}

/// The variant number of a token kind (see [`kind_tag`]).
pub fn tag_of(k: &TokenKind) -> (t: u8)
    ensures
        t == kind_tag(*k),
{
    match k {
        TokenKindOf::LBracket => 0,
        TokenKindOf::RBracket => 1,
        TokenKindOf::LParen => 2,
        TokenKindOf::RParen => 3,
        TokenKindOf::Colon => 4,
        TokenKindOf::Dot => 5,
        TokenKindOf::Comma => 6,
        TokenKindOf::Star => 7,
        TokenKindOf::Equal => 8,
        TokenKindOf::NotEqual => 9,
        TokenKindOf::LessThan => 10,
        TokenKindOf::LessThanOrEqual => 11,
        TokenKindOf::GreaterThan => 12,
        TokenKindOf::GreaterThanOrEqual => 13,
        TokenKindOf::And => 14,
        TokenKindOf::Or => 15,
        TokenKindOf::Not => 16,
        TokenKindOf::FollowedBy => 17,
        TokenKindOf::Like => 18,
        TokenKindOf::Matches => 19,
        TokenKindOf::In => 20,
        TokenKindOf::IsSubset => 21,
        TokenKindOf::IsSuperset => 22,
        TokenKindOf::Exists => 23,
        TokenKindOf::Within => 24,
        TokenKindOf::Repeats => 25,
        TokenKindOf::Seconds => 26,
        TokenKindOf::Times => 27,
        TokenKindOf::Start => 28,
        TokenKindOf::Stop => 29,
        TokenKindOf::Identifier(_) => 30,
        TokenKindOf::String(_) => 31,
        TokenKindOf::Integer(_) => 32,
        TokenKindOf::Float(_) => 33,
        TokenKindOf::Boolean(_) => 34,
        TokenKindOf::Timestamp(_) => 35,
        TokenKindOf::Binary(_) => 36,
        TokenKindOf::Hex(_) => 37,
    }
}

// Bytes the lexer tells apart.
pub const SPACE: u8 = 32;
pub const TAB: u8 = 9;
pub const CARRIAGE_RETURN: u8 = 13;
pub const LINE_FEED: u8 = 10;
pub const LEFT_BRACKET: u8 = 91;
pub const RIGHT_BRACKET: u8 = 93;
pub const LEFT_PAREN: u8 = 40;
pub const RIGHT_PAREN: u8 = 41;
pub const COLON: u8 = 58;
pub const DOT: u8 = 46;
pub const COMMA: u8 = 44;
pub const ASTERISK: u8 = 42;
pub const EQUALS: u8 = 61;
pub const BANG: u8 = 33;
pub const LESS: u8 = 60;
pub const GREATER: u8 = 62;
pub const QUOTE: u8 = 39;
pub const BACKSLASH: u8 = 92;
pub const MINUS: u8 = 45;
pub const DIGIT_ZERO: u8 = 48;
pub const DIGIT_NINE: u8 = 57;
pub const UNDERSCORE: u8 = 95;
pub const LOWER_T: u8 = 116;
pub const LOWER_B: u8 = 98;
pub const LOWER_H: u8 = 104;

/// The byte at `i`, if `i` is inside `s`.
pub open spec fn byte_at(s: Seq<u8>, i: int) -> Option<u8> {
    if 0 <= i < s.len() {
        Some(s[i])
    } else {
        None
    }
}

pub open spec fn is_whitespace_byte(c: u8) -> bool {
    c == SPACE || c == TAB || c == CARRIAGE_RETURN || c == LINE_FEED
}

pub open spec fn is_digit_byte(c: u8) -> bool {
    DIGIT_ZERO <= c <= DIGIT_NINE
}

pub open spec fn is_alpha_byte(c: u8) -> bool {
    (65 <= c <= 90) || (97 <= c <= 122)
}

pub open spec fn ident_start_byte(c: u8) -> bool {
    is_alpha_byte(c) || c == UNDERSCORE
}

/// Identifier continuation allows hyphens so object types like `ipv4-addr` are one token.
pub open spec fn ident_continue_byte(c: u8) -> bool {
    is_alpha_byte(c) || is_digit_byte(c) || c == UNDERSCORE || c == MINUS
}

/// Whether a byte may start an identifier or keyword.
pub fn is_ident_start(c: u8) -> (r: bool)
    ensures
        r == ident_start_byte(c),
{
    (65 <= c && c <= 90) || (97 <= c && c <= 122) || c == UNDERSCORE
}

/// Whether a byte may continue an identifier or keyword.
pub fn is_ident_continue(c: u8) -> (r: bool)
    ensures
        r == ident_continue_byte(c),
{
    (65 <= c && c <= 90) || (97 <= c && c <= 122) || (DIGIT_ZERO <= c && c <= DIGIT_NINE) || c
        == UNDERSCORE || c == MINUS
}

/// A parse error with a message and the span `[start, end)`.
pub open spec fn error_at(message: Seq<char>, start: int, end: int) -> ParseErrorV {
    ParseErrorV { message, span: Span { start: start as usize, end: end as usize } }
}

/// The token of the given kind that covers `[start, end)`.
pub open spec fn token_at(kind: SpecTokenKind, start: int, end: int) -> SpecToken {
    TokenOf { kind, span: Span { start: start as usize, end: end as usize } }
}

/// The body of a single-quoted string whose first body byte is at `i`: the
/// decoded characters and the position just past the closing quote, or `None`
/// if no closing quote follows. `\'` stands for a quote and `\\` for a
/// backslash; any other backslash stands for itself; every other character is
/// read as UTF-8. A byte that starts no well-formed encoding (which the bytes
/// of a `&str` never hold) stands for the character with that code.
pub open spec fn quoted_from(s: Seq<u8>, i: int) -> Option<(Seq<char>, int)>
    decreases s.len() - i,
{
    if i < 0 || i >= s.len() {
        None
    } else if s[i] == BACKSLASH {
        if i + 1 < s.len() && s[i + 1] == QUOTE {
            prepend_char('\'', quoted_from(s, i + 2))
        } else if i + 1 < s.len() && s[i + 1] == BACKSLASH {
            prepend_char('\\', quoted_from(s, i + 2))
        } else {
            prepend_char('\\', quoted_from(s, i + 1))
        }
    } else if s[i] == QUOTE {
        Some((Seq::empty(), i + 1))
    } else if valid_first_scalar(s.subrange(i, s.len() as int)) {
        prepend_char(
            decode_first_scalar(s.subrange(i, s.len() as int)) as char,
            quoted_from(s, i + length_of_first_scalar(s.subrange(i, s.len() as int))),
        )
    } else {
        prepend_char(s[i] as char, quoted_from(s, i + 1))
    }
}

pub open spec fn prepend_char(c: char, r: Option<(Seq<char>, int)>) -> Option<(Seq<char>, int)> {
    match r {
        Some((body, end)) => Some((seq![c] + body, end)),
        None => None,
    }
}

pub open spec fn body_of(r: Option<(Seq<char>, int)>) -> Seq<char> {
    match r {
        Some((body, _)) => body,
        None => Seq::empty(),
    }
}

pub open spec fn prepend_chars(p: Seq<char>, r: Option<(Seq<char>, int)>) -> Option<(Seq<char>, int)> {
    match r {
        Some((body, end)) => Some((p + body, end)),
        None => None,
    }
}

/// The end of the run of digits and points that starts at `i`.
pub open spec fn number_end(s: Seq<u8>, i: int) -> int
    decreases s.len() - i,
{
    if 0 <= i < s.len() && (is_digit_byte(s[i]) || s[i] == DOT) {
        number_end(s, i + 1)
    } else {
        i
    }
}

/// The end of the run of identifier bytes that starts at `i`.
pub open spec fn ident_end(s: Seq<u8>, i: int) -> int
    decreases s.len() - i,
{
    if 0 <= i < s.len() && ident_continue_byte(s[i]) {
        ident_end(s, i + 1)
    } else {
        i
    }
}

/// The value of a sequence of decimal digits.
pub open spec fn digits_value(d: Seq<u8>) -> nat
    decreases d.len(),
{
    if d.len() == 0 {
        0
    } else {
        digits_value(d.drop_last()) * 10 + (d.last() - DIGIT_ZERO) as nat
    }
}

pub open spec fn all_digits(d: Seq<u8>) -> bool {
    forall|k: int| 0 <= k < d.len() ==> is_digit_byte(#[trigger] d[k])
}

/// The `i64` that a numeral `-?[0-9]+` denotes, or `None` if it is not such a
/// numeral or the value is out of range (the rules of `i64::from_str` on these
/// inputs).
pub open spec fn i64_of_numeral(t: Seq<u8>) -> Option<i64> {
    if t.len() > 0 && t[0] == MINUS {
        let d = t.drop_first();
        if d.len() > 0 && all_digits(d) && digits_value(d) <= 0x8000_0000_0000_0000 {
            Some((0 - digits_value(d)) as i64)
        } else {
            None
        }
    } else {
        if t.len() > 0 && all_digits(t) && digits_value(t) <= 0x7FFF_FFFF_FFFF_FFFF {
            Some(digits_value(t) as i64)
        } else {
            None
        }
    }
}

/// Number of points in a byte sequence.
pub open spec fn dot_count(t: Seq<u8>) -> nat
    decreases t.len(),
{
    if t.len() == 0 {
        0
    } else {
        dot_count(t.drop_last()) + if t.last() == DOT { 1nat } else { 0nat }
    }
}

/// Number of digits in a byte sequence.
pub open spec fn digit_count(t: Seq<u8>) -> nat
    decreases t.len(),
{
    if t.len() == 0 {
        0
    } else {
        digit_count(t.drop_last()) + if is_digit_byte(t.last()) { 1nat } else { 0nat }
    }
}

/// A numeral without its leading minus sign.
pub open spec fn unsigned_part(t: Seq<u8>) -> Seq<u8> {
    if t.len() > 0 && t[0] == MINUS {
        t.drop_first()
    } else {
        t
    }
}

/// Whether a run `-?[0-9.]*` read by the lexer is a well-formed float: exactly
/// one point and at least one digit (what `f64::from_str` accepts among such runs).
pub open spec fn float_numeral_ok(t: Seq<u8>) -> bool {
    dot_count(unsigned_part(t)) == 1 && digit_count(unsigned_part(t)) >= 1
}

/// The position of the first point in `t` (or `t.len()`).
pub open spec fn first_dot(t: Seq<u8>) -> int
    decreases t.len(),
{
    if t.len() == 0 {
        0
    } else if t[0] == DOT {
        0
    } else {
        1 + first_dot(t.drop_first())
    }
}

/// `d` without its leading zeros.
pub open spec fn strip_zeros(d: Seq<u8>) -> Seq<u8>
    decreases d.len(),
{
    if d.len() > 0 && d[0] == DIGIT_ZERO {
        strip_zeros(d.drop_first())
    } else {
        d
    }
}

pub open spec fn bytes_as_chars(b: Seq<u8>) -> Seq<char> {
    b.map_values(|c: u8| c as char)
}

/// A well-formed float run rewritten as a JSON numeral with the same value:
/// no leading zeros before the point (but at least one digit) and at least
/// one digit after it.
pub open spec fn json_numeral(t: Seq<u8>) -> Seq<char> {
    let u = unsigned_part(t);
    let k = first_dot(u);
    let int_part = strip_zeros(u.subrange(0, k));
    let frac_part = u.subrange(k + 1, u.len() as int);
    let sign: Seq<char> = if t.len() > 0 && t[0] == MINUS { seq!['-'] } else { Seq::empty() };
    let int_chars: Seq<char> = if int_part.len() == 0 { seq!['0'] } else { bytes_as_chars(int_part) };
    let frac_chars: Seq<char> = if frac_part.len() == 0 { seq!['0'] } else { bytes_as_chars(frac_part) };
    sign + int_chars + seq!['.'] + frac_chars
}

/// The bits of the binary64 value of a well-formed float run: the nearest
/// binary64 value, or an infinity of the numeral's sign where the value is too
/// large.
pub open spec fn float_numeral_bits(t: Seq<u8>) -> u64 {
    match decimal_to_binary64(json_numeral(t)) {
        Some(b) => b,
        None => if t.len() > 0 && t[0] == MINUS { NEGATIVE_INFINITY } else { POSITIVE_INFINITY },
    }
}

/// The ASCII upper-case form of a byte sequence.
pub open spec fn upper_bytes(w: Seq<u8>) -> Seq<u8> {
    w.map_values(|c: u8| if 97 <= c <= 122 { (c - 32) as u8 } else { c })
}

/// The keyword spelled by an upper-cased word, if any.
pub open spec fn keyword_of(u: Seq<u8>) -> Option<SpecTokenKind> {
    if u =~= seq![65u8, 78u8, 68u8] {
        Some(TokenKindOf::And)
    } else if u =~= seq![79u8, 82u8] {
        Some(TokenKindOf::Or)
    } else if u =~= seq![78u8, 79u8, 84u8] {
        Some(TokenKindOf::Not)
    } else if u =~= seq![70u8, 79u8, 76u8, 76u8, 79u8, 87u8, 69u8, 68u8, 66u8, 89u8] {
        Some(TokenKindOf::FollowedBy)
    } else if u =~= seq![76u8, 73u8, 75u8, 69u8] {
        Some(TokenKindOf::Like)
    } else if u =~= seq![77u8, 65u8, 84u8, 67u8, 72u8, 69u8, 83u8] {
        Some(TokenKindOf::Matches)
    } else if u =~= seq![73u8, 78u8] {
        Some(TokenKindOf::In)
    } else if u =~= seq![73u8, 83u8, 83u8, 85u8, 66u8, 83u8, 69u8, 84u8] {
        Some(TokenKindOf::IsSubset)
    } else if u =~= seq![73u8, 83u8, 83u8, 85u8, 80u8, 69u8, 82u8, 83u8, 69u8, 84u8] {
        Some(TokenKindOf::IsSuperset)
    } else if u =~= seq![69u8, 88u8, 73u8, 83u8, 84u8, 83u8] {
        Some(TokenKindOf::Exists)
    } else if u =~= seq![87u8, 73u8, 84u8, 72u8, 73u8, 78u8] {
        Some(TokenKindOf::Within)
    } else if u =~= seq![82u8, 69u8, 80u8, 69u8, 65u8, 84u8, 83u8] {
        Some(TokenKindOf::Repeats)
    } else if u =~= seq![83u8, 69u8, 67u8, 79u8, 78u8, 68u8, 83u8] {
        Some(TokenKindOf::Seconds)
    } else if u =~= seq![84u8, 73u8, 77u8, 69u8, 83u8] {
        Some(TokenKindOf::Times)
    } else if u =~= seq![83u8, 84u8, 65u8, 82u8, 84u8] {
        Some(TokenKindOf::Start)
    } else if u =~= seq![83u8, 84u8, 79u8, 80u8] {
        Some(TokenKindOf::Stop)
    } else if u =~= seq![84u8, 82u8, 85u8, 69u8] {
        Some(TokenKindOf::Boolean(true))
    } else if u =~= seq![70u8, 65u8, 76u8, 83u8, 69u8] {
        Some(TokenKindOf::Boolean(false))
    } else {
        None
    }
}

/// The token kind of a bare word: a keyword (case-insensitive) or an identifier.
pub open spec fn word_kind(w: Seq<u8>) -> SpecTokenKind {
    match keyword_of(upper_bytes(w)) {
        Some(k) => k,
        None => TokenKindOf::Identifier(bytes_as_chars(w)),
    }
}

/// The ASCII lower-case form of a byte sequence.
pub open spec fn lower_bytes(w: Seq<u8>) -> Seq<u8> {
    w.map_values(|c: u8| if 65 <= c <= 90 { (c + 32) as u8 } else { c })
}

/// Keywords are case-insensitive: a word, its upper-case form and its
/// lower-case form name the same keyword, or none; and a word that names a
/// keyword is read as that keyword whatever the case of its letters.
pub proof fn keywords_ignore_case(w: Seq<u8>)
    ensures
        keyword_of(upper_bytes(upper_bytes(w))) == keyword_of(upper_bytes(w)),
        keyword_of(upper_bytes(lower_bytes(w))) == keyword_of(upper_bytes(w)),
        keyword_of(upper_bytes(w)) is Some ==> word_kind(upper_bytes(w)) == word_kind(w) && word_kind(
            lower_bytes(w),
        ) == word_kind(w),
{
    assert(upper_bytes(upper_bytes(w)) =~= upper_bytes(w));
    assert(upper_bytes(lower_bytes(w)) =~= upper_bytes(w));
}

/// Each keyword has a token kind of its own: two words that name a keyword
/// name the same one only when they are spelled alike (up to the case of
/// letters), and a keyword's spelling is made of upper-case letters only.
pub proof fn keywords_are_distinct(u1: Seq<u8>, u2: Seq<u8>)
    ensures
        keyword_of(u1) is Some && keyword_of(u1) == keyword_of(u2) ==> u1 == u2,
        keyword_of(u1) is Some ==> forall|i: int| 0 <= i < u1.len() ==> 65 <= #[trigger] u1[i] <= 90,
{
}

/// How the token kind of a keyword is spelled, in upper case; `None` for a
/// kind that is no keyword.
pub open spec fn keyword_spelling(k: SpecTokenKind) -> Option<Seq<u8>> {
    match k {
        TokenKindOf::And => Some(seq![65u8, 78u8, 68u8]),
        TokenKindOf::Or => Some(seq![79u8, 82u8]),
        TokenKindOf::Not => Some(seq![78u8, 79u8, 84u8]),
        TokenKindOf::FollowedBy => Some(seq![70u8, 79u8, 76u8, 76u8, 79u8, 87u8, 69u8, 68u8, 66u8, 89u8]),
        TokenKindOf::Like => Some(seq![76u8, 73u8, 75u8, 69u8]),
        TokenKindOf::Matches => Some(seq![77u8, 65u8, 84u8, 67u8, 72u8, 69u8, 83u8]),
        TokenKindOf::In => Some(seq![73u8, 78u8]),
        TokenKindOf::IsSubset => Some(seq![73u8, 83u8, 83u8, 85u8, 66u8, 83u8, 69u8, 84u8]),
        TokenKindOf::IsSuperset => Some(seq![73u8, 83u8, 83u8, 85u8, 80u8, 69u8, 82u8, 83u8, 69u8, 84u8]),
        TokenKindOf::Exists => Some(seq![69u8, 88u8, 73u8, 83u8, 84u8, 83u8]),
        TokenKindOf::Within => Some(seq![87u8, 73u8, 84u8, 72u8, 73u8, 78u8]),
        TokenKindOf::Repeats => Some(seq![82u8, 69u8, 80u8, 69u8, 65u8, 84u8, 83u8]),
        TokenKindOf::Seconds => Some(seq![83u8, 69u8, 67u8, 79u8, 78u8, 68u8, 83u8]),
        TokenKindOf::Times => Some(seq![84u8, 73u8, 77u8, 69u8, 83u8]),
        TokenKindOf::Start => Some(seq![83u8, 84u8, 65u8, 82u8, 84u8]),
        TokenKindOf::Stop => Some(seq![83u8, 84u8, 79u8, 80u8]),
        TokenKindOf::Boolean(b) => if b {
            Some(seq![84u8, 82u8, 85u8, 69u8])
        } else {
            Some(seq![70u8, 65u8, 76u8, 83u8, 69u8])
        },
        _ => None,
    }
}

/// The keywords are exactly the words spelled as their token kinds are: an
/// upper-cased word names the keyword `k` exactly when it is `k`'s spelling.
pub proof fn keywords_match_their_spelling(u: Seq<u8>, k: SpecTokenKind)
    ensures
        keyword_of(u) == Some(k) <==> keyword_spelling(k) == Some(u),
{
}

/// What the lexer does at one position.
pub enum LexStep {
    /// Skip to the given position.
    Skip(int),
    /// Emit a token and continue at the given position.
    Emit(SpecToken, int),
    /// Stop with an error.
    Fail(ParseErrorV),
}

/// The step for a number starting at `i` (a minus sign or a digit).
pub open spec fn number_step(s: Seq<u8>, i: int) -> LexStep {
    let digits_start = if s[i] == MINUS { i + 1 } else { i };
    let e = number_end(s, digits_start);
    let t = s.subrange(i, e);
    if dot_count(unsigned_part(t)) > 0 {
        if float_numeral_ok(t) {
            LexStep::Emit(token_at(TokenKindOf::Float(float_numeral_bits(t)), i, e), e)
        } else {
            LexStep::Fail(error_at("invalid float literal"@, i, e))
        }
    } else {
        match i64_of_numeral(t) {
            Some(n) => LexStep::Emit(token_at(TokenKindOf::Integer(n), i, e), e),
            None => LexStep::Fail(error_at("invalid integer literal"@, i, e)),
        }
    }
}

/// The step for a word or a typed literal (`t'...'`, `b'...'`, `h'...'`) at `i`.
pub open spec fn word_step(s: Seq<u8>, i: int) -> LexStep {
    let c = s[i];
    if (c == LOWER_T || c == LOWER_B || c == LOWER_H) && byte_at(s, i + 1) == Some(QUOTE) {
        match quoted_from(s, i + 2) {
            Some((body, e)) => {
                let kind = if c == LOWER_T {
                    TokenKindOf::Timestamp(body)
                } else if c == LOWER_B {
                    TokenKindOf::Binary(body)
                } else {
                    TokenKindOf::Hex(body)
                };
                LexStep::Emit(token_at(kind, i, e), e)
            },
            None => LexStep::Fail(error_at("unterminated string literal"@, i + 1, s.len() as int)),
        }
    } else {
        let e = ident_end(s, i);
        LexStep::Emit(token_at(word_kind(s.subrange(i, e)), i, e), e)
    }
}

pub open spec fn punct(kind: SpecTokenKind, i: int) -> LexStep {
    LexStep::Emit(token_at(kind, i, i + 1), i + 1)
}

pub open spec fn pair_or_single(
    s: Seq<u8>,
    i: int,
    pair: SpecTokenKind,
    single: SpecTokenKind,
) -> LexStep {
    if byte_at(s, i + 1) == Some(EQUALS) {
        LexStep::Emit(token_at(pair, i, i + 2), i + 2)
    } else {
        punct(single, i)
    }
}

/// What the lexer does at position `i` of `s` (`0 <= i < s.len()`).
pub open spec fn lex_step(s: Seq<u8>, i: int) -> LexStep {
    let c = s[i];
    if is_whitespace_byte(c) {
        LexStep::Skip(i + 1)
    } else if c == LEFT_BRACKET {
        punct(TokenKindOf::LBracket, i)
    } else if c == RIGHT_BRACKET {
        punct(TokenKindOf::RBracket, i)
    } else if c == LEFT_PAREN {
        punct(TokenKindOf::LParen, i)
    } else if c == RIGHT_PAREN {
        punct(TokenKindOf::RParen, i)
    } else if c == COLON {
        punct(TokenKindOf::Colon, i)
    } else if c == DOT && !(byte_at(s, i + 1) matches Some(d) && is_digit_byte(d)) {
        punct(TokenKindOf::Dot, i)
    } else if c == COMMA {
        punct(TokenKindOf::Comma, i)
    } else if c == ASTERISK {
        punct(TokenKindOf::Star, i)
    } else if c == EQUALS {
        punct(TokenKindOf::Equal, i)
    } else if c == BANG {
        if byte_at(s, i + 1) == Some(EQUALS) {
            LexStep::Emit(token_at(TokenKindOf::NotEqual, i, i + 2), i + 2)
        } else {
            LexStep::Fail(error_at("expected '=' after '!'"@, i, i + 1))
        }
    } else if c == LESS {
        pair_or_single(s, i, TokenKindOf::LessThanOrEqual, TokenKindOf::LessThan)
    } else if c == GREATER {
        pair_or_single(s, i, TokenKindOf::GreaterThanOrEqual, TokenKindOf::GreaterThan)
    } else if c == QUOTE {
        match quoted_from(s, i + 1) {
            Some((body, e)) => LexStep::Emit(token_at(TokenKindOf::String(body), i, e), e),
            None => LexStep::Fail(error_at("unterminated string literal"@, i, s.len() as int)),
        }
    } else if c == MINUS || is_digit_byte(c) {
        number_step(s, i)
    } else if ident_start_byte(c) {
        word_step(s, i)
    } else {
        LexStep::Fail(
            error_at("unexpected character '"@ + seq![c as char] + "'"@, i, i + 1),
        )
    }
}

/// The position that a step moves to, if it moves.
pub open spec fn step_target(st: LexStep) -> int {
    match st {
        LexStep::Skip(j) => j,
        LexStep::Emit(_, j) => j,
        LexStep::Fail(_) => 0,
    }
}

pub proof fn lemma_quoted_from_advances(s: Seq<u8>, i: int)
    ensures
        quoted_from(s, i) matches Some((_, e)) ==> i < e <= s.len(),
    decreases s.len() - i,
{
    if 0 <= i < s.len() {
        if s[i] == BACKSLASH && i + 1 < s.len() && (s[i + 1] == QUOTE || s[i + 1] == BACKSLASH) {
            lemma_quoted_from_advances(s, i + 2);
        } else if s[i] == BACKSLASH {
            lemma_quoted_from_advances(s, i + 1);
        } else if s[i] != QUOTE {
            if valid_first_scalar(s.subrange(i, s.len() as int)) {
                lemma_quoted_from_advances(s, i + length_of_first_scalar(s.subrange(i, s.len() as int)));
            } else {
                lemma_quoted_from_advances(s, i + 1);
            }
        }
    }
}

pub proof fn lemma_number_end(s: Seq<u8>, i: int)
    requires
        0 <= i <= s.len(),
    ensures
        i <= number_end(s, i) <= s.len(),
        i < s.len() && (is_digit_byte(s[i]) || s[i] == DOT) ==> i < number_end(s, i),
        forall|k: int| i <= k < number_end(s, i) ==> is_digit_byte(#[trigger] s[k]) || s[k] == DOT,
    decreases s.len() - i,
{
    if i < s.len() && (is_digit_byte(s[i]) || s[i] == DOT) {
        lemma_number_end(s, i + 1);
    }
}

pub proof fn lemma_ident_end(s: Seq<u8>, i: int)
    requires
        0 <= i <= s.len(),
    ensures
        i <= ident_end(s, i) <= s.len(),
        i < s.len() && ident_continue_byte(s[i]) ==> i < ident_end(s, i),
        forall|k: int| i <= k < ident_end(s, i) ==> ident_continue_byte(#[trigger] s[k]),
    decreases s.len() - i,
{
    if i < s.len() && ident_continue_byte(s[i]) {
        lemma_ident_end(s, i + 1);
    }
}

/// Every step that does not fail moves forward and stays inside the input.
pub proof fn lemma_lex_step_advances(s: Seq<u8>, i: int)
    requires
        0 <= i < s.len(),
    ensures
        !(lex_step(s, i) is Fail) ==> i < step_target(lex_step(s, i)) <= s.len(),
{
    lemma_quoted_from_advances(s, i + 1);
    lemma_quoted_from_advances(s, i + 2);
    if s[i] == MINUS {
        lemma_number_end(s, i + 1);
    } else {
        lemma_number_end(s, i);
    }
    lemma_ident_end(s, i);
}

/// The tokens read from position `i` to the end of `s`, or the first error.
pub open spec fn lex_from(s: Seq<u8>, i: int) -> Result<Seq<SpecToken>, ParseErrorV>
    decreases s.len() - i,
{
    if i < 0 || i >= s.len() {
        Ok(Seq::empty())
    } else {
        proof {
            lemma_lex_step_advances(s, i);
        }
        match lex_step(s, i) {
            LexStep::Skip(j) => lex_from(s, j),
            LexStep::Emit(t, j) => match lex_from(s, j) {
                Ok(rest) => Ok(seq![t] + rest),
                Err(e) => Err(e),
            },
            LexStep::Fail(e) => Err(e),
        }
    }
}

/// `Ok(prefix + r)` for `Ok(r)`; errors unchanged.
pub open spec fn prepend_tokens(
    prefix: Seq<SpecToken>,
    r: Result<Seq<SpecToken>, ParseErrorV>,
) -> Result<Seq<SpecToken>, ParseErrorV> {
    match r {
        Ok(rest) => Ok(prefix + rest),
        Err(e) => Err(e),
    }
}

/// The mathematical form of the result of [`tokenize`].
pub open spec fn lex_result_view(r: Result<Vec<Token>, ParseError>) -> Result<Seq<SpecToken>, ParseErrorV> {
    match r {
        Ok(v) => Ok(tokens_view(v@)),
        Err(e) => Err(e@),
    }
}

/// The tokens of a STIX pattern string: [`lex_from`] applied to its bytes.
pub open spec fn spec_tokenize(src: Seq<u8>) -> Result<Seq<SpecToken>, ParseErrorV> {
    lex_from(src, 0)
}

/// What the lexer does at one position, as computed.
enum Step {
    Skip(usize),
    Emit(Token, usize),
    Fail(ParseError),
}

impl Step {
    spec fn view(self) -> LexStep {
        match self {
            Step::Skip(j) => LexStep::Skip(j as int),
            Step::Emit(t, j) => LexStep::Emit(t@, j as int),
            Step::Fail(e) => LexStep::Fail(e@),
        }
    }
}

fn message(text: &str) -> (s: String)
    ensures
        s@ == text@,
{
    text.to_owned()
}

fn span(start: usize, end: usize) -> (sp: Span)
    ensures
        sp == (Span { start, end }),
{
    Span::new(start, end)
}

fn byte_is(s: &[u8], i: usize, b: u8) -> (r: bool)
    ensures
        r == (byte_at(s@, i as int) == Some(b)),
{
    i < s.len() && s[i] == b
}

fn peek_is_digit(s: &[u8], i: usize) -> (r: bool)
    ensures
        r == (byte_at(s@, i as int) matches Some(d) && is_digit_byte(d)),
{
    i < s.len() && DIGIT_ZERO <= s[i] && s[i] <= DIGIT_NINE
}

/// Reads a single-quoted string body; `q` is the position of the opening quote.
/// Returns the decoded contents and the position past the closing quote.
fn read_quoted(s: &[u8], q: usize) -> (r: Result<(String, usize), ParseError>)
    requires
        q < s@.len(),
    ensures
        match r {
            Ok((body, e)) => quoted_from(s@, q + 1) == Some((body@, e as int)),
            Err(err) => quoted_from(s@, q + 1) is None && err@ == error_at(
                "unterminated string literal"@,
                q as int,
                s@.len() as int,
            ),
        },
{
    let n = s.len();
    let mut out: Vec<char> = Vec::new();
    let mut i: usize = q + 1;
    while i < s.len()
        invariant
            q + 1 <= i <= s@.len(),
            quoted_from(s@, q + 1) == prepend_chars(out@, quoted_from(s@, i as int)),
        decreases s@.len() - i,
    {
        let c = s[i];
        if c == BACKSLASH {
            if byte_is(s, i + 1, QUOTE) {
                proof {
                    assert(out@ + (seq!['\''] + body_of(quoted_from(s@, i + 2))) == out@.push('\'')
                        + body_of(quoted_from(s@, i + 2)));
                }
                out.push('\'');
                i = i + 2;
            } else if byte_is(s, i + 1, BACKSLASH) {
                proof {
                    assert(out@ + (seq!['\\'] + body_of(quoted_from(s@, i + 2))) == out@.push('\\')
                        + body_of(quoted_from(s@, i + 2)));
                }
                out.push('\\');
                i = i + 2;
            } else {
                proof {
                    assert(out@ + (seq!['\\'] + body_of(quoted_from(s@, i + 1))) == out@.push('\\')
                        + body_of(quoted_from(s@, i + 1)));
                }
                out.push('\\');
                i = i + 1;
            }
        } else if c == QUOTE {
            assert(out@ + Seq::<char>::empty() == out@);
            return Ok((string_from_chars(&out), i + 1));
        } else {
            match decode_char_at(s, i) {
                Some((ch, w)) => {
                    proof {
                        assert(out@ + (seq![ch] + body_of(quoted_from(s@, i + w))) == out@.push(ch)
                            + body_of(quoted_from(s@, i + w)));
                    }
                    out.push(ch);
                    i = i + w;
                },
                None => {
                    proof {
                        assert(out@ + (seq![c as char] + body_of(quoted_from(s@, i + 1)))
                            == out@.push(c as char) + body_of(quoted_from(s@, i + 1)));
                    }
                    out.push(c as char);
                    i = i + 1;
                },
            }
        }
    }
    Err(ParseError::new(message("unterminated string literal"), span(q, s.len())))
}

/// Map an upper-cased word to its keyword token kind, or `None` if it is an identifier.
fn keyword(u: &Vec<u8>) -> (r: Option<TokenKind>)
    ensures
        option_kind_view(r) == keyword_of(u@),
{
    if u.len() == 3 && u[0] == 65 && u[1] == 78 && u[2] == 68 {
        assert(u@ =~= seq![65u8, 78u8, 68u8]);
        return Some(TokenKindOf::And);
    }
    if u.len() == 2 && u[0] == 79 && u[1] == 82 {
        assert(u@ =~= seq![79u8, 82u8]);
        return Some(TokenKindOf::Or);
    }
    if u.len() == 3 && u[0] == 78 && u[1] == 79 && u[2] == 84 {
        assert(u@ =~= seq![78u8, 79u8, 84u8]);
        return Some(TokenKindOf::Not);
    }
    if u.len() == 10 && u[0] == 70 && u[1] == 79 && u[2] == 76 && u[3] == 76 && u[4] == 79 && u[5] == 87 && u[6] == 69 && u[7] == 68 && u[8] == 66 && u[9] == 89 {
        assert(u@ =~= seq![70u8, 79u8, 76u8, 76u8, 79u8, 87u8, 69u8, 68u8, 66u8, 89u8]);
        return Some(TokenKindOf::FollowedBy);
    }
    if u.len() == 4 && u[0] == 76 && u[1] == 73 && u[2] == 75 && u[3] == 69 {
        assert(u@ =~= seq![76u8, 73u8, 75u8, 69u8]);
        return Some(TokenKindOf::Like);
    }
    if u.len() == 7 && u[0] == 77 && u[1] == 65 && u[2] == 84 && u[3] == 67 && u[4] == 72 && u[5] == 69 && u[6] == 83 {
        assert(u@ =~= seq![77u8, 65u8, 84u8, 67u8, 72u8, 69u8, 83u8]);
        return Some(TokenKindOf::Matches);
    }
    if u.len() == 2 && u[0] == 73 && u[1] == 78 {
        assert(u@ =~= seq![73u8, 78u8]);
        return Some(TokenKindOf::In);
    }
    if u.len() == 8 && u[0] == 73 && u[1] == 83 && u[2] == 83 && u[3] == 85 && u[4] == 66 && u[5] == 83 && u[6] == 69 && u[7] == 84 {
        assert(u@ =~= seq![73u8, 83u8, 83u8, 85u8, 66u8, 83u8, 69u8, 84u8]);
        return Some(TokenKindOf::IsSubset);
    }
    if u.len() == 10 && u[0] == 73 && u[1] == 83 && u[2] == 83 && u[3] == 85 && u[4] == 80 && u[5] == 69 && u[6] == 82 && u[7] == 83 && u[8] == 69 && u[9] == 84 {
        assert(u@ =~= seq![73u8, 83u8, 83u8, 85u8, 80u8, 69u8, 82u8, 83u8, 69u8, 84u8]);
        return Some(TokenKindOf::IsSuperset);
    }
    if u.len() == 6 && u[0] == 69 && u[1] == 88 && u[2] == 73 && u[3] == 83 && u[4] == 84 && u[5] == 83 {
        assert(u@ =~= seq![69u8, 88u8, 73u8, 83u8, 84u8, 83u8]);
        return Some(TokenKindOf::Exists);
    }
    if u.len() == 6 && u[0] == 87 && u[1] == 73 && u[2] == 84 && u[3] == 72 && u[4] == 73 && u[5] == 78 {
        assert(u@ =~= seq![87u8, 73u8, 84u8, 72u8, 73u8, 78u8]);
        return Some(TokenKindOf::Within);
    }
    if u.len() == 7 && u[0] == 82 && u[1] == 69 && u[2] == 80 && u[3] == 69 && u[4] == 65 && u[5] == 84 && u[6] == 83 {
        assert(u@ =~= seq![82u8, 69u8, 80u8, 69u8, 65u8, 84u8, 83u8]);
        return Some(TokenKindOf::Repeats);
    }
    if u.len() == 7 && u[0] == 83 && u[1] == 69 && u[2] == 67 && u[3] == 79 && u[4] == 78 && u[5] == 68 && u[6] == 83 {
        assert(u@ =~= seq![83u8, 69u8, 67u8, 79u8, 78u8, 68u8, 83u8]);
        return Some(TokenKindOf::Seconds);
    }
    if u.len() == 5 && u[0] == 84 && u[1] == 73 && u[2] == 77 && u[3] == 69 && u[4] == 83 {
        assert(u@ =~= seq![84u8, 73u8, 77u8, 69u8, 83u8]);
        return Some(TokenKindOf::Times);
    }
    if u.len() == 5 && u[0] == 83 && u[1] == 84 && u[2] == 65 && u[3] == 82 && u[4] == 84 {
        assert(u@ =~= seq![83u8, 84u8, 65u8, 82u8, 84u8]);
        return Some(TokenKindOf::Start);
    }
    if u.len() == 4 && u[0] == 83 && u[1] == 84 && u[2] == 79 && u[3] == 80 {
        assert(u@ =~= seq![83u8, 84u8, 79u8, 80u8]);
        return Some(TokenKindOf::Stop);
    }
    if u.len() == 4 && u[0] == 84 && u[1] == 82 && u[2] == 85 && u[3] == 69 {
        assert(u@ =~= seq![84u8, 82u8, 85u8, 69u8]);
        return Some(TokenKindOf::Boolean(true));
    }
    if u.len() == 5 && u[0] == 70 && u[1] == 65 && u[2] == 76 && u[3] == 83 && u[4] == 69 {
        assert(u@ =~= seq![70u8, 65u8, 76u8, 83u8, 69u8]);
        return Some(TokenKindOf::Boolean(false));
    }
    None
}

fn upper_word(s: &[u8], start: usize, end: usize) -> (u: Vec<u8>)
    requires
        start <= end <= s@.len(),
    ensures
        u@ == upper_bytes(s@.subrange(start as int, end as int)),
{
    let mut u: Vec<u8> = Vec::new();
    let mut i = start;
    while i < end
        invariant
            start <= i <= end <= s@.len(),
            u@ == upper_bytes(s@.subrange(start as int, i as int)),
        decreases end - i,
    {
        let c = s[i];
        let d = if 97 <= c && c <= 122 {
            c - 32
        } else {
            c
        };
        u.push(d);
        i = i + 1;
        assert(upper_bytes(s@.subrange(start as int, i as int)) =~= upper_bytes(
            s@.subrange(start as int, i - 1),
        ).push(d));
    }
    u
}

fn chars_of_bytes(s: &[u8], start: usize, end: usize) -> (out: String)
    requires
        start <= end <= s@.len(),
    ensures
        out@ == bytes_as_chars(s@.subrange(start as int, end as int)),
{
    let mut v: Vec<char> = Vec::new();
    let mut i = start;
    while i < end
        invariant
            start <= i <= end <= s@.len(),
            v@ == bytes_as_chars(s@.subrange(start as int, i as int)),
        decreases end - i,
    {
        v.push(s[i] as char);
        i = i + 1;
        assert(bytes_as_chars(s@.subrange(start as int, i as int)) =~= bytes_as_chars(
            s@.subrange(start as int, i - 1),
        ).push(s@[i - 1] as char));
    }
    string_from_chars(&v)
}

/// Handles bare words (keywords, identifiers, booleans) and the typed-literal
/// prefixes `t'...'`, `b'...'`, `h'...'`.
fn lex_word_or_typed_literal(s: &[u8], i: usize) -> (r: Step)
    requires
        i < s@.len(),
        ident_start_byte(s@[i as int]),
    ensures
        r@ == word_step(s@, i as int),
{
    let c = s[i];
    if (c == LOWER_T || c == LOWER_B || c == LOWER_H) && byte_is(s, i + 1, QUOTE) {
        match read_quoted(s, i + 1) {
            Ok((body, e)) => {
                let kind = if c == LOWER_T {
                    TokenKindOf::Timestamp(body)
                } else if c == LOWER_B {
                    TokenKindOf::Binary(body)
                } else {
                    TokenKindOf::Hex(body)
                };
                Step::Emit(Token { kind, span: span(i, e) }, e)
            },
            Err(err) => Step::Fail(err),
        }
    } else {
        let mut e = i;
        while e < s.len() && is_ident_continue(s[e])
            invariant
                i <= e <= s@.len(),
                ident_end(s@, i as int) == ident_end(s@, e as int),
            decreases s@.len() - e,
        {
            e = e + 1;
        }
        let u = upper_word(s, i, e);
        let kind = match keyword(&u) {
            Some(k) => k,
            None => TokenKindOf::Identifier(chars_of_bytes(s, i, e)),
        };
        Step::Emit(Token { kind, span: span(i, e) }, e)
    }
}

proof fn lemma_digits_value_monotone(d: Seq<u8>, k: int)
    requires
        0 <= k <= d.len(),
        all_digits(d),
    ensures
        digits_value(d.subrange(0, k)) <= digits_value(d),
    decreases d.len(),
{
    if k < d.len() {
        assert(all_digits(d.drop_last()));
        assert(d.drop_last().subrange(0, k) =~= d.subrange(0, k));
        lemma_digits_value_monotone(d.drop_last(), k);
    } else {
        assert(d.subrange(0, k) =~= d);
    }
}

proof fn lemma_first_dot(u: Seq<u8>, k: int)
    requires
        0 <= k < u.len(),
        u[k] == DOT,
        forall|j: int| 0 <= j < k ==> u[j] != DOT,
    ensures
        first_dot(u) == k,
    decreases k,
{
    if k > 0 {
        lemma_first_dot(u.drop_first(), k - 1);
    }
}

proof fn lemma_strip_zeros_step(d: Seq<u8>)
    requires
        d.len() > 0,
        d[0] == DIGIT_ZERO,
    ensures
        strip_zeros(d) == strip_zeros(d.drop_first()),
{
}

/// Reads a number (a minus sign or digits, then digits and points) at `i`.
#[verifier::rlimit(40)]
fn lex_number(s: &[u8], i: usize) -> (r: Step)
    requires
        i < s@.len(),
        s@[i as int] == MINUS || is_digit_byte(s@[i as int]),
    ensures
        r@ == number_step(s@, i as int),
{
    let ghost sv = s@;
    let digits_start = if s[i] == MINUS {
        i + 1
    } else {
        i
    };
    let mut e = digits_start;
    while e < s.len() && ((DIGIT_ZERO <= s[e] && s[e] <= DIGIT_NINE) || s[e] == DOT)
        invariant
            digits_start <= e <= s@.len(),
            number_end(s@, digits_start as int) == number_end(s@, e as int),
        decreases s@.len() - e,
    {
        e = e + 1;
    }
    let ghost t = sv.subrange(i as int, e as int);
    let ghost u = sv.subrange(digits_start as int, e as int);
    assert(unsigned_part(t) =~= u);
    // Count the points and digits of the unsigned part.
    let mut dots: usize = 0;
    let mut digits: usize = 0;
    let mut k = digits_start;
    while k < e
        invariant
            digits_start <= k <= e <= s@.len(),
            sv == s@,
            dots == dot_count(sv.subrange(digits_start as int, k as int)),
            digits == digit_count(sv.subrange(digits_start as int, k as int)),
            dots <= k - digits_start,
            digits <= k - digits_start,
        decreases e - k,
    {
        assert(sv.subrange(digits_start as int, k + 1).drop_last() =~= sv.subrange(
            digits_start as int,
            k as int,
        ));
        if s[k] == DOT {
            dots = dots + 1;
        }
        if DIGIT_ZERO <= s[k] && s[k] <= DIGIT_NINE {
            digits = digits + 1;
        }
        k = k + 1;
    }
    if dots > 0 {
        if dots == 1 && digits >= 1 {
            // Locate the point.
            let mut p = digits_start;
            while p < e && s[p] != DOT
                invariant
                    digits_start <= p <= e <= s@.len(),
                    sv == s@,
                    forall|j: int| digits_start <= j < p ==> sv[j] != DOT,
                decreases e - p,
            {
                p = p + 1;
            }
            proof {
                if p == e {
                    assert forall|j: int| 0 <= j < u.len() implies u[j] != DOT by {
                        assert(u[j] == sv[digits_start + j]);
                    }
                    lemma_no_dot_count(u);
                }
                assert forall|j: int| 0 <= j < p - digits_start implies u[j] != DOT by {
                    assert(u[j] == sv[digits_start + j]);
                }
                lemma_first_dot(u, p - digits_start);
            }
            // Integer part without leading zeros.
            let mut z = digits_start;
            while z < p && s[z] == DIGIT_ZERO
                invariant
                    digits_start <= z <= p < e <= s@.len(),
                    sv == s@,
                    strip_zeros(sv.subrange(digits_start as int, p as int)) == strip_zeros(
                        sv.subrange(z as int, p as int),
                    ),
                decreases p - z,
            {
                proof {
                    lemma_strip_zeros_step(sv.subrange(z as int, p as int));
                    assert(sv.subrange(z as int, p as int).drop_first() =~= sv.subrange(
                        z + 1,
                        p as int,
                    ));
                }
                z = z + 1;
            }
            assert(strip_zeros(sv.subrange(z as int, p as int)) == sv.subrange(z as int, p as int));
            assert(u.subrange(0, p - digits_start) =~= sv.subrange(digits_start as int, p as int));
            assert(u.subrange(p - digits_start + 1, u.len() as int) =~= sv.subrange(
                p + 1,
                e as int,
            ));
            let mut numeral: Vec<char> = Vec::new();
            if s[i] == MINUS {
                numeral.push('-');
            }
            let ghost sign = numeral@;
            if z == p {
                numeral.push('0');
            } else {
                let ip = chars_of_bytes(s, z, p);
                push_str_chars(&mut numeral, ip.as_str());
            }
            let ghost with_int = numeral@;
            numeral.push('.');
            if p + 1 == e {
                numeral.push('0');
            } else {
                let fp = chars_of_bytes(s, p + 1, e);
                push_str_chars(&mut numeral, fp.as_str());
            }
            assert(numeral@ =~= json_numeral(t));
            let text = string_from_chars(&numeral);
            let bits = match nearest_binary64(text.as_str()) {
                Some(b) => b,
                None => if s[i] == MINUS {
                    NEGATIVE_INFINITY
                } else {
                    POSITIVE_INFINITY
                },
            };
            Step::Emit(Token { kind: TokenKindOf::Float(bits), span: span(i, e) }, e)
        } else {
            Step::Fail(ParseError::new(message("invalid float literal"), span(i, e)))
        }
    } else {
        // An integer: `-?[0-9]+`, within the range of i64.
        let mut acc: u128 = 0;
        let mut q = digits_start;
        let mut ok = digits_start < e;
        while q < e && ok
            invariant
                digits_start <= q <= e <= s@.len(),
                sv == s@,
                t == sv.subrange(i as int, e as int),
                u == sv.subrange(digits_start as int, e as int),
                digits_start == (if sv[i as int] == MINUS { i + 1 } else { i as int }),
                acc <= 0x8000_0000_0000_0000,
                ok ==> all_digits(sv.subrange(digits_start as int, q as int)),
                ok ==> acc == digits_value(sv.subrange(digits_start as int, q as int)),
                ok ==> digits_start < e,
                !ok ==> i64_of_numeral(t) is None,
            decreases e - q,
        {
            let c = s[q];
            assert(sv.subrange(digits_start as int, q + 1).drop_last() =~= sv.subrange(
                digits_start as int,
                q as int,
            ));
            if !(DIGIT_ZERO <= c && c <= DIGIT_NINE) {
                proof {
                    assert(u[q - digits_start] == c);
                    if t.len() > 0 && t[0] == MINUS {
                        assert(t.drop_first() =~= u);
                    }
                }
                ok = false;
            } else {
                let next = acc * 10 + (c - DIGIT_ZERO) as u128;
                if next > 0x8000_0000_0000_0000 {
                    proof {
                        if all_digits(u) {
                            assert(u.subrange(0, q + 1 - digits_start) =~= sv.subrange(
                                digits_start as int,
                                q + 1,
                            ));
                            lemma_digits_value_monotone(u, q + 1 - digits_start);
                        }
                        if t.len() > 0 && t[0] == MINUS {
                            assert(t.drop_first() =~= u);
                        }
                    }
                    ok = false;
                } else {
                    acc = next;
                }
            }
            q = q + 1;
        }
        if ok {
            assert(sv.subrange(digits_start as int, e as int) =~= u);
            assert(t[0] == sv[i as int]);
            if s[i] == MINUS {
                assert(t.drop_first() =~= u);
                assert(digits_value(u) == acc);
                assert(i64_of_numeral(t) == Some((0 - digits_value(u)) as i64));
                let n: i64 = if acc == 0x8000_0000_0000_0000 {
                    i64::MIN
                } else {
                    0 - (acc as i64)
                };
                return Step::Emit(Token { kind: TokenKindOf::Integer(n), span: span(i, e) }, e);
            } else {
                assert(t =~= u);
                if acc <= 0x7FFF_FFFF_FFFF_FFFF {
                    let n = acc as i64;
                    assert(i64_of_numeral(t) == Some(n));
                    return Step::Emit(Token { kind: TokenKindOf::Integer(n), span: span(i, e) }, e);
                }
            }
        }
        Step::Fail(ParseError::new(message("invalid integer literal"), span(i, e)))
    }
}

proof fn lemma_no_dot_count(u: Seq<u8>)
    requires
        forall|j: int| 0 <= j < u.len() ==> u[j] != DOT,
    ensures
        dot_count(u) == 0,
    decreases u.len(),
{
    if u.len() > 0 {
        lemma_no_dot_count(u.drop_last());
    }
}

fn punct_step(kind: TokenKind, i: usize) -> (r: Step)
    requires
        i < usize::MAX,
    ensures
        r@ == punct(kind@, i as int),
{
    Step::Emit(Token { kind, span: span(i, i + 1) }, i + 1)
}

fn pair_step(s: &[u8], i: usize, pair: TokenKind, single: TokenKind) -> (r: Step)
    requires
        i < s@.len(),
    ensures
        r@ == pair_or_single(s@, i as int, pair@, single@),
{
    let n = s.len();
    if i + 1 < n && s[i + 1] == EQUALS {
        Step::Emit(Token { kind: pair, span: span(i, i + 2) }, i + 2)
    } else {
        punct_step(single, i)
    }
}

fn lex_bang(s: &[u8], i: usize) -> (r: Step)
    requires
        i < s@.len(),
    ensures
        byte_at(s@, i + 1) == Some(EQUALS) ==> r@ == LexStep::Emit(
            token_at(TokenKindOf::NotEqual, i as int, i + 2),
            i + 2,
        ),
        byte_at(s@, i + 1) != Some(EQUALS) ==> r@ == LexStep::Fail(
            error_at("expected '=' after '!'"@, i as int, i + 1),
        ),
{
    let n = s.len();
    if i + 1 < n && s[i + 1] == EQUALS {
        Step::Emit(Token { kind: TokenKindOf::NotEqual, span: span(i, i + 2) }, i + 2)
    } else {
        Step::Fail(ParseError::new(message("expected '=' after '!'"), span(i, i + 1)))
    }
}

fn lex_string(s: &[u8], i: usize) -> (r: Step)
    requires
        i < s@.len(),
    ensures
        r@ == (match quoted_from(s@, i + 1) {
            Some((body, e)) => LexStep::Emit(token_at(TokenKindOf::String(body), i as int, e), e),
            None => LexStep::Fail(error_at("unterminated string literal"@, i as int, s@.len() as int)),
        }),
{
    match read_quoted(s, i) {
        Ok((body, e)) => Step::Emit(Token { kind: TokenKindOf::String(body), span: span(i, e) }, e),
        Err(err) => Step::Fail(err),
    }
}

/// The error for a byte that starts no token: the message names that byte
/// as the character with its code (for a non-ASCII character, its first byte).
fn unexpected_character(c: u8, i: usize) -> (r: Step)
    requires
        i < usize::MAX,
    ensures
        r@ == LexStep::Fail(error_at("unexpected character '"@ + seq![c as char] + "'"@, i as int, i + 1)),
{
    let mut v: Vec<char> = Vec::new();
    push_str_chars(&mut v, "unexpected character '");
    let ghost v1 = v@;
    v.push(c as char);
    let ghost v2 = v@;
    push_str_chars(&mut v, "'");
    assert(v2 =~= v1 + seq![c as char]);
    Step::Fail(ParseError::new(string_from_chars(&v), span(i, i + 1)))
}

/// What the lexer does at position `i`.
fn next_step(s: &[u8], i: usize) -> (r: Step)
    requires
        i < s@.len(),
    ensures
        r@ == lex_step(s@, i as int),
{
    let c = s[i];
    if c == SPACE || c == TAB || c == CARRIAGE_RETURN || c == LINE_FEED {
        Step::Skip(i + 1)
    } else if c == LEFT_BRACKET {
        punct_step(TokenKindOf::LBracket, i)
    } else if c == RIGHT_BRACKET {
        punct_step(TokenKindOf::RBracket, i)
    } else if c == LEFT_PAREN {
        punct_step(TokenKindOf::LParen, i)
    } else if c == RIGHT_PAREN {
        punct_step(TokenKindOf::RParen, i)
    } else if c == COLON {
        punct_step(TokenKindOf::Colon, i)
    } else if c == DOT && !peek_is_digit(s, i + 1) {
        punct_step(TokenKindOf::Dot, i)
    } else if c == COMMA {
        punct_step(TokenKindOf::Comma, i)
    } else if c == ASTERISK {
        punct_step(TokenKindOf::Star, i)
    } else if c == EQUALS {
        punct_step(TokenKindOf::Equal, i)
    } else if c == BANG {
        lex_bang(s, i)
    } else if c == LESS {
        pair_step(s, i, TokenKindOf::LessThanOrEqual, TokenKindOf::LessThan)
    } else if c == GREATER {
        pair_step(s, i, TokenKindOf::GreaterThanOrEqual, TokenKindOf::GreaterThan)
    } else if c == QUOTE {
        lex_string(s, i)
    } else if c == MINUS || (DIGIT_ZERO <= c && c <= DIGIT_NINE) {
        lex_number(s, i)
    } else if is_ident_start(c) {
        lex_word_or_typed_literal(s, i)
    } else {
        unexpected_character(c, i)
    }
}

/// Tokenize a STIX pattern string into a vector of tokens.
pub fn tokenize(src: &str) -> (r: Result<Vec<Token>, ParseError>)
    ensures
        lex_result_view(r) == spec_tokenize(src.spec_bytes()),
{
    let s = src.as_bytes();
    let mut tokens: Vec<Token> = Vec::new();
    let mut pos: usize = 0;
    assert(tokens_view(tokens@) + lex_from(s@, 0)->Ok_0 =~= lex_from(s@, 0)->Ok_0);
    while pos < s.len()
        invariant
            pos <= s@.len(),
            s@ == src.spec_bytes(),
            lex_from(s@, 0) == prepend_tokens(tokens_view(tokens@), lex_from(s@, pos as int)),
        decreases s@.len() - pos,
    {
        proof {
            lemma_lex_step_advances(s@, pos as int);
        }
        let st = next_step(s, pos);
        match st {
            Step::Skip(j) => {
                pos = j;
            },
            Step::Emit(t, j) => {
                let ghost before = tokens_view(tokens@);
                proof {
                    if let Ok(rest) = lex_from(s@, j as int) {
                        assert(before + (seq![t@] + rest) =~= before.push(t@) + rest);
                    }
                }
                tokens.push(t);
                assert(tokens_view(tokens@) =~= before.push(t@));
                pos = j;
            },
            Step::Fail(e) => {
                return Err(e);
            },
        }
    }
    assert(tokens_view(tokens@) + Seq::<SpecToken>::empty() =~= tokens_view(tokens@));
    Ok(tokens)
}

} // verus!
