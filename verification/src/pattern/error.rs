//! Source spans and parse errors.

use vstd::prelude::*;

use crate::text::{decimal_chars, push_decimal, push_str_chars, string_from_chars};

verus! {

/// A half-open byte range `[start, end)` into the original pattern string.
#[derive(Debug, Clone, Copy, PartialEq, Eq, Structural)]
pub struct Span {
    pub start: usize,
    pub end: usize,
}

impl Span {
    /// The span `[start, end)`.
    pub fn new(start: usize, end: usize) -> (span: Span)
        ensures
            span.start == start,
            span.end == end,
    {
        Span { start, end }
    }
}

/// The mathematical form of a [`ParseError`]: its message as characters.
pub struct ParseErrorV {
    pub message: Seq<char>,
    pub span: Span,
}

/// An error produced while lexing or parsing a STIX pattern.
#[derive(Debug, Clone, PartialEq, Eq)]
pub struct ParseError {
    pub message: String,
    pub span: Span,
}

impl View for ParseError {
    type V = ParseErrorV;

    open spec fn view(&self) -> ParseErrorV {
        ParseErrorV { message: self.message@, span: self.span }
    }
}

/// The text of a parse error: where it is, then what it says.
pub open spec fn parse_error_text(e: ParseErrorV) -> Seq<char> {
    "parse error at bytes "@ + decimal_chars(e.span.start as nat) + ".."@ + decimal_chars(e.span.end as nat) + ": "@ + e.message
}

impl ParseError {
    /// The error's text, as it is displayed:
    /// `parse error at bytes START..END: MESSAGE`.
    pub fn to_string(&self) -> (s: String)
        ensures
            s@ == parse_error_text(self@),
    {
        let mut out: Vec<char> = Vec::new();
        push_str_chars(&mut out, "parse error at bytes ");
        push_decimal(&mut out, self.span.start);
        push_str_chars(&mut out, "..");
        push_decimal(&mut out, self.span.end);
        push_str_chars(&mut out, ": ");
        push_str_chars(&mut out, self.message.as_str());
        string_from_chars(&out)
    }

    /// An error with the given message at the given span.
    pub fn new(message: String, span: Span) -> (e: ParseError)
        ensures
            e.message == message,
            e.span == span,
    {
        ParseError { message, span }
    }
}

} // verus!
