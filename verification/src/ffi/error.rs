//! The facade's flat error type.

use vstd::prelude::*;
use vstd::string::StringExecFns;

use crate::matcher::error::{match_error_text, MatchError};
use crate::model::error::{model_error_text, ModelError};
use crate::pattern::error::{parse_error_text, ParseError};

verus! {

/// A coarse category that each binding maps to an exception type of its own.
#[derive(Debug, Clone, Copy, PartialEq, Eq, Structural)]
pub enum ErrorCode {
    Parse,
    Model,
    Match,
    Validation,
}

/// The name of an error code.
pub open spec fn code_name(code: ErrorCode) -> Seq<char> {
    match code {
        ErrorCode::Parse => "Parse"@,
        ErrorCode::Model => "Model"@,
        ErrorCode::Match => "Match"@,
        ErrorCode::Validation => "Validation"@,
    }
}

/// A flat error: a category and a human-readable message.
#[derive(Debug, Clone, PartialEq, Eq)]
pub struct FfiError {
    pub code: ErrorCode,
    pub message: String,
}

/// The text of an error: its code's name, a colon, and its message.
pub open spec fn ffi_error_text(e: FfiError) -> Seq<char> {
    code_name(e.code) + ": "@ + e.message@
}

impl FfiError {
    /// An error with the given code and message.
    pub fn new(code: ErrorCode, message: &str) -> (e: FfiError)
        ensures
            e.code == code,
            e.message@ == message@,
    {
        FfiError { code, message: String::from_str(message) }
    }

    /// The error's text, as it is displayed: `CODE: message`.
    pub fn to_string(&self) -> (s: String)
        ensures
            s@ == ffi_error_text(*self),
    {
        let mut s = match self.code {
            ErrorCode::Parse => String::from_str("Parse"),
            ErrorCode::Model => String::from_str("Model"),
            ErrorCode::Match => String::from_str("Match"),
            ErrorCode::Validation => String::from_str("Validation"),
        };
        s.append(": ");
        s.append(self.message.as_str());
        s
    }

    /// A parse error, with the parse error's text as message.
    pub fn from_parse_error(e: ParseError) -> (f: FfiError)
        ensures
            f.code == ErrorCode::Parse,
            f.message@ == parse_error_text(e@),
    {
        FfiError { code: ErrorCode::Parse, message: e.to_string() }
    }

    /// A model error, with the model error's text as message.
    pub fn from_model_error(e: ModelError) -> (f: FfiError)
        ensures
            f.code == ErrorCode::Model,
            f.message@ == model_error_text(e@),
    {
        FfiError { code: ErrorCode::Model, message: e.to_string() }
    }

    /// A matcher error, with the matcher error's text as message.
    pub fn from_match_error(e: MatchError) -> (f: FfiError)
        ensures
            f.code == ErrorCode::Match,
            f.message@ == match_error_text(e),
    {
        FfiError { code: ErrorCode::Match, message: e.to_string() }
    }
}

} // verus!
