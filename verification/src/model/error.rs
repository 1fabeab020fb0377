//! Errors of the object model.

use vstd::prelude::*;
use vstd::string::StringExecFns;

verus! {

/// Errors produced while importing or interpreting STIX objects.
#[derive(Debug, Clone, PartialEq, Eq)]
pub enum ModelError {
    /// The input could not be read as the expected JSON shape; the message
    /// says why.
    Json(String),
    /// A required property was missing or had the wrong type.
    InvalidObject(String),
    /// The input was not a STIX bundle.
    NotABundle(String),
}

/// The mathematical form of a [`ModelError`].
pub enum ModelErrorV {
    Json(Seq<char>),
    InvalidObject(Seq<char>),
    NotABundle(Seq<char>),
}

impl View for ModelError {
    type V = ModelErrorV;

    open spec fn view(&self) -> ModelErrorV {
        match self {
            ModelError::Json(m) => ModelErrorV::Json(m@),
            ModelError::InvalidObject(m) => ModelErrorV::InvalidObject(m@),
            ModelError::NotABundle(m) => ModelErrorV::NotABundle(m@),
        }
    }
}

/// The text of an error: a prefix naming its kind, then its message.
pub open spec fn model_error_text(e: ModelErrorV) -> Seq<char> {
    match e {
        ModelErrorV::Json(m) => "invalid JSON: "@ + m,
        ModelErrorV::InvalidObject(m) => "invalid STIX object: "@ + m,
        ModelErrorV::NotABundle(m) => "not a STIX bundle: "@ + m,
    }
}

impl ModelError {
    /// The error's text, as it is displayed.
    pub fn to_string(&self) -> (s: String)
        ensures
            s@ == model_error_text(self@),
    {
        match self {
            ModelError::Json(m) => {
                let mut s = String::from_str("invalid JSON: ");
                s.append(m.as_str());
                s
            },
            ModelError::InvalidObject(m) => {
                let mut s = String::from_str("invalid STIX object: ");
                s.append(m.as_str());
                s
            },
            ModelError::NotABundle(m) => {
                let mut s = String::from_str("not a STIX bundle: ");
                s.append(m.as_str());
                s
            },
        }
    }
}

} // verus!
