//! Verified toolkit for STIX 2.1: a lexer and parser for the patterning
//! language, an object model, and a matcher that evaluates patterns against
//! observed objects.

pub mod binary64;
pub mod text;
pub mod pattern;
pub mod model;
pub mod matcher;
pub mod ffi;

pub use matcher::{match_bundle, match_observations, match_observed_data, match_scos};
pub use pattern::parser::parse;
