//! A flat facade over the toolkit, for language bindings: coarse error codes,
//! plain match outcomes, and the decisions of the binding engine.

pub mod error;
pub mod handles;
pub mod engine;

pub use error::{ErrorCode, FfiError};
pub use handles::MatchOutcome;
