//! The decisions of the binding engine: parsing patterns, classifying bundle
//! errors, and running matches, with errors mapped to [`FfiError`].

use vstd::prelude::*;
use vstd::string::StringSliceAdditionalSpecFns;
use vstd::string::StringExecFns;

use crate::ffi::error::{ErrorCode, FfiError};
use crate::ffi::handles::MatchOutcome;
use crate::matcher::error::{match_error_text, MatchError};
use crate::matcher::eval::pattern_outcome;
use crate::matcher::match_bundle;
use crate::matcher::{observed_data_in, observed_data_observations};
use crate::model::bundle::Bundle;
use crate::model::error::{model_error_text, ModelError, ModelErrorV};
use crate::model::store::store_entries;
use crate::pattern::ast::Pattern;
use crate::pattern::error::parse_error_text;
use crate::pattern::parser::{parse, spec_parse};
use crate::text::chars_of;
use crate::text::string_from_chars;

verus! {

/// The prefix that marks a model error as a rejection by a registered
/// validation hook.
pub open spec fn validation_prefix() -> Seq<char> {
    "[Validation] "@
}

/// The model error for a validation hook's rejection message.
pub fn validation_error(message: &str) -> (e: ModelError)
    ensures
        e@ == ModelErrorV::InvalidObject(validation_prefix() + message@),
{
    let mut m = String::from_str("[Validation] ");
    m.append(message);
    ModelError::InvalidObject(m)
}

/// A message with every leading copy of the validation prefix removed.
pub open spec fn strip_validation_prefixes(m: Seq<char>) -> Seq<char>
    decreases m.len() via strip_validation_prefixes_decreases
{
    if validation_prefix().is_prefix_of(m) {
        strip_validation_prefixes(m.subrange(validation_prefix().len() as int, m.len() as int))
    } else {
        m
    }
}

#[via_fn]
proof fn strip_validation_prefixes_decreases(m: Seq<char>) {
    reveal_strlit("[Validation] ");
}

/// Whether `p` occurs in `cs` at position `at`.
fn occurs_at(p: &Vec<char>, cs: &Vec<char>, at: usize) -> (r: bool)
    requires
        at <= cs@.len(),
    ensures
        r == p@.is_prefix_of(cs@.subrange(at as int, cs@.len() as int)),
{
    if p.len() > cs.len() - at {
        return false;
    }
    let mut i: usize = 0;
    while i < p.len()
        invariant
            0 <= i <= p@.len(),
            at + p@.len() <= cs@.len(),
            cs@.len() <= usize::MAX,
            forall|k: int| 0 <= k < i ==> p@[k] == cs@[at + k],
        decreases p@.len() - i,
    {
        if p[i] != cs[at + i] {
            assert(p@[i as int] != cs@.subrange(at as int, cs@.len() as int)[i as int]);
            return false;
        }
        i = i + 1;
    }
    assert(p@ =~= cs@.subrange(at as int, cs@.len() as int).subrange(0, p@.len() as int));
    true
}

/// The facade error for a bundle that could not be read: a rejection by a
/// validation hook (an invalid-object error whose message has the validation
/// prefix) becomes a `Validation` error with every leading copy of the prefix
/// removed; any other error is a `Model` error.
pub fn bundle_error(e: ModelError) -> (f: FfiError)
    ensures
        (match e@ {
            ModelErrorV::InvalidObject(m) => if validation_prefix().is_prefix_of(m) {
                f.code == ErrorCode::Validation && f.message@ == strip_validation_prefixes(m)
            } else {
                f.code == ErrorCode::Model && f.message@ == model_error_text(e@)
            },
            _ => f.code == ErrorCode::Model && f.message@ == model_error_text(e@),
        }),
{
    match &e {
        ModelError::InvalidObject(m) => {
            let p = chars_of("[Validation] ");
            let cs = chars_of(m.as_str());
            proof {
                reveal_strlit("[Validation] ");
            }
            if !occurs_at(&p, &cs, 0) {
                assert(cs@.subrange(0, cs@.len() as int) =~= cs@);
                return FfiError::from_model_error(e);
            }
            let mut at: usize = 0;
            let _n: usize = cs.len();
            assert(cs@.subrange(0, cs@.len() as int) =~= cs@);
            while occurs_at(&p, &cs, at)
                invariant
                    at <= cs@.len(),
                    p@ == validation_prefix(),
                    p@.len() > 0,
                    cs@.len() <= usize::MAX,
                    cs@ == m@,
                    strip_validation_prefixes(cs@.subrange(at as int, cs@.len() as int))
                        == strip_validation_prefixes(m@),
                decreases cs@.len() - at,
            {
                proof {
                    let t = cs@.subrange(at as int, cs@.len() as int);
                    assert(t.subrange(p@.len() as int, t.len() as int)
                        =~= cs@.subrange(at + p@.len(), cs@.len() as int));
                }
                at = at + p.len();
            }
            let mut rest: Vec<char> = Vec::new();
            let mut j = at;
            while j < cs.len()
                invariant
                    at <= j <= cs@.len(),
                    rest@ == cs@.subrange(at as int, j as int),
                decreases cs@.len() - j,
            {
                rest.push(cs[j]);
                j = j + 1;
            }
            assert(cs@.subrange(0, cs@.len() as int) =~= cs@);
            FfiError { code: ErrorCode::Validation, message: string_from_chars(&rest) }
        },
        _ => FfiError::from_model_error(e),
    }
}

/// Parse a STIX pattern, mapping a parse error to a `Parse` error.
pub fn parse_pattern(src: &str) -> (r: Result<Pattern, FfiError>)
    ensures
        (match (r, spec_parse(src.spec_bytes())) {
            (Ok(p), Ok(q)) => p@ == q,
            (Err(f), Err(e)) => f.code == ErrorCode::Parse && f.message@ == parse_error_text(e),
            _ => false,
        }),
{
    match parse(src) {
        Ok(p) => Ok(p),
        Err(e) => Err(FfiError::from_parse_error(e)),
    }
}

/// Match a pattern against a bundle, as a plain outcome; a matcher error is a
/// `Match` error.
pub fn match_bundle_outcome(pattern: &Pattern, bundle: &Bundle) -> (r: Result<MatchOutcome, FfiError>)
    ensures
        exists|m: Result<crate::matcher::result::MatchResult, MatchError>| {
            &&& pattern_outcome(
                pattern@.expression,
                observed_data_observations(observed_data_in(bundle@.objects), store_entries(bundle@.objects)),
                Some(store_entries(bundle@.objects)),
                m,
            )
            &&& match (m, r) {
                (Ok(res), Ok(o)) => o.matched == res@.0 && o.observations@.len() == res@.1.len()
                    && forall|i: int| 0 <= i < o.observations@.len() ==> #[trigger] o.observations@[i] == res@.1[i],
                (Err(e), Err(f)) => f.code == ErrorCode::Match && f.message@ == match_error_text(e),
                _ => false,
            }
        },
{
    let result = match_bundle(pattern, bundle);
    match result {
        Ok(res) => {
            let o = MatchOutcome::from_result(&res);
            assert(pattern_outcome(
                pattern@.expression,
                observed_data_observations(observed_data_in(bundle@.objects), store_entries(bundle@.objects)),
                Some(store_entries(bundle@.objects)),
                Ok::<crate::matcher::result::MatchResult, MatchError>(res),
            ));
            Ok(o)
        },
        Err(e) => {
            let ghost g = e;
            let f = FfiError::from_match_error(e);
            assert(pattern_outcome(
                pattern@.expression,
                observed_data_observations(observed_data_in(bundle@.objects), store_entries(bundle@.objects)),
                Some(store_entries(bundle@.objects)),
                Err::<crate::matcher::result::MatchResult, MatchError>(g),
            ));
            Err(f)
        },
    }
}

} // verus!
