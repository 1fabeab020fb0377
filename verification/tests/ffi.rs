use stix::ffi::engine::{bundle_error, match_bundle_outcome, parse_pattern, validation_error};
use stix::ffi::error::{ErrorCode, FfiError};
use stix::ffi::handles::MatchOutcome;
use stix::matcher::error::MatchError;
use stix::matcher::result::MatchResult;
use stix::model::bundle::Bundle;
use stix::model::error::ModelError;
use stix::model::value::StixValue;
use stix::parse;

fn to_value(v: serde_json::Value) -> StixValue {
    match v {
        serde_json::Value::Null => StixValue::Null,
        serde_json::Value::Bool(b) => StixValue::Bool(b),
        serde_json::Value::Number(n) => match n.as_i64() {
            Some(i) => StixValue::Integer(i),
            None => StixValue::Float(n.as_f64().unwrap_or(0.0).to_bits()),
        },
        serde_json::Value::String(s) => StixValue::String(s),
        serde_json::Value::Array(a) => StixValue::List(a.into_iter().map(to_value).collect()),
        serde_json::Value::Object(o) => {
            StixValue::Object(o.into_iter().map(|(k, v)| (k, to_value(v))).collect())
        }
    }
}

fn bundle_json() -> &'static str {
    r#"{"type":"bundle","id":"bundle--1","objects":[
        {"type":"ipv4-addr","id":"ipv4-addr--1","value":"198.51.100.5"},
        {"type":"observed-data","id":"observed-data--1",
         "first_observed":"2020-01-01T00:00:00Z","last_observed":"2020-01-01T00:00:00Z",
         "number_observed":1,"object_refs":["ipv4-addr--1"]}
    ]}"#
}

fn bundle(text: &str) -> Bundle {
    Bundle::from_json(&to_value(serde_json::from_str(text).unwrap())).unwrap()
}

#[test]
fn parse_error_maps_to_parse_code() {
    let e = parse("[bad").unwrap_err();
    let f = FfiError::from_parse_error(e);
    assert_eq!(f.code, ErrorCode::Parse);
    assert!(!f.message.is_empty());
}

#[test]
fn display_includes_code_and_message() {
    let f = FfiError::new(ErrorCode::Validation, "missing field");
    let s = f.to_string();
    assert!(s.contains("Validation"));
    assert!(s.contains("missing field"));
    assert_eq!(s, "Validation: missing field");
}

#[test]
fn error_conversions_keep_the_text() {
    let m = FfiError::from_model_error(ModelError::NotABundle("type was 'x'".into()));
    assert_eq!(m.code, ErrorCode::Model);
    assert_eq!(m.message, "not a STIX bundle: type was 'x'");
    let e = FfiError::from_match_error(MatchError::Unsupported("x".into()));
    assert_eq!(e.code, ErrorCode::Match);
    assert_eq!(e.message, "unsupported pattern feature: x");
    assert_eq!(FfiError::new(ErrorCode::Parse, "p").to_string(), "Parse: p");
    assert_eq!(FfiError::new(ErrorCode::Model, "m").to_string(), "Model: m");
    assert_eq!(FfiError::new(ErrorCode::Match, "x").to_string(), "Match: x");
}

#[test]
fn match_outcome_fields() {
    let o = MatchOutcome { matched: true, observations: vec![0, 2] };
    assert!(o.matched);
    assert_eq!(o.observations, vec![0, 2]);
    let from = MatchOutcome::from_result(&MatchResult::matched(vec![0, 2]));
    assert_eq!(from, o);
}

#[test]
fn parse_pattern_ok_and_err() {
    assert!(parse_pattern("[ipv4-addr:value = '1.2.3.4']").is_ok());
    let err = parse_pattern("[bad").unwrap_err();
    assert_eq!(err.code, ErrorCode::Parse);
}

#[test]
fn match_bundle_match_and_non_match() {
    let b = bundle(bundle_json());
    let hit = parse_pattern("[ipv4-addr:value = '198.51.100.5']").unwrap();
    let outcome = match_bundle_outcome(&hit, &b).unwrap();
    assert!(outcome.matched);
    assert_eq!(outcome.observations, vec![0]);
    let miss = parse_pattern("[ipv4-addr:value = '203.0.113.9']").unwrap();
    assert!(!match_bundle_outcome(&miss, &b).unwrap().matched);
    let followed = parse_pattern("[a:b = 1] FOLLOWEDBY [c:d = 2]").unwrap();
    assert_eq!(match_bundle_outcome(&followed, &b).unwrap_err().code, ErrorCode::Match);
}

#[test]
fn validation_rejections_become_validation_errors() {
    let e = bundle_error(validation_error("missing risk_score"));
    assert_eq!(e.code, ErrorCode::Validation);
    assert_eq!(e.message, "missing risk_score");
    let other = bundle_error(ModelError::InvalidObject("missing 'type' property".into()));
    assert_eq!(other.code, ErrorCode::Model);
    assert_eq!(other.message, "invalid STIX object: missing 'type' property");
    let short = bundle_error(ModelError::InvalidObject("[Valid".into()));
    assert_eq!(short.code, ErrorCode::Model);
    let json = bundle_error(ModelError::Json("[Validation] x".into()));
    assert_eq!(json.code, ErrorCode::Model);
}

#[test]
fn repeated_validation_prefixes_are_all_removed() {
    let e = bundle_error(ModelError::InvalidObject("[Validation] [Validation] x".into()));
    assert_eq!(e.code, ErrorCode::Validation);
    assert_eq!(e.message, "x");
    let inner = bundle_error(ModelError::InvalidObject("[Validation] a [Validation] b".into()));
    assert_eq!(inner.message, "a [Validation] b");
    let only = bundle_error(ModelError::InvalidObject("[Validation] ".into()));
    assert_eq!(only.code, ErrorCode::Validation);
    assert_eq!(only.message, "");
}
