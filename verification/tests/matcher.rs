use std::cmp::Ordering;

use stix::matcher::compare::{value_cmp_literal, value_eq_literal, value_in_set};
use stix::matcher::error::MatchError;
use stix::matcher::eval::{eval_comparison, eval_comparison_expression, eval_pattern};
use stix::matcher::observation::Observation;
use stix::matcher::pattern_ops::{like_matches, regex_matches};
use stix::matcher::resolve::resolve_path;
use stix::matcher::result::MatchResult;
use stix::matcher::subset::{is_subset, is_superset, masked, network_subset, Network};
use stix::model::bundle::Bundle;
use stix::model::object::StixObject;
use stix::model::store::ObjectStore;
use stix::model::value::StixValue;
use stix::pattern::ast::{
    Comparison, ComparisonExpression, ComparisonOperand, ComparisonOperator, Literal, ObjectPath,
    PathStep,
};
use stix::{match_bundle, match_observations, match_scos, parse};

fn to_value(v: serde_json::Value) -> StixValue {
    match v {
        serde_json::Value::Null => StixValue::Null,
        serde_json::Value::Bool(b) => StixValue::Bool(b),
        serde_json::Value::Number(n) => match n.as_i64() {
            Some(i) => StixValue::Integer(i),
            None => StixValue::Float(n.as_f64().unwrap_or(0.0).to_bits()),
        },
        serde_json::Value::String(s) => StixValue::String(s),
        serde_json::Value::Array(a) => StixValue::List(a.into_iter().map(to_value).collect()),
        serde_json::Value::Object(o) => {
            StixValue::Object(o.into_iter().map(|(k, v)| (k, to_value(v))).collect())
        }
    }
}

fn json(text: &str) -> StixValue {
    to_value(serde_json::from_str(text).unwrap())
}

fn obj(text: &str) -> StixObject {
    StixObject::from_json(json(text)).unwrap()
}

fn bundle(text: &str) -> Bundle {
    Bundle::from_json(&json(text)).unwrap()
}

// ---------------------------------------------------------------- compare

#[test]
fn string_equality() {
    assert!(value_eq_literal(&StixValue::String("a".into()), &Literal::String("a".into())));
    assert!(!value_eq_literal(&StixValue::String("a".into()), &Literal::String("b".into())));
}

#[test]
fn numeric_equality_crosses_int_float() {
    assert!(value_eq_literal(&StixValue::Integer(3), &Literal::Integer(3)));
    assert!(value_eq_literal(&StixValue::Integer(3), &Literal::Float(3.0f64.to_bits())));
    assert!(value_eq_literal(&StixValue::Float(3.0f64.to_bits()), &Literal::Integer(3)));
    assert!(!value_eq_literal(&StixValue::Integer(3), &Literal::Integer(4)));
}

#[test]
fn typed_literals_compare_as_strings() {
    assert!(value_eq_literal(
        &StixValue::String("2020-01-01T00:00:00Z".into()),
        &Literal::Timestamp("2020-01-01T00:00:00Z".into())
    ));
    assert!(value_eq_literal(&StixValue::String("cafe".into()), &Literal::Hex("cafe".into())));
}

#[test]
fn ordering() {
    assert_eq!(
        value_cmp_literal(&StixValue::Integer(2), &Literal::Integer(5)),
        Some(Ordering::Less)
    );
    assert_eq!(
        value_cmp_literal(&StixValue::String("b".into()), &Literal::String("a".into())),
        Some(Ordering::Greater)
    );
    assert_eq!(value_cmp_literal(&StixValue::Bool(true), &Literal::Integer(1)), None);
}

#[test]
fn membership() {
    let set = vec![Literal::Integer(1), Literal::Integer(2)];
    assert!(value_in_set(&StixValue::Integer(2), &set));
    assert!(!value_in_set(&StixValue::Integer(3), &set));
}

#[test]
fn float_comparisons_follow_ieee() {
    let nan = f64::NAN.to_bits();
    let pz = 0.0f64.to_bits();
    let nz = (-0.0f64).to_bits();
    assert!(!value_eq_literal(&StixValue::Float(nan), &Literal::Float(nan)));
    assert!(value_eq_literal(&StixValue::Float(pz), &Literal::Float(nz)));
    assert_eq!(value_cmp_literal(&StixValue::Float(nan), &Literal::Integer(1)), None);
    assert_eq!(value_cmp_literal(&StixValue::Float(nz), &Literal::Integer(0)), Some(Ordering::Equal));
    let cases = [-1.5f64, -0.25, 0.0, 0.5, 2.0, 1e300, f64::INFINITY, f64::NEG_INFINITY, -1e-300];
    for a in cases {
        for b in cases {
            assert_eq!(
                value_cmp_literal(&StixValue::Float(a.to_bits()), &Literal::Float(b.to_bits())),
                a.partial_cmp(&b),
                "{a} vs {b}"
            );
            assert_eq!(
                value_eq_literal(&StixValue::Float(a.to_bits()), &Literal::Float(b.to_bits())),
                a == b,
                "{a} == {b}"
            );
        }
    }
}

#[test]
fn string_ordering_follows_str_order() {
    let words = ["", "a", "ab", "b", "B", "é", "z", "zz", "\u{10000}"];
    for a in words {
        for b in words {
            assert_eq!(
                value_cmp_literal(&StixValue::String(a.into()), &Literal::String(b.into())),
                Some(a.cmp(b)),
                "{a:?} vs {b:?}"
            );
        }
    }
}

// ---------------------------------------------------------------- subset

#[test]
fn ipv4_address_within_cidr() {
    assert!(is_subset("198.51.100.5", "198.51.100.0/24"));
    assert!(!is_subset("198.51.101.5", "198.51.100.0/24"));
}

#[test]
fn ipv4_cidr_within_cidr() {
    assert!(is_subset("198.51.100.0/25", "198.51.100.0/24"));
    assert!(!is_subset("198.51.100.0/23", "198.51.100.0/24"));
}

#[test]
fn ipv6_within_cidr() {
    assert!(is_subset("2001:db8::1", "2001:db8::/32"));
    assert!(!is_subset("2001:dead::1", "2001:db8::/32"));
}

#[test]
fn mismatched_family_is_not_subset() {
    assert!(!is_subset("198.51.100.5", "2001:db8::/32"));
}

#[test]
fn garbage_is_not_subset() {
    assert!(!is_subset("not-an-ip", "198.51.100.0/24"));
}

#[test]
fn superset_is_inverse() {
    assert!(is_superset("198.51.100.0/24", "198.51.100.5"));
    assert!(!is_superset("198.51.100.5", "198.51.100.0/24"));
}

#[test]
fn address_text_follows_std_parsing() {
    let valid = [
        "0.0.0.0", "255.255.255.255", "::", "::1", "1::", "2001:db8::", "2001:db8:0:0:0:0:0:1",
        "1:2:3:4:5:6:7:8", "1:2:3:4:5:6:7::", "::ffff:1.2.3.4", "::1.2.3.4", "1:2:3:4:5:6:1.2.3.4",
        "ABCD::ef", "0:0:0:0:0:0:0:0", "1::2:3:4:5:6:7",
    ];
    let invalid = [
        "256.1.1.1", "01.2.3.4", "1.2.3", "1.2.3.4.5", "1.2.3.04", "1..2.3", "1:2:3:4:5:6:7:8:9",
        "1:2:3:4:5:6:7:1.2.3.4", "1.2.3.4::", "12345::", ":::", "1:::2", "::1::2", "", "a",
        "1.2.3.4 ", "fe80::1%1", "1::2:3:4:5:6:7:8", "1:2:3:4:5:6:7", "0001.2.3.4",
    ];
    for s in valid {
        assert!(is_subset(s, s), "{s:?} should read as an address");
    }
    for s in invalid {
        assert!(!is_subset(s, s), "{s:?} should not read as an address");
    }
}

#[test]
fn prefix_lengths_follow_u32_parsing() {
    assert!(is_subset("10.0.0.1", "10.0.0.0/+8"));
    assert!(!is_subset("10.0.0.1", "10.0.0.0/"));
    assert!(!is_subset("10.0.0.1", "10.0.0.0/33"));
    assert!(is_subset("10.0.0.1", "10.0.0.0/0008"));
    assert!(!is_subset("10.0.0.1", "10.0.0.0/-8"));
    assert!(!is_subset("10.0.0.1", "10.0.0.0/99999999999999999999"));
    assert!(is_subset("::1", "::/0"));
    assert!(!is_subset("::1", "::/129"));
    assert!(is_subset("1.2.3.4", "0.0.0.0/0"));
}

#[test]
fn masking_keeps_top_bits() {
    assert_eq!(masked(u128::MAX, 0), 0);
    assert_eq!(masked(u128::MAX, 128), u128::MAX);
    assert_eq!(masked(u128::MAX, 200), u128::MAX);
    assert_eq!(masked(u128::MAX, 1), 1u128 << 127);
    assert_eq!(masked(0xFFFF_FFFF, 120), 0xFFFF_FF00);
    let a = Network { bits: 0xC633_6405, prefix: 128, is_v6: false };
    let b = Network { bits: 0xC633_6400, prefix: 120, is_v6: false };
    assert!(network_subset(&a, &b));
    assert!(!network_subset(&b, &a));
    let c = Network { bits: 0xC633_6400, prefix: 120, is_v6: true };
    assert!(!network_subset(&a, &c));
}

// ---------------------------------------------------------------- like / matches

#[test]
fn like_percent_matches_any_run() {
    assert!(like_matches("foobar.evil.example", "%.evil.example"));
    assert!(!like_matches("foobar.good.example", "%.evil.example"));
}

#[test]
fn like_underscore_matches_single_char() {
    assert!(like_matches("cat", "c_t"));
    assert!(!like_matches("coat", "c_t"));
}

#[test]
fn like_escapes_regex_metachars() {
    assert!(like_matches("a.b", "a.b"));
    assert!(!like_matches("axb", "a.b"));
    assert!(like_matches("(x)+[y]", "(x)+[y]"));
    assert!(!like_matches("xx[y]", "(x)+[y]"));
}

#[test]
fn matches_uses_regex() {
    assert!(regex_matches("invoice12", "invoice[0-9]+"));
    assert!(!regex_matches("invoice", "invoice[0-9]+"));
}

#[test]
fn invalid_regex_does_not_match() {
    assert!(!regex_matches("anything", "("));
}

// ---------------------------------------------------------------- resolve

fn path(object_type: &str, steps: Vec<PathStep>) -> ObjectPath {
    ObjectPath { object_type: object_type.to_string(), steps }
}

#[test]
fn resolves_top_level_property() {
    let o = obj(r#"{"type": "ipv4-addr", "id": "ipv4-addr--1", "value": "1.2.3.4"}"#);
    let p = path("ipv4-addr", vec![PathStep::Key("value".into())]);
    assert_eq!(resolve_path(&o, &p, None), vec![StixValue::String("1.2.3.4".into())]);
}

#[test]
fn type_mismatch_yields_nothing() {
    let o = obj(r#"{"type": "domain-name", "id": "domain-name--1", "value": "x"}"#);
    let p = path("ipv4-addr", vec![PathStep::Key("value".into())]);
    assert!(resolve_path(&o, &p, None).is_empty());
}

#[test]
fn resolves_nested_key() {
    let o = obj(r#"{"type": "file", "id": "file--1", "hashes": {"SHA-256": "abc"}}"#);
    let p = path("file", vec![PathStep::Key("hashes".into()), PathStep::Key("SHA-256".into())]);
    assert_eq!(resolve_path(&o, &p, None), vec![StixValue::String("abc".into())]);
}

#[test]
fn resolves_index_and_any_index() {
    let o = obj(r#"{"type": "network-traffic", "id": "network-traffic--1", "protocols": ["ipv4", "tcp"]}"#);
    let idx = path("network-traffic", vec![PathStep::Key("protocols".into()), PathStep::Index(1)]);
    assert_eq!(resolve_path(&o, &idx, None), vec![StixValue::String("tcp".into())]);
    let any = path("network-traffic", vec![PathStep::Key("protocols".into()), PathStep::AnyIndex]);
    assert_eq!(
        resolve_path(&o, &any, None),
        vec![StixValue::String("ipv4".into()), StixValue::String("tcp".into())]
    );
    let out = path("network-traffic", vec![PathStep::Key("protocols".into()), PathStep::Index(2)]);
    assert!(resolve_path(&o, &out, None).is_empty());
}

#[test]
fn dereferences_ref_through_store() {
    let b = bundle(
        r#"{"type":"bundle","id":"bundle--1","objects":[
            {"type":"ipv4-addr","id":"ipv4-addr--1","value":"1.2.3.4"},
            {"type":"network-traffic","id":"network-traffic--1","src_ref":"ipv4-addr--1"}
        ]}"#,
    );
    let store = ObjectStore::from_bundle(&b);
    let nt = obj(r#"{"type": "network-traffic", "id": "network-traffic--1", "src_ref": "ipv4-addr--1"}"#);
    let p = path("network-traffic", vec![PathStep::Key("src_ref".into()), PathStep::Key("value".into())]);
    assert_eq!(resolve_path(&nt, &p, Some(&store)), vec![StixValue::String("1.2.3.4".into())]);
    assert!(resolve_path(&nt, &p, None).is_empty());
}

#[test]
fn missing_property_yields_nothing() {
    let o = obj(r#"{"type": "file", "id": "file--1", "name": "x"}"#);
    let p = path("file", vec![PathStep::Key("size".into())]);
    assert!(resolve_path(&o, &p, None).is_empty());
}

// ---------------------------------------------------------------- eval

fn cmp(object_type: &str, key: &str, operator: ComparisonOperator, negated: bool, value: ComparisonOperand) -> Comparison {
    Comparison {
        path: ObjectPath { object_type: object_type.to_string(), steps: vec![PathStep::Key(key.to_string())] },
        operator,
        negated,
        value,
    }
}

fn lit(s: &str) -> ComparisonOperand {
    ComparisonOperand::Literal(Literal::String(s.to_string()))
}

#[test]
fn equality_against_object() {
    let o = obj(r#"{"type": "ipv4-addr", "id": "ipv4-addr--1", "value": "1.2.3.4"}"#);
    let c = cmp("ipv4-addr", "value", ComparisonOperator::Equal, false, lit("1.2.3.4"));
    assert!(eval_comparison(&o, &c, None));
    let c2 = cmp("ipv4-addr", "value", ComparisonOperator::Equal, false, lit("9.9.9.9"));
    assert!(!eval_comparison(&o, &c2, None));
}

#[test]
fn negation_inverts() {
    let o = obj(r#"{"type": "file", "id": "file--1", "name": "evil.exe"}"#);
    let c = cmp("file", "name", ComparisonOperator::Equal, true, lit("evil.exe"));
    assert!(!eval_comparison(&o, &c, None));
    let c2 = cmp("file", "name", ComparisonOperator::Equal, true, lit("good.exe"));
    assert!(eval_comparison(&o, &c2, None));
}

#[test]
fn exists_checks_presence() {
    let o = obj(r#"{"type": "file", "id": "file--1", "name": "x"}"#);
    let present = cmp("file", "name", ComparisonOperator::Exists, false, lit("ignored"));
    assert!(eval_comparison(&o, &present, None));
    let absent = cmp("file", "size", ComparisonOperator::Exists, false, lit("ignored"));
    assert!(!eval_comparison(&o, &absent, None));
}

#[test]
fn in_set_against_object() {
    let o = obj(r#"{"type": "ipv4-addr", "id": "ipv4-addr--1", "value": "8.8.8.8"}"#);
    let set = ComparisonOperand::SetLiteral(vec![Literal::String("1.1.1.1".into()), Literal::String("8.8.8.8".into())]);
    let c = cmp("ipv4-addr", "value", ComparisonOperator::In, false, set);
    assert!(eval_comparison(&o, &c, None));
}

#[test]
fn issubset_against_object() {
    let o = obj(r#"{"type": "ipv4-addr", "id": "ipv4-addr--1", "value": "198.51.100.5"}"#);
    let c = cmp("ipv4-addr", "value", ComparisonOperator::IsSubset, false, lit("198.51.100.0/24"));
    assert!(eval_comparison(&o, &c, None));
}

#[test]
fn ordering_operators_against_object() {
    let o = obj(r#"{"type": "file", "id": "file--1", "size": 10, "name": "m"}"#);
    let int = |n: i64| ComparisonOperand::Literal(Literal::Integer(n));
    assert!(eval_comparison(&o, &cmp("file", "size", ComparisonOperator::GreaterThan, false, int(9)), None));
    assert!(!eval_comparison(&o, &cmp("file", "size", ComparisonOperator::GreaterThan, false, int(10)), None));
    assert!(eval_comparison(&o, &cmp("file", "size", ComparisonOperator::GreaterThanOrEqual, false, int(10)), None));
    assert!(eval_comparison(&o, &cmp("file", "size", ComparisonOperator::LessThan, false, int(11)), None));
    assert!(eval_comparison(&o, &cmp("file", "size", ComparisonOperator::LessThanOrEqual, false, int(10)), None));
    assert!(!eval_comparison(&o, &cmp("file", "size", ComparisonOperator::LessThanOrEqual, false, int(9)), None));
    assert!(eval_comparison(&o, &cmp("file", "size", ComparisonOperator::NotEqual, false, int(9)), None));
    assert!(eval_comparison(&o, &cmp("file", "name", ComparisonOperator::LessThan, false, lit("n")), None));
    assert!(eval_comparison(&o, &cmp("file", "name", ComparisonOperator::Matches, false, lit("^m$")), None));
    assert!(eval_comparison(&o, &cmp("file", "name", ComparisonOperator::Like, false, lit("_")), None));
    // A set operand with an operator other than IN never matches.
    let set = ComparisonOperand::SetLiteral(vec![Literal::Integer(10)]);
    assert!(!eval_comparison(&o, &cmp("file", "size", ComparisonOperator::Equal, false, set), None));
}

fn observation(objs: &[&str]) -> Observation {
    Observation::new(objs.iter().map(|t| obj(t)).collect())
}

#[test]
fn single_test_matches_some_object() {
    let o = observation(&[
        r#"{"type": "ipv4-addr", "id": "ipv4-addr--1", "value": "1.2.3.4"}"#,
        r#"{"type": "domain-name", "id": "domain-name--1", "value": "evil.example"}"#,
    ]);
    let expr = ComparisonExpression::Test(cmp("domain-name", "value", ComparisonOperator::Equal, false, lit("evil.example")));
    assert!(eval_comparison_expression(&expr, &o, None));
}

#[test]
fn and_requires_same_object_binding() {
    let matching = observation(&[r#"{"type": "file", "id": "file--1", "name": "evil.exe", "size": 10}"#]);
    let split = observation(&[
        r#"{"type": "file", "id": "file--1", "name": "evil.exe", "size": 99}"#,
        r#"{"type": "file", "id": "file--2", "name": "ok.txt", "size": 10}"#,
    ]);
    let expr = ComparisonExpression::And(
        Box::new(ComparisonExpression::Test(cmp("file", "name", ComparisonOperator::Equal, false, lit("evil.exe")))),
        Box::new(ComparisonExpression::Test(cmp(
            "file",
            "size",
            ComparisonOperator::Equal,
            false,
            ComparisonOperand::Literal(Literal::Integer(10)),
        ))),
    );
    assert!(eval_comparison_expression(&expr, &matching, None));
    assert!(!eval_comparison_expression(&expr, &split, None));
}

#[test]
fn or_matches_either_branch() {
    let o = observation(&[r#"{"type": "ipv4-addr", "id": "ipv4-addr--1", "value": "1.2.3.4"}"#]);
    let expr = ComparisonExpression::Or(
        Box::new(ComparisonExpression::Test(cmp("ipv4-addr", "value", ComparisonOperator::Equal, false, lit("9.9.9.9")))),
        Box::new(ComparisonExpression::Test(cmp("ipv4-addr", "value", ComparisonOperator::Equal, false, lit("1.2.3.4")))),
    );
    assert!(eval_comparison_expression(&expr, &o, None));
}

#[test]
fn unbound_type_makes_its_tests_false() {
    let o = observation(&[r#"{"type": "ipv4-addr", "id": "ipv4-addr--1", "value": "1.2.3.4"}"#]);
    let missing = ComparisonExpression::Test(cmp("file", "name", ComparisonOperator::Exists, true, lit("x")));
    assert!(!eval_comparison_expression(&missing, &o, None));
    let mixed = ComparisonExpression::Or(
        Box::new(missing),
        Box::new(ComparisonExpression::Test(cmp("ipv4-addr", "value", ComparisonOperator::Exists, false, lit("x")))),
    );
    assert!(eval_comparison_expression(&mixed, &o, None));
}

#[test]
fn single_observation_matches_across_set() {
    let observations = vec![
        observation(&[r#"{"type": "ipv4-addr", "id": "ipv4-addr--1", "value": "1.1.1.1"}"#]),
        observation(&[r#"{"type": "ipv4-addr", "id": "ipv4-addr--2", "value": "1.2.3.4"}"#]),
    ];
    let pattern = parse("[ipv4-addr:value = '1.2.3.4']").unwrap();
    let result = eval_pattern(&pattern, &observations, None).unwrap();
    assert!(result.is_match());
    assert_eq!(result.observations(), &[1]);
}

#[test]
fn observation_and_needs_both() {
    let observations = vec![
        observation(&[r#"{"type": "ipv4-addr", "id": "ipv4-addr--1", "value": "1.1.1.1"}"#]),
        observation(&[r#"{"type": "domain-name", "id": "domain-name--1", "value": "evil.example"}"#]),
    ];
    let yes = parse("[ipv4-addr:value = '1.1.1.1'] AND [domain-name:value = 'evil.example']").unwrap();
    let r = eval_pattern(&yes, &observations, None).unwrap();
    assert!(r.is_match());
    assert_eq!(r.observations(), &[0, 1]);
    let no = parse("[ipv4-addr:value = '1.1.1.1'] AND [domain-name:value = 'good.example']").unwrap();
    let r = eval_pattern(&no, &observations, None).unwrap();
    assert!(!r.is_match());
    assert!(r.observations().is_empty());
}

#[test]
fn matched_indices_are_sorted_and_distinct() {
    let observations = vec![
        observation(&[r#"{"type": "x", "id": "x--0", "v": 1}"#]),
        observation(&[r#"{"type": "x", "id": "x--1", "v": 2}"#]),
        observation(&[r#"{"type": "x", "id": "x--2", "v": 1}"#]),
    ];
    let p = parse("([x:v = 2] AND [x:v = 3]) OR [x:v = 1] OR [x:v = 1]").unwrap();
    let r = match_observations(&p, &observations).unwrap();
    assert!(r.is_match());
    assert_eq!(r.observations(), &[0, 1, 2]);
}

#[test]
fn followedby_is_unsupported() {
    let observations = vec![observation(&[r#"{"type": "ipv4-addr", "id": "ipv4-addr--1", "value": "1.1.1.1"}"#])];
    let pattern = parse("[ipv4-addr:value = '1.1.1.1'] FOLLOWEDBY [ipv4-addr:value = '2.2.2.2']").unwrap();
    let err = eval_pattern(&pattern, &observations, None).unwrap_err();
    assert!(matches!(err, MatchError::Unsupported(_)));
    assert_eq!(err, MatchError::Unsupported("FOLLOWEDBY sequencing is not yet implemented".into()));
}

#[test]
fn qualifier_is_unsupported() {
    let observations = vec![observation(&[r#"{"type": "ipv4-addr", "id": "ipv4-addr--1", "value": "1.1.1.1"}"#])];
    let pattern = parse("[ipv4-addr:value = '1.1.1.1'] REPEATS 2 TIMES").unwrap();
    let err = eval_pattern(&pattern, &observations, None).unwrap_err();
    assert!(matches!(err, MatchError::Unsupported(_)));
}

#[test]
fn new_defaults_number_observed_to_one() {
    let o = observation(&[r#"{"type": "ipv4-addr", "id": "ipv4-addr--1", "value": "1.2.3.4"}"#]);
    assert_eq!(o.objects.len(), 1);
    assert_eq!(o.number_observed, 1);
    assert!(o.first_observed.is_none());
}

#[test]
fn no_match_is_false() {
    let r = MatchResult::no_match();
    assert!(!r.is_match());
    assert!(r.observations().is_empty());
}

#[test]
fn matched_records_observations() {
    let r = MatchResult::matched(vec![0, 2]);
    assert!(r.is_match());
    assert_eq!(r.observations(), &[0, 2]);
}

#[test]
fn unsupported_displays_feature() {
    let e = MatchError::Unsupported("FOLLOWEDBY".to_string());
    assert!(e.to_string().contains("FOLLOWEDBY"));
    assert_eq!(e.to_string(), "unsupported pattern feature: FOLLOWEDBY");
}

// ---------------------------------------------------------------- entry points

fn sample_bundle() -> Bundle {
    bundle(
        r#"{"type": "bundle", "id": "bundle--m", "objects": [
            {"type": "ipv4-addr", "id": "ipv4-addr--m1", "value": "198.51.100.5"},
            {"type": "domain-name", "id": "domain-name--m1", "value": "evil.example"},
            {"type": "network-traffic", "id": "network-traffic--m1", "src_ref": "ipv4-addr--m1"},
            {"type": "observed-data", "id": "observed-data--m1",
             "first_observed": "2020-01-01T00:00:00Z", "last_observed": "2020-01-01T00:00:00Z",
             "number_observed": 1,
             "object_refs": ["ipv4-addr--m1", "domain-name--m1", "network-traffic--m1"]}
        ]}"#,
    )
}

fn hit(p: &str) -> bool {
    match_bundle(&parse(p).unwrap(), &sample_bundle()).unwrap().is_match()
}

#[test]
fn matches_simple_value() {
    assert!(hit("[ipv4-addr:value = '198.51.100.5']"));
}

#[test]
fn non_match_returns_false() {
    assert!(!hit("[ipv4-addr:value = '203.0.113.9']"));
}

#[test]
fn matches_across_object_types_in_one_observation() {
    assert!(hit("[ipv4-addr:value = '198.51.100.5' AND domain-name:value = 'evil.example']"));
}

#[test]
fn matches_through_reference_deref() {
    assert!(hit("[network-traffic:src_ref.value = '198.51.100.5']"));
}

#[test]
fn matches_issubset_cidr() {
    assert!(hit("[ipv4-addr:value ISSUBSET '198.51.100.0/24']"));
}

#[test]
fn matches_like_wildcard() {
    assert!(hit("[domain-name:value LIKE '%.example']"));
}

#[test]
fn followedby_is_unsupported_end_to_end() {
    let p = parse("[ipv4-addr:value = '198.51.100.5'] FOLLOWEDBY [domain-name:value = 'evil.example']").unwrap();
    assert!(match_bundle(&p, &sample_bundle()).is_err());
}

#[test]
fn scos_are_one_observation() {
    let scos = vec![
        obj(r#"{"type": "ipv4-addr", "id": "ipv4-addr--1", "value": "198.51.100.1"}"#),
        obj(r#"{"type": "network-traffic", "id": "nt--1", "dst_ref": "ipv4-addr--1"}"#),
    ];
    let p = parse("[network-traffic:dst_ref.value = '198.51.100.1']").unwrap();
    let r = match_scos(&p, &scos).unwrap();
    assert!(r.is_match());
    assert_eq!(r.observations(), &[0]);
}

#[test]
fn custom_types_match_without_registration() {
    let b = bundle(
        r#"{"type": "bundle", "id": "bundle--c", "objects": [
            {"type": "x-acme-widget", "id": "x-acme-widget--1", "risk_score": 90},
            {"type": "observed-data", "id": "observed-data--c1",
             "first_observed": "2020-01-01T00:00:00Z", "last_observed": "2020-01-01T00:00:00Z",
             "number_observed": 1, "object_refs": ["x-acme-widget--1"]}
        ]}"#,
    );
    assert!(match_bundle(&parse("[x-acme-widget:risk_score > 80]").unwrap(), &b).unwrap().is_match());
    assert!(!match_bundle(&parse("[x-acme-widget:risk_score > 95]").unwrap(), &b).unwrap().is_match());
}

#[test]
fn readme_bundle_matches() {
    let b = bundle(
        r#"{
          "type": "bundle",
          "id": "bundle--a1",
          "objects": [
            { "type": "ipv4-addr", "id": "ipv4-addr--a1", "value": "198.51.100.5" },
            { "type": "observed-data", "id": "observed-data--a1",
              "first_observed": "2020-03-01T12:00:00Z",
              "last_observed":  "2020-03-01T12:10:00Z",
              "number_observed": 5,
              "object_refs": ["ipv4-addr--a1"] }
          ]
        }"#,
    );
    let result = match_bundle(&parse("[ipv4-addr:value = '198.51.100.5']").unwrap(), &b).unwrap();
    assert!(result.is_match());
    assert_eq!(result.observations(), &[0]);
}

#[test]
fn like_wildcards_match_newlines() {
    assert!(like_matches("a\nb", "a_b"));
    assert!(like_matches("a\nb", "a%b"));
    assert!(like_matches("line one\nline two", "%two"));
    assert!(!like_matches("a\n\nb", "a_b"));
}

#[test]
fn like_matches_non_ascii() {
    assert!(like_matches("résumé", "r_sum_"));
    assert!(like_matches("résumé", "r%"));
}

#[test]
fn repeated_matches_are_reported_once_in_order() {
    let observations = vec![
        observation(&[r#"{"type": "domain-name", "id": "domain-name--1", "value": "evil.example"}"#]),
        observation(&[r#"{"type": "ipv4-addr", "id": "ipv4-addr--1", "value": "1.1.1.1"}"#]),
        observation(&[r#"{"type": "domain-name", "id": "domain-name--2", "value": "evil.example"}"#]),
    ];
    let p = parse("[ipv4-addr:value = '1.1.1.1'] OR ([domain-name:value = 'evil.example'] AND [domain-name:value LIKE 'evil%'])").unwrap();
    let r = eval_pattern(&p, &observations, None).unwrap();
    assert!(r.is_match());
    assert_eq!(r.observations(), &[0, 1, 2]);
}

#[test]
fn not_equal_holds_between_kinds() {
    let o = obj(r#"{"type": "file", "id": "file--1", "name": "3", "size": 3}"#);
    let int = |n: i64| ComparisonOperand::Literal(Literal::Integer(n));
    assert!(eval_comparison(&o, &cmp("file", "size", ComparisonOperator::NotEqual, false, lit("3")), None));
    assert!(!eval_comparison(&o, &cmp("file", "size", ComparisonOperator::Equal, false, lit("3")), None));
    assert!(eval_comparison(&o, &cmp("file", "size", ComparisonOperator::GreaterThanOrEqual, false, int(3)), None));
    assert!(!eval_comparison(&o, &cmp("file", "size", ComparisonOperator::GreaterThan, false, int(3)), None));
    assert!(eval_comparison(&o, &cmp("file", "size", ComparisonOperator::LessThanOrEqual, false, int(3)), None));
}
