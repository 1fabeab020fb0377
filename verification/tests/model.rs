use stix::model::bundle::Bundle;
use stix::model::error::ModelError;
use stix::model::object::{StixObject, TypedObject};
use stix::model::sdo::ObservedData;
use stix::model::store::ObjectStore;
use stix::model::value::{lookup, StixValue};
use stix::model::version::SpecVersion;
use stix::model::view::{GenericObject, ObjectView};

fn to_value(v: serde_json::Value) -> StixValue {
    match v {
        serde_json::Value::Null => StixValue::Null,
        serde_json::Value::Bool(b) => StixValue::Bool(b),
        serde_json::Value::Number(n) => match n.as_i64() {
            Some(i) => StixValue::Integer(i),
            None => StixValue::Float(n.as_f64().unwrap_or(0.0).to_bits()),
        },
        serde_json::Value::String(s) => StixValue::String(s),
        serde_json::Value::Array(a) => StixValue::List(a.into_iter().map(to_value).collect()),
        serde_json::Value::Object(o) => {
            StixValue::Object(o.into_iter().map(|(k, v)| (k, to_value(v))).collect())
        }
    }
}

fn json(text: &str) -> StixValue {
    to_value(serde_json::from_str(text).unwrap())
}

fn bundle(text: &str) -> Result<Bundle, ModelError> {
    Bundle::from_json(&json(text))
}

#[test]
fn accessors() {
    assert_eq!(StixValue::String("s".into()).as_str(), Some("s"));
    assert_eq!(StixValue::Integer(3).as_i64(), Some(3));
    assert_eq!(StixValue::Float(1.5f64.to_bits()).as_f64(), Some(1.5f64.to_bits()));
    assert_eq!(StixValue::Integer(3).as_f64(), Some(3.0f64.to_bits()));
    assert_eq!(StixValue::Bool(true).as_bool(), Some(true));
    assert!(StixValue::Null.is_null());
    assert_eq!(StixValue::String("s".into()).as_i64(), None);
}

#[test]
fn integer_promotion_rounds_to_nearest() {
    for n in [0i64, 1, -1, 42, -7, 1 << 53, (1 << 53) + 1, i64::MAX, i64::MIN, 9007199254740993, -9007199254740995] {
        assert_eq!(StixValue::Integer(n).as_f64(), Some((n as f64).to_bits()), "n = {n}");
    }
}

#[test]
fn list_and_object_accessors() {
    let v = json(r#"{"a": [1, "x"], "b": true}"#);
    let entries = v.as_object().expect("object");
    assert_eq!(entries.len(), 2);
    assert_eq!(entries[0].0, "a");
    let items = entries[0].1.as_list().expect("list");
    assert_eq!(items, &[StixValue::Integer(1), StixValue::String("x".into())]);
    assert_eq!(entries[1].1, StixValue::Bool(true));
    assert!(StixValue::Null.as_list().is_none());
    assert!(StixValue::Integer(1).as_object().is_none());
    assert_eq!(v.deep_copy(), v);
}

#[test]
fn default_is_2_1() {
    assert_eq!(SpecVersion::default(), SpecVersion::V2_1);
    assert_eq!(SpecVersion::default().as_str(), "2.1");
}

#[test]
fn invalid_object_displays_message() {
    let e = ModelError::InvalidObject("missing id".to_string());
    assert!(e.to_string().contains("missing id"));
}

#[test]
fn model_error_texts() {
    assert_eq!(ModelError::Json("x".into()).to_string(), "invalid JSON: x");
    assert_eq!(ModelError::InvalidObject("y".into()).to_string(), "invalid STIX object: y");
    assert_eq!(ModelError::NotABundle("z".into()).to_string(), "not a STIX bundle: z");
}

fn sample() -> GenericObject {
    GenericObject::from_json(json(
        r#"{"type": "ipv4-addr", "id": "ipv4-addr--1", "value": "198.51.100.1"}"#,
    ))
    .unwrap()
}

#[test]
fn exposes_id_and_type() {
    let o = sample();
    assert_eq!(o.type_(), Some("ipv4-addr"));
    assert_eq!(o.id(), Some("ipv4-addr--1"));
}

#[test]
fn property_returns_owned_value() {
    let o = sample();
    assert_eq!(o.property("value"), Some(StixValue::String("198.51.100.1".into())));
    assert_eq!(o.property("missing"), None);
    assert_eq!(o.properties().len(), 3);
}

#[test]
fn rejects_non_object_json() {
    let err = GenericObject::from_json(json("[1, 2, 3]")).unwrap_err();
    assert!(matches!(err, ModelError::InvalidObject(_)));
    assert_eq!(err, ModelError::InvalidObject("expected a JSON object".into()));
}

#[test]
fn observed_data_becomes_typed() {
    let v = json(
        r#"{
        "type": "observed-data",
        "id": "observed-data--1",
        "first_observed": "2020-01-01T00:00:00Z",
        "last_observed": "2020-01-01T00:05:00Z",
        "number_observed": 1,
        "object_refs": ["file--1"]
    }"#,
    );
    let obj = StixObject::from_json(v).unwrap();
    assert!(matches!(obj, StixObject::Typed(TypedObject::ObservedData(_))));
    assert_eq!(obj.type_(), Some("observed-data"));
}

#[test]
fn unknown_type_becomes_generic() {
    let v = json(r#"{"type": "ipv4-addr", "id": "ipv4-addr--1", "value": "198.51.100.1"}"#);
    let obj = StixObject::from_json(v).unwrap();
    assert!(matches!(obj, StixObject::Generic(_)));
    assert_eq!(obj.type_(), Some("ipv4-addr"));
    assert_eq!(obj.property("value"), Some(StixValue::String("198.51.100.1".into())));
}

#[test]
fn missing_type_is_an_error() {
    let v = json(r#"{"id": "x--1"}"#);
    assert!(StixObject::from_json(v).is_err());
    let err = StixObject::from_json(json(r#"{"type": 5}"#)).unwrap_err();
    assert_eq!(err, ModelError::InvalidObject("missing 'type' property".into()));
    let err = StixObject::from_json(json("7")).unwrap_err();
    assert_eq!(err, ModelError::InvalidObject("missing 'type' property".into()));
}

#[test]
fn malformed_observed_data_is_a_json_error() {
    let err = StixObject::from_json(json(r#"{"type": "observed-data", "id": "od--1"}"#)).unwrap_err();
    assert_eq!(err, ModelError::Json("missing field `first_observed`".into()));
    let err = StixObject::from_json(json(
        r#"{"type": "observed-data", "id": "od--1", "first_observed": "a", "last_observed": "b", "number_observed": -1}"#,
    ))
    .unwrap_err();
    assert_eq!(err, ModelError::Json("invalid type for field `number_observed`".into()));
    let err = StixObject::from_json(json(
        r#"{"type": "observed-data", "id": "od--1", "first_observed": "a", "last_observed": "b", "number_observed": 1, "object_refs": [1]}"#,
    ))
    .unwrap_err();
    assert_eq!(err, ModelError::Json("invalid type for field `object_refs`".into()));
}

fn sample_observed() -> ObservedData {
    ObservedData::from_value(&json(
        r#"{
        "type": "observed-data",
        "id": "observed-data--1",
        "first_observed": "2020-01-01T00:00:00Z",
        "last_observed": "2020-01-01T00:05:00Z",
        "number_observed": 3,
        "object_refs": ["ipv4-addr--1", "domain-name--1"],
        "x_custom": "keep-me"
    }"#,
    ))
    .unwrap()
}

#[test]
fn deserializes_typed_fields() {
    let od = sample_observed();
    assert_eq!(od.id, "observed-data--1");
    assert_eq!(od.number_observed, 3);
    assert_eq!(od.first_observed, "2020-01-01T00:00:00Z");
    assert_eq!(od.object_refs, vec!["ipv4-addr--1", "domain-name--1"]);
    assert!(od.objects.is_none());
    assert_eq!(od.additional, vec![("x_custom".to_string(), StixValue::String("keep-me".into()))]);
}

#[test]
fn object_view_exposes_typed_and_custom_props() {
    let od = sample_observed();
    assert_eq!(od.type_(), Some("observed-data"));
    assert_eq!(od.id(), Some("observed-data--1"));
    assert_eq!(od.property("number_observed"), Some(StixValue::Integer(3)));
    assert_eq!(
        od.property("first_observed"),
        Some(StixValue::String("2020-01-01T00:00:00Z".into()))
    );
    assert_eq!(od.property("x_custom"), Some(StixValue::String("keep-me".into())));
    assert_eq!(od.property("nope"), None);
    assert_eq!(
        od.property("object_refs"),
        Some(StixValue::List(vec![
            StixValue::String("ipv4-addr--1".into()),
            StixValue::String("domain-name--1".into())
        ]))
    );
}

#[test]
fn sco_ids_prefers_object_refs() {
    let od = sample_observed();
    assert_eq!(od.sco_ids(), vec!["ipv4-addr--1", "domain-name--1"]);
}

fn bundle_json() -> &'static str {
    r#"{
        "type": "bundle",
        "id": "bundle--1",
        "objects": [
            {"type": "ipv4-addr", "id": "ipv4-addr--1", "value": "1.2.3.4"},
            {"type": "observed-data", "id": "observed-data--1",
             "first_observed": "2020-01-01T00:00:00Z",
             "last_observed": "2020-01-01T00:00:00Z",
             "number_observed": 1, "object_refs": ["ipv4-addr--1"]}
        ]
    }"#
}

#[test]
fn parses_bundle() {
    let b = bundle(bundle_json()).unwrap();
    assert_eq!(b.id.as_deref(), Some("bundle--1"));
    assert_eq!(b.objects.len(), 2);
    assert_eq!(b.objects[0].type_(), Some("ipv4-addr"));
    assert_eq!(b.objects[1].type_(), Some("observed-data"));
}

#[test]
fn rejects_non_bundle() {
    let err = bundle(r#"{"type": "ipv4-addr", "id": "x--1"}"#).unwrap_err();
    assert!(matches!(err, ModelError::NotABundle(_)));
    assert_eq!(err, ModelError::NotABundle("type was 'ipv4-addr'".into()));
}

#[test]
fn bundle_errors_name_the_field() {
    assert_eq!(bundle(r#"{"id": "b"}"#).unwrap_err(), ModelError::Json("missing field `type`".into()));
    assert_eq!(
        bundle(r#"{"type": "bundle", "objects": 3}"#).unwrap_err(),
        ModelError::Json("invalid type for field `objects`".into())
    );
    assert_eq!(
        bundle(r#"{"type": "bundle", "objects": [{"id": "x"}]}"#).unwrap_err(),
        ModelError::Json("invalid STIX object: missing 'type' property".into())
    );
    let empty = bundle(r#"{"type": "bundle"}"#).unwrap();
    assert!(empty.objects.is_empty());
    assert!(empty.id.is_none());
}

fn store() -> ObjectStore {
    let b = bundle(
        r#"{
            "type": "bundle",
            "id": "bundle--1",
            "objects": [
                {"type": "ipv4-addr", "id": "ipv4-addr--1", "value": "1.2.3.4"},
                {"type": "domain-name", "id": "domain-name--1", "value": "evil.example"}
            ]
        }"#,
    )
    .unwrap();
    ObjectStore::from_bundle(&b)
}

#[test]
fn resolves_by_id() {
    let s = store();
    let o = s.get("ipv4-addr--1").expect("should be present");
    assert_eq!(o.property("value").unwrap().as_str(), Some("1.2.3.4"));
}

#[test]
fn missing_id_returns_none() {
    let s = store();
    assert!(s.get("nope--1").is_none());
}

#[test]
fn len_counts_objects() {
    let s = store();
    assert_eq!(s.len(), 2);
    assert!(!s.is_empty());
}

#[test]
fn store_keeps_last_object_per_id() {
    let objects: Vec<StixObject> = [
        r#"{"type": "x", "id": "x--1", "n": 1}"#,
        r#"{"type": "x", "n": 2}"#,
        r#"{"type": "x", "id": "x--1", "n": 3}"#,
        r#"{"type": "y", "id": "y--1"}"#,
    ]
    .iter()
    .map(|t| StixObject::from_json(json(t)).unwrap())
    .collect();
    let s = ObjectStore::from_objects(&objects);
    assert_eq!(s.len(), 2);
    assert_eq!(s.get("x--1").unwrap().property("n"), Some(StixValue::Integer(3)));
    assert!(ObjectStore::default().is_empty());
}

#[test]
fn bundle_to_store_resolves_observation_refs() {
    let raw = r#"{"type": "bundle", "id": "bundle--a", "objects": [
        {"type": "ipv4-addr", "id": "ipv4-addr--a1", "value": "198.51.100.5"},
        {"type": "domain-name", "id": "domain-name--a1", "value": "evil.example"},
        {"type": "observed-data", "id": "observed-data--a1",
         "first_observed": "2020-01-01T00:00:00Z", "last_observed": "2020-01-01T00:10:00Z",
         "number_observed": 5, "object_refs": ["ipv4-addr--a1", "domain-name--a1"]}
    ]}"#;
    let bundle = bundle(raw).expect("parse bundle");
    let store = ObjectStore::from_bundle(&bundle);
    let observed = bundle
        .objects
        .iter()
        .find_map(|o| match o {
            StixObject::Typed(TypedObject::ObservedData(od)) => Some(od),
            _ => None,
        })
        .expect("bundle has an observed-data object");
    assert_eq!(observed.number_observed, 5);
    assert_eq!(observed.sco_ids(), vec!["ipv4-addr--a1", "domain-name--a1"]);
    let ipv4 = store.get("ipv4-addr--a1").expect("ipv4 resolved");
    assert_eq!(ipv4.type_(), Some("ipv4-addr"));
    assert_eq!(ipv4.property("value"), Some(StixValue::String("198.51.100.5".into())));
    let domain = store.get(observed.sco_ids()[1]).expect("domain resolved");
    assert_eq!(domain.property("value").unwrap().as_str(), Some("evil.example"));
}

#[test]
fn parse_bundle_rejects_non_bundle() {
    let err = stix::model::bundle::bundle_envelope(&json(r#"{"type":"ipv4-addr","id":"x--1"}"#)).unwrap_err();
    assert!(matches!(err, ModelError::NotABundle(_)));
    let (id, items) = stix::model::bundle::bundle_envelope(&json(
        r#"{"type":"bundle","id":"bundle--1","objects":[{"type":"x-thing","id":"x--1"}]}"#,
    ))
    .unwrap();
    assert_eq!(id.as_deref(), Some("bundle--1"));
    assert_eq!(items.len(), 1);
    let (none, empty) = stix::model::bundle::bundle_envelope(&json(r#"{"type":"bundle","objects":3}"#)).unwrap();
    assert!(none.is_none());
    assert!(empty.is_empty());
    assert_eq!(
        stix::model::bundle::bundle_envelope(&json("[]")).unwrap_err(),
        ModelError::NotABundle("type was ''".into())
    );
}

#[test]
fn raw_type_reads_the_type() {
    assert_eq!(StixObject::raw_type(&json(r#"{"type":"x"}"#)), Ok("x".to_string()));
    assert_eq!(
        StixObject::raw_type(&json(r#"{"id":"x"}"#)),
        Err(ModelError::InvalidObject("missing 'type' property".into()))
    );
}

#[test]
fn sorted_entries_act_as_a_map() {
    let entries = vec![
        ("a".to_string(), StixValue::Integer(1)),
        ("b".to_string(), StixValue::String("two".to_string())),
        ("c".to_string(), StixValue::Bool(true)),
    ];
    assert_eq!(lookup(&entries, "a"), Some(&StixValue::Integer(1)));
    assert_eq!(lookup(&entries, "b"), Some(&StixValue::String("two".to_string())));
    assert_eq!(lookup(&entries, "c"), Some(&StixValue::Bool(true)));
    assert_eq!(lookup(&entries, "d"), None);
}

#[test]
fn observed_data_keeps_other_properties_in_key_order() {
    let value = StixValue::Object(vec![
        ("first_observed".to_string(), StixValue::String("2020-01-01T00:00:00Z".to_string())),
        ("id".to_string(), StixValue::String("observed-data--1".to_string())),
        ("last_observed".to_string(), StixValue::String("2020-01-01T00:00:00Z".to_string())),
        ("note".to_string(), StixValue::String("n".to_string())),
        ("number_observed".to_string(), StixValue::Integer(1)),
        ("risk".to_string(), StixValue::Integer(7)),
        ("type".to_string(), StixValue::String("observed-data".to_string())),
    ]);
    match StixObject::from_json(value).unwrap() {
        StixObject::Typed(TypedObject::ObservedData(od)) => {
            let keys: Vec<&str> = od.additional.iter().map(|(k, _)| k.as_str()).collect();
            assert_eq!(keys, vec!["note", "risk"]);
        }
        _ => panic!("expected observed-data"),
    }
}
