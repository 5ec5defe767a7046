//! Field mapping: which JSON path feeds each stored column.

use awslog_core::json::{parse, to_text, Json};
use awslog_core::mapping::{as_bool, present, resolve, Field, FieldMap};

fn json(text: &str) -> Json {
    parse(text).unwrap()
}

fn text_of(value: Option<&Json>) -> Option<&str> {
    value.and_then(|v| v.as_str())
}

#[test]
fn resolves_nested_and_indexed_paths() {
    let record = json(
        r#"{
        "userIdentity": { "sessionContext": { "attributes": { "mfaAuthenticated": "true" } } },
        "resources": [{ "type": "AWS::S3::Object" }, { "type": "AWS::S3::Bucket" }]
    }"#,
    );

    assert_eq!(
        text_of(resolve(
            &record,
            "userIdentity.sessionContext.attributes.mfaAuthenticated"
        )),
        Some("true")
    );
    assert_eq!(text_of(resolve(&record, "resources.1.type")), Some("AWS::S3::Bucket"));
    // An index past the end, and one that is no number, address nothing.
    assert!(resolve(&record, "resources.2.type").is_none());
    assert!(resolve(&record, "resources.one.type").is_none());
}

#[test]
fn a_missing_or_mistyped_path_yields_nothing_instead_of_failing() {
    let record = json(r#"{ "eventName": "ConsoleLogin" }"#);

    assert!(resolve(&record, "userIdentity.arn").is_none());
    // Descending into a scalar must not panic or match.
    assert!(resolve(&record, "eventName.nope").is_none());
    assert!(resolve(&record, "resources.0").is_none());
}

#[test]
fn later_sources_are_tried_when_the_first_is_absent() {
    let map = FieldMap::cloudtrail();
    let console_login = json(r#"{ "additionalEventData": { "MFAUsed": "Yes" } }"#);
    let assumed_role = json(
        r#"{ "userIdentity": { "sessionContext": { "attributes": { "mfaAuthenticated": "true" } } } }"#,
    );

    assert_eq!(text_of(map.lookup(&console_login, Field::MfaAuthenticated)), Some("Yes"));
    assert_eq!(text_of(map.lookup(&assumed_role, Field::MfaAuthenticated)), Some("true"));
}

#[test]
fn an_override_replaces_the_default_path_for_that_field_only() {
    let mut map = FieldMap::cloudtrail();
    map.set(Field::SourceIp, vec!["requestContext.clientIp".to_owned()]);
    let record = json(
        r#"{
        "sourceIPAddress": "203.0.113.10",
        "requestContext": { "clientIp": "198.51.100.7" },
        "eventName": "ConsoleLogin"
    }"#,
    );

    assert_eq!(text_of(map.lookup(&record, Field::SourceIp)), Some("198.51.100.7"));
    // Untouched fields keep working.
    assert_eq!(text_of(map.lookup(&record, Field::EventName)), Some("ConsoleLogin"));
    assert_eq!(map.sources(Field::SourceIp), ["requestContext.clientIp"]);
}

#[test]
fn a_partial_mapping_falls_back_to_defaults_for_unnamed_fields() {
    // What the UI sends when the user edited one row of the editor.
    let mut map = FieldMap::new();
    map.set_key("event_name", vec!["operation".to_owned()]);
    let record = json(r#"{ "operation": "PutObject", "awsRegion": "ap-northeast-2" }"#);

    assert_eq!(text_of(map.lookup(&record, Field::EventName)), Some("PutObject"));
    assert_eq!(text_of(map.lookup(&record, Field::AwsRegion)), Some("ap-northeast-2"));
}

#[test]
fn json_null_counts_as_absent() {
    let map = FieldMap::cloudtrail();
    let record = json(r#"{ "errorCode": null }"#);

    assert!(map.lookup(&record, Field::ErrorCode).is_none());
    assert!(present(&record, "errorCode").is_none());
    // The path itself is there.
    assert!(resolve(&record, "errorCode").unwrap().is_null());
}

#[test]
fn field_keys_round_trip() {
    for field in Field::ALL {
        assert_eq!(Field::from_key(field.key()), Some(field));
    }
    assert_eq!(Field::from_key("no_such_column"), None);
}

#[test]
fn coercion_failure_falls_through_to_the_next_source() {
    let map = FieldMap::cloudtrail();
    // First path present but not a usable boolean; the second one is.
    let record = json(
        r#"{
        "userIdentity": { "sessionContext": { "attributes": { "mfaAuthenticated": "maybe" } } },
        "additionalEventData": { "MFAUsed": "Yes" }
    }"#,
    );

    assert_eq!(map.lookup_with(&record, Field::MfaAuthenticated, as_bool), Some(true));
    assert_eq!(map.lookup_flag(&record, Field::MfaAuthenticated), Some(true));
}

#[test]
fn booleans_accept_every_spelling_cloudtrail_uses() {
    assert_eq!(as_bool(&json("true")), Some(true));
    assert_eq!(as_bool(&json("\"true\"")), Some(true));
    assert_eq!(as_bool(&json("\"Yes\"")), Some(true));
    assert_eq!(as_bool(&json("\"No\"")), Some(false));
    assert_eq!(as_bool(&json("\"mayonnaise\"")), None);
    assert_eq!(as_bool(&json("1")), None);
}

#[test]
fn a_time_is_read_with_its_offset() {
    let map = FieldMap::cloudtrail();

    let at = map
        .lookup_time(&json(r#"{"eventTime":"2026-09-11T02:03:04Z"}"#), Field::EventTime)
        .unwrap();
    assert_eq!((at.local, at.offset), (1_789_092_184_000_000_000, 0));
    assert_eq!(at.unix_micros(), Some(1_789_092_184_000_000));

    let at = map
        .lookup_time(&json(r#"{"eventTime":"2026-09-11T11:03:04+09:00"}"#), Field::EventTime)
        .unwrap();
    assert_eq!((at.local, at.offset), (1_789_124_584_000_000_000, 32_400));
    assert_eq!(at.unix_micros(), Some(1_789_092_184_000_000));

    assert!(map.lookup_time(&json(r#"{"eventTime":"yesterday"}"#), Field::EventTime).is_none());
}

#[test]
fn parsed_json_is_written_back_compactly_with_sorted_keys() {
    let value = json(r#"{ "b" : [1, -2, 2.50, true, null], "a" : "x\"y\u0001" }"#);
    assert_eq!(to_text(&value), r#"{"a":"x\"y\u0001","b":[1,-2,2.5,true,null]}"#);
    assert!(parse("{\"open\":").is_none());
}
