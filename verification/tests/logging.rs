//! Run logs carry no event bodies.

use awslog_core::logging::{file_skipped, log_line, record_failure, redact};

#[test]
fn redact_keeps_diagnostic_and_drops_payload() {
    assert_eq!(
        redact(r#"invalid type at {"arn":"arn:aws:iam::123456789012:user/alice"}"#),
        "invalid type at (details omitted)"
    );
}

#[test]
fn redact_does_not_split_multibyte_characters() {
    // A long non-ASCII reason must truncate on a char boundary, not panic.
    let reason = "압축 해제 중 오류가 발생했습니다 ".repeat(8);
    let out = redact(&reason);
    assert!(reason.starts_with(&out.replace(" (details omitted)", "")));
    assert!(out.ends_with(" (details omitted)"));
}

#[test]
fn redact_leaves_plain_reason_untouched() {
    assert_eq!(
        redact("unexpected end of gzip stream"),
        "unexpected end of gzip stream"
    );
}

#[test]
fn parse_and_warning_logs_are_separate_files_in_the_case() {
    let parse = log_line("2026-09-11T10:00:00Z", "INFO", "parse started");
    let warning = log_line(
        "2026-09-11T10:00:00Z",
        "WARN",
        &record_failure("a.json.gz", 42, "invalid JSON"),
    );

    assert!(parse.contains("parse started"));
    assert!(!parse.contains("invalid JSON"), "warnings belong in warnings.log");
    assert!(warning.contains("a.json.gz"));
    assert!(warning.contains("42"));
    assert!(warning.contains("invalid JSON"));
}

#[test]
fn warning_redacts_event_body_so_account_data_never_reaches_disk() {
    // A parser error string may embed the offending record; it must not be logged verbatim.
    let warnings = record_failure(
        "a.json.gz",
        7,
        r#"invalid type at {"userIdentity":{"arn":"arn:aws:iam::123456789012:user/alice"}}"#,
    );

    assert!(!warnings.contains("123456789012"), "account id leaked: {warnings}");
    assert!(!warnings.contains("alice"), "principal leaked: {warnings}");
    assert!(warnings.contains("a.json.gz"));
}

#[test]
fn a_skipped_file_is_named_with_its_redacted_reason() {
    let line = file_skipped("b.json.gz", "corrupt deflate stream [0x00]");
    assert!(line.contains("b.json.gz"));
    assert!(line.contains("corrupt deflate stream (details omitted)"));
    assert!(!line.contains("0x00"));
}
