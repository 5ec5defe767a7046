//! The desktop shell's decisions.

use awslog_core::json::parse;
use awslog_core::mapping::Field;
use awslog_core::parse::{Outcome, ParseError};
use awslog_core::rule::RuleSet;
use awslog_core::store::CaseStatus;
use awslog_core::shell::{
    busy, case_summary, check_user_rule, default_mapping, end_status, explain_rule, finish_note,
    labelled_fields, list_rule_sources, named_rule, parse_result, preview_mapping,
    reports_progress, rules_note, user_rule_path, FieldPreview, Instances, MappingEntry, Slot,
};

fn entry(field: &str, sources: &[&str]) -> MappingEntry {
    MappingEntry {
        field: field.to_owned(),
        label: String::new(),
        sources: sources.iter().map(|s| (*s).to_owned()).collect(),
    }
}

fn value<'a>(rows: &'a [FieldPreview], field: &str) -> Option<&'a str> {
    rows.iter().find(|r| r.field == field).and_then(|r| r.value.as_deref())
}

const RULE: &str = r#"rule my_rule {
    meta: description = "mine" severity = "high"
    fields: $a = event_name == "ConsoleLogin"
    condition: $a
}"#;

#[test]
fn a_second_parse_is_refused_while_one_runs() {
    let mut slot = Slot::new();
    let first = slot.begin().expect("first run claims the slot");

    assert!(slot.begin().is_none(), "second run must be refused");

    // The refusal must not have replaced the live flag: cancelling still
    // reaches the run that is actually going.
    slot.cancel();
    assert!(slot.is_cancelled(first));
}

#[test]
fn dropping_the_guard_frees_the_slot() {
    let mut slot = Slot::new();
    let first = slot.begin().unwrap();
    slot.finish(first);

    let second = slot.begin().expect("slot frees when the run ends");
    slot.cancel();

    // A finished run's flag must not be raised by the next run's cancel.
    assert!(slot.is_cancelled(second));
    assert!(!slot.is_cancelled(first));
}

#[test]
fn cancelling_with_no_run_is_a_no_op() {
    let mut slot = Slot::new();
    slot.cancel();
    let run = slot.begin().unwrap();
    assert!(!slot.is_cancelled(run), "an earlier cancel must not stop a new run");
}

#[test]
fn rule_evaluation_is_refused_while_a_parse_holds_the_slot() {
    let mut slot = Slot::new();
    let parse = slot.begin().unwrap();
    assert!(slot.begin().is_none());
    slot.finish(parse);
    assert!(slot.begin().is_some());
}

#[test]
fn an_override_changes_what_the_preview_resolves() {
    let record = r#"{"eventName":"ConsoleLogin","eventSource":"signin.amazonaws.com","n":3}"#;

    let plain = preview_mapping(record, &vec![]).unwrap();
    assert_eq!(value(&plain, "event_name"), Some("ConsoleLogin"));
    assert_eq!(value(&plain, "error_code"), None);

    let edited = preview_mapping(
        record,
        &vec![entry("event_name", &["eventSource"]), entry("error_code", &["n"])],
    )
    .unwrap();
    assert_eq!(value(&edited, "event_name"), Some("signin.amazonaws.com"));
    // What is no string is shown as JSON.
    assert_eq!(value(&edited, "error_code"), Some("3"));
}

#[test]
fn an_unknown_field_key_is_ignored_rather_than_breaking_the_mapping() {
    let rows = preview_mapping(
        r#"{"eventName":"ConsoleLogin"}"#,
        &vec![entry("no_such_column", &["eventName"])],
    )
    .unwrap();
    assert_eq!(rows.len(), 18);
    assert_eq!(value(&rows, "event_name"), Some("ConsoleLogin"));
}

#[test]
fn a_malformed_record_is_reported_not_panicked_on() {
    assert!(preview_mapping("{not json", &vec![]).is_none());
}

#[test]
fn the_default_mapping_covers_every_column() {
    let rows = default_mapping();
    assert_eq!(rows.len(), Field::ALL.len());
    for (row, field) in rows.iter().zip(Field::ALL) {
        assert_eq!(row.field, field.key());
        assert_eq!(row.label, field.label());
        assert!(!row.sources.is_empty(), "{} has no path", row.field);
    }
}

#[test]
fn handles_on_one_case_share_a_single_database_instance() {
    let mut instances = Instances::new();
    assert!(instances.prepare("a"), "first use opens the case");
    instances.acquire("a");
    assert!(!instances.prepare("a"), "the second handle shares the instance");
    instances.acquire("a");
    instances.release("a");
    instances.release("a");
    // Kept open between commands.
    assert!(!instances.prepare("a"));
}

#[test]
fn returning_to_a_case_a_running_command_still_holds_reuses_its_instance() {
    let mut instances = Instances::new();
    assert!(instances.prepare("a"));
    instances.acquire("a");
    assert!(instances.prepare("b"));
    instances.acquire("b");

    assert!(!instances.prepare("a"), "still held: never a second instance");
    instances.release("a");
    assert!(instances.prepare("a"), "let go while another case was current");
}

#[test]
fn deleting_a_case_a_command_still_holds_is_refused_and_leaves_it_intact() {
    let mut instances = Instances::new();
    assert!(instances.prepare("a"));
    instances.acquire("a");

    assert!(!instances.delete("a"));
    assert_eq!(instances.handles("a"), 1);

    instances.release("a");
    assert!(instances.delete("a"));
    assert!(instances.prepare("a"), "a deleted case is not open");
}

#[test]
fn an_invalid_rule_never_reaches_disk() {
    assert!(check_user_rule("rule oops { fields: $a = ").is_err());
    let two = format!("{RULE}\nrule other {{ fields: $a = event_name exists condition: $a }}");
    assert_eq!(check_user_rule(&two).unwrap_err(), "한 번에 룰 하나만 저장할 수 있습니다");
    assert_eq!(check_user_rule("").unwrap_err(), "한 번에 룰 하나만 저장할 수 있습니다");

    let saved = check_user_rule(RULE).unwrap();
    assert_eq!(saved.rule_id, "my_rule");
    assert_eq!(saved.file_name, "my_rule.yar");
}

#[test]
fn a_rule_id_cannot_escape_the_rules_directory() {
    for bad in ["../evil", "a/b", "a\\b", "", "."] {
        assert_eq!(
            user_rule_path(bad).unwrap_err(),
            format!("사용할 수 없는 룰 이름입니다: {bad}")
        );
    }
    assert_eq!(user_rule_path("alb_server_error").unwrap(), "alb_server_error.yar");
}

#[test]
fn the_editor_reads_a_draft_back_in_words() {
    let outline = explain_rule(RULE).unwrap();
    assert_eq!(outline.rule_id, "my_rule");
    assert_eq!(outline.description, "mine");
    assert_eq!(outline.severity, "high");
    assert_eq!(outline.explanation, "이벤트 이름 값이 \"ConsoleLogin\"");

    assert_eq!(explain_rule("").unwrap_err(), "한 번에 룰 하나만 편집할 수 있습니다");
    assert!(explain_rule("rule x {").is_err());
}

#[test]
fn rule_texts_are_listed_by_id() {
    let set = RuleSet::layered(
        &vec![(
            "pack.yar".to_owned(),
            "rule zeta { fields: $a = event_name exists condition: $a }\n\
             rule alpha { fields: $a = event_name exists condition: $a }"
                .to_owned(),
        )],
        &vec![("my_rule.yar".to_owned(), RULE.to_owned())],
    );
    let rows = list_rule_sources(&set);
    let ids: Vec<_> = rows.iter().map(|r| (r.rule_id.as_str(), r.user)).collect();
    assert_eq!(ids, [("alpha", false), ("my_rule", true), ("zeta", false)]);
    assert_eq!(rows[1].source, RULE);
}

#[test]
fn stored_columns_are_shown_under_their_names() {
    let rows = labelled_fields(vec![
        ("event_name".to_owned(), Some("GET".to_owned())),
        ("other".to_owned(), None),
    ]);
    assert_eq!(rows[0].label, Field::EventName.label());
    assert_eq!(rows[0].value.as_deref(), Some("GET"));
    assert_eq!((rows[1].label.as_str(), rows[1].value.as_deref()), ("other", None));
}

#[test]
fn progress_is_reported_now_and_then_and_at_the_end() {
    let sent: Vec<usize> = (1..=70).filter(|done| reports_progress(*done, 70)).collect();
    assert_eq!(sent, [32, 64, 70]);
}

#[test]
fn a_case_is_listed_from_its_description() {
    let meta = parse(r#"{"input_dir":"/logs","status":"done","event_count":31250000}"#).unwrap();
    let row = case_summary("20260911-140307-prod", &meta);
    assert_eq!(row.case_id, "20260911-140307-prod");
    assert_eq!(row.input_dir, "/logs");
    assert_eq!(row.status, "done");
    assert_eq!(row.event_count, 31_250_000);

    let row = case_summary("x", &parse("{}").unwrap());
    assert_eq!((row.input_dir.as_str(), row.status.as_str(), row.event_count), ("", "unknown", 0));
    let row = case_summary("x", &parse(r#"{"event_count":4294967298}"#).unwrap());
    assert_eq!(row.event_count, 2);
}

#[test]
fn a_run_ends_its_case_with_a_status_and_a_note() {
    let outcome = Outcome {
        files_parsed: 3,
        files_skipped: 2,
        files_failed: 1,
        records_parsed: 0x1_0000_0007,
        cancelled: false,
        failures: vec![],
    };
    let told = parse_result("c1", &outcome);
    assert_eq!(
        (told.case_id.as_str(), told.files_parsed, told.files_skipped, told.files_failed),
        ("c1", 3, 2, 1)
    );
    assert_eq!((told.records_parsed, told.cancelled), (7, false));

    let cancelled = Outcome { cancelled: true, ..outcome.clone() };
    let done: Result<Outcome, String> = Ok(outcome);
    assert_eq!(end_status(&done), CaseStatus::Done);
    assert_eq!(finish_note(&done), "parse finished records=4294967303 failed=1");
    assert_eq!(end_status(&Ok(cancelled)), CaseStatus::Cancelled);
    let failed = Err(ParseError::WorkerPool("no threads".to_owned()).message());
    assert_eq!(end_status(&failed), CaseStatus::Failed);
    assert_eq!(
        finish_note(&failed),
        "parse failed: cannot create parser worker pool: no threads"
    );
    assert_eq!(rules_note(&Ok(18)), "rules registered 18");
    assert_eq!(rules_note(&Err("x".to_owned())), "rule registration failed: x");
}

#[test]
fn a_command_names_what_it_could_not_have() {
    assert_eq!(busy(true), "이미 파싱이 진행 중입니다");
    assert_eq!(busy(false), "파싱 또는 룰 평가가 진행 중입니다");
    let set = RuleSet::from_source(RULE).unwrap();
    assert_eq!(named_rule(&set, "my_rule").unwrap().id, "my_rule");
    assert_eq!(named_rule(&set, "gone").unwrap_err(), "룰을 찾을 수 없습니다: gone");
}
