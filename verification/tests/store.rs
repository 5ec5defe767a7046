//! What the session store writes, and how a rule pass reads it back.

use awslog_core::model::NormalizedEvent;
use awslog_core::rule::{parse_rules, Rule};
use awslog_core::stamp::Stamp;
use awslog_core::store::candidate::{necessary_vars, rule_candidate, set_candidate};
use awslog_core::store::pass::{
    columns_of_rules, scan_query, span_end, wants_type, FileSpan, Pass, Step, CHUNK,
};
use awslog_core::store::rows::{
    dense_range, event_id, file_of, id_lists, read_time, summary_queries, type_of_event, EventWriter,
    SUMMARY_LOOKUP_BATCH,
};
use awslog_core::store::sql::{Bind, Query};
use awslog_core::store::ledger::{backfill, case_json, rule_record, temp_dir_statement, Lacking};
use awslog_core::store::{CaseMeta, CaseStatus, StoreError};

fn event(index: u64, name: &str) -> NormalizedEvent {
    NormalizedEvent {
        file_id: 1,
        record_index: index,
        event_time: Some(Stamp { local: 1_789_092_184_000_000_000, offset: 0 }),
        event_source: Some("signin.amazonaws.com".into()),
        event_name: Some(name.into()),
        aws_region: Some("ap-northeast-2".into()),
        account_id: Some("000000000000".into()),
        source_ip: Some("203.0.113.10".into()),
        user_agent: None,
        identity_type: Some("IAMUser".into()),
        identity_arn: Some("arn:aws:iam::000000000000:user/masked".into()),
        identity_name: Some("masked".into()),
        mfa_authenticated: Some(false),
        error_code: None,
        error_message: None,
        read_only: Some(false),
        management_event: Some(true),
        request: None,
        response: Some(r#"{"ConsoleLogin":"Failure"}"#.into()),
        resources: None,
        raw: Some(r#"{"eventName":"ConsoleLogin"}"#.into()),
    }
}

fn span(file_id: u32, log_type: &str, rows: u64, end: u64) -> FileSpan {
    FileSpan { file_id, log_type: log_type.to_owned(), rows, end }
}

fn texts(query: &Query) -> Vec<&str> {
    query
        .binds
        .iter()
        .map(|bind| match bind {
            Bind::Text(t) => t.as_str(),
            Bind::Unsigned(_) => "",
        })
        .collect()
}

/// The chunks a pass reads, then the count it ends with.
fn drained(mut pass: Pass) -> (Vec<(usize, u64, u64)>, u64) {
    let mut chunks = Vec::new();
    loop {
        match pass.next(false).unwrap() {
            Step::Read(chunk) => chunks.push((chunk.file, chunk.from, chunk.to)),
            Step::Done(stored) => return (chunks, stored),
        }
    }
}

#[test]
fn a_cancelled_scan_stops_at_the_row_the_cancel_lands_on() {
    let spans = || vec![span(1, "cloudtrail", 5, 5)];
    assert!(matches!(
        Pass::start(spans(), vec![true], true),
        Err(StoreError::Cancelled)
    ));

    let mut pass = Pass::start(spans(), vec![true], false).unwrap();
    assert!(matches!(pass.next(false), Ok(Step::Read(_))));
    // A cancel is seen at the next step, the last one included.
    assert!(matches!(pass.next(true), Err(StoreError::Cancelled)));
}

#[test]
fn a_file_with_a_gap_is_scanned_past_the_chunk_boundary() {
    // Malformed records leave holes in `record_index`: the parser numbers
    // every line and stores only the ones that normalize. A scan that reads
    // 50,000-row ranges and stops as soon as a range comes back short would
    // end the file at its first hole and silently drop the rest.
    const LAST: u64 = 60_000;
    let spans = vec![span(1, "cloudtrail", LAST, span_end(Some(LAST)))];

    let (chunks, stored) = drained(Pass::start(spans, vec![true], false).unwrap());

    assert_eq!(CHUNK, 50_000);
    assert_eq!(chunks, [(0, 0, 50_000), (0, 50_000, 100_000)]);
    assert_eq!(stored, LAST);
}

#[test]
fn files_no_rule_runs_on_are_passed_over_but_still_counted() {
    let spans = vec![
        span(0, "cloudtrail", 10, 10),
        span(1, "alb_access", 20, 20),
        span(2, "cloudtrail", 0, span_end(None)),
        span(3, "cloudtrail", 1, 1),
    ];
    let rules = parse_rules(
        r#"rule r { meta: log_type = "cloudtrail" fields: $a = event_name exists condition: $a }"#,
    )
    .unwrap();
    let borrowed: Vec<&Rule> = rules.iter().collect();
    let wanted = spans.iter().map(|s| wants_type(&borrowed, &s.log_type)).collect();

    let (chunks, stored) = drained(Pass::start(spans, wanted, false).unwrap());

    assert_eq!(chunks, [(0, 0, 50_000), (3, 0, 50_000)]);
    // A count reports its hits as a proportion of the case.
    assert_eq!(stored, 31);
}

#[test]
fn a_pass_reads_only_the_columns_the_rules_name() {
    let rules = parse_rules(
        r#"rule r {
               fields:
                   $a = event_name == "GET"
                   $b = response.elb_status_code >= 500
               condition: $a and $b
           }"#,
    )
    .unwrap();
    let borrowed: Vec<&Rule> = rules.iter().collect();
    let columns = columns_of_rules(&borrowed);
    let names: Vec<_> = (0..columns.len()).map(|i| columns.entry(i).0).collect();
    assert_eq!(names, ["event_name", "response"]);

    let filter = set_candidate(&borrowed);
    let sql = scan_query(Some(&columns), &filter);
    assert!(sql.starts_with(
        "SELECT event_id, file_id, record_index, NULL AS event_source, event_name, "
    ));
    assert!(sql.contains("NULL AS request, response, NULL AS resources, NULL AS raw, NULL AS event_time FROM events"));
    assert!(sql.ends_with("AND record_index < ? AND ((event_name = ?)) ORDER BY record_index"), "{sql}");
    assert_eq!(texts(&filter.unwrap()), ["GET"]);

    let whole = scan_query(None, &None);
    assert!(!whole.contains("NULL AS"));
    assert!(whole.contains(", raw, epoch_us(event_time) FROM events"));
}

#[test]
fn a_stored_time_reads_back() {
    // 2026-09-11T02:03:04Z.
    let at = Stamp { local: 1_789_092_184_000_000_000, offset: 0 };
    assert_eq!(read_time(at.unix_micros()), Some(at));
    // The database keeps microseconds, in UTC.
    let east = Stamp { local: 9 * 3_600_000_000_000 + 1_999, offset: 9 * 3_600 };
    assert_eq!(read_time(east.unix_micros()), Some(Stamp { local: 1_000, offset: 0 }));
    assert_eq!(read_time(None), None);
    assert_eq!(read_time(Some(i64::MAX)), None);

    // A rule on the time has it read.
    let rules = parse_rules(
        r#"rule t { fields: $t = event_time startswith "2026" condition: $t }"#,
    )
    .unwrap();
    let borrowed: Vec<&Rule> = rules.iter().collect();
    let sql = scan_query(Some(&columns_of_rules(&borrowed)), &None);
    assert!(sql.contains("NULL AS raw, epoch_us(event_time) FROM events"), "{sql}");
}

#[test]
fn only_a_necessary_condition_narrows_the_rows() {
    let rules = parse_rules(
        r#"
rule both {
    fields: $a = event_name == "GET" $b = source_ip in ("1.1.1.1", "2.2.2.2")
    condition: $a and $b
}
rule either {
    fields: $a = event_name == "GET" $b = source_ip == "1.1.1.1"
    condition: $a or $b
}
rule negated { fields: $a = event_name == "GET" condition: not $a }
rule all_of {
    fields: $a = event_name == "GET" $b = aws_region == "us-east-1"
    condition: 2 of ($a, $b)
}
"#,
    )
    .unwrap();

    let mut vars = necessary_vars(&rules[0].condition);
    vars.sort();
    assert_eq!(vars, ["$a", "$b"]);
    let both = rule_candidate(&rules[0]).unwrap();
    assert_eq!(both.sql, "(event_name = ? AND source_ip IN (?, ?))");
    assert_eq!(texts(&both), ["GET", "1.1.1.1", "2.2.2.2"]);

    assert!(necessary_vars(&rules[1].condition).is_empty());
    assert!(rule_candidate(&rules[1]).is_none());
    assert!(rule_candidate(&rules[2]).is_none());
    let mut vars = necessary_vars(&rules[3].condition);
    vars.sort();
    assert_eq!(vars, ["$a", "$b"]);

    // One rule without a filter leaves the whole set without one.
    assert!(set_candidate(&rules.iter().collect()).is_none());
    let narrowed = set_candidate(&vec![&rules[0], &rules[3]]).unwrap();
    assert_eq!(narrowed.sql.matches('?').count(), narrowed.binds.len());
}

#[test]
fn an_event_id_holds_the_file_and_the_record() {
    assert_eq!(event_id(0, 7).unwrap(), 7);
    assert_eq!(event_id(3, 7).unwrap(), 3 * 0x1_0000_0000 + 7);
    assert_eq!(file_of(event_id(3, 7).unwrap()), 3);
    assert!(event_id(3, 0xffff_ffff).is_ok());
    assert!(matches!(
        event_id(3, 0x1_0000_0000),
        Err(StoreError::RecordIndexOverflow { file_id: 3 })
    ));
    assert_eq!(
        type_of_event(&vec![(3, "alb_access".to_owned())], event_id(3, 7).unwrap()),
        "alb_access"
    );
    assert_eq!(type_of_event(&vec![], 7), "");
}

#[test]
fn appends_events_in_batches_and_counts_them() {
    let mut writer = EventWriter::new();
    let mut ids = Vec::new();
    for i in 0..5_000 {
        let (key, _) = writer.append(&event(i, "ConsoleLogin")).unwrap();
        assert_eq!(key.time_micros, Some(1_789_092_184_000_000));
        ids.push(key.event_id);
    }
    assert_eq!(ids.len(), 5_000);
    assert!(ids.windows(2).all(|w| w[0] < w[1]));
}

#[test]
fn a_large_batch_is_committed_before_it_fills_memory() {
    let mut writer = EventWriter::new();
    let mut fat = event(0, "ConsoleLogin");
    fat.raw = Some("x".repeat(4 * 1024 * 1024));
    let commits = (0..64).filter(|_| writer.append(&fat).unwrap().1).count();
    assert!(commits > 0);
    assert!(commits < 64);
}

#[test]
fn a_run_of_ids_is_asked_for_as_a_range() {
    let packed: Vec<u64> = (0..SUMMARY_LOOKUP_BATCH as u64).map(|i| 4 + i).collect();
    let last = *packed.last().unwrap();
    assert_eq!(dense_range(&packed), Some((4, last)));
    // Too few to be worth a scan, or spread too thin for one.
    assert_eq!(dense_range(&vec![4, 5, 6]), None);
    let spread: Vec<u64> = packed.iter().map(|id| id * 3).collect();
    assert_eq!(dense_range(&spread), None);
    assert_eq!(summary_queries(&packed).len(), 1);

    let ids: Vec<u64> = (0..5).map(|i| i * 3).collect();
    assert_eq!(id_lists(&ids), ["0,3,6,9,12"]);
    for query in summary_queries(&ids) {
        assert_eq!(query.sql.matches('?').count(), query.binds.len());
    }
    assert!(summary_queries(&vec![]).is_empty());
}

#[test]
fn finishing_a_case_records_status_and_end_time() {
    for status in
        [CaseStatus::Running, CaseStatus::Done, CaseStatus::Cancelled, CaseStatus::Failed]
    {
        assert_eq!(CaseStatus::parse(status.as_str()), status);
    }
    assert_eq!(CaseStatus::Done.as_str(), "done");
    // Nothing else was ever recorded as an end.
    assert_eq!(CaseStatus::parse("???"), CaseStatus::Running);
}

#[test]
fn store_errors_say_what_went_wrong() {
    assert!(StoreError::Db("boom".into()).message().contains("boom"));
    assert!(StoreError::BadDateTime("x".into()).message().contains('x'));
    assert!(StoreError::RecordIndexOverflow { file_id: 3 }.message().contains('3'));
    assert!(StoreError::MissingMeta("status".into()).message().contains("status"));
    assert!(!StoreError::Cancelled.message().is_empty());
}

#[test]
fn rule_log_types_can_be_backfilled_from_a_rule_set() {
    let rules = parse_rules(
        r#"rule a { meta: log_type = "alb_access" name = "A" fields: $n = event_name exists condition: $n }
           rule b { fields: $n = event_name exists condition: $n }"#,
    )
    .unwrap();

    let types = backfill(&rules, Lacking::LogType);
    assert_eq!(types.len(), 1, "a rule without a scope fills nothing");
    assert_eq!(
        types[0].sql,
        "UPDATE rules SET log_type = ? WHERE rule_id = ? AND log_type IS NULL"
    );
    assert_eq!(texts(&types[0]), ["alb_access", "a"]);
    let names = backfill(&rules, Lacking::Name);
    assert_eq!(names[0].sql, "UPDATE rules SET name = ? WHERE rule_id = ? AND name IS NULL");
    assert_eq!(texts(&names[0]), ["A", "a"]);
}

#[test]
fn a_rule_run_records_metadata_so_severity_never_degrades() {
    let rules = parse_rules(
        r#"rule root_login {
               meta: name = "루트 콘솔 로그인" description = "Root console login" severity = "high"
               fields: $n = event_name exists condition: $n
           }
           rule bare { fields: $n = event_name exists condition: $n }"#,
    )
    .unwrap();

    let record = rule_record(&rules[0]);
    assert_eq!(record.rule_id, "root_login");
    assert_eq!(record.name.as_deref(), Some("루트 콘솔 로그인"));
    assert_eq!(record.severity, "high");
    assert_eq!(record.description, "Root console login");
    assert_eq!(record.log_type, None);
    assert!(!record.evaluated);

    let record = rule_record(&rules[1]);
    assert_eq!((record.name, record.severity.as_str()), (None, "unknown"));
}

#[test]
fn case_json_can_be_regenerated_after_deletion() {
    let meta = CaseMeta {
        case_id: "case-1".into(),
        input_dir: "C:\\logs \"x\"".into(),
        status: CaseStatus::Done,
        app_version: "0.1.0".into(),
    };
    let text = case_json(&meta, 42);
    let expected = serde_json::to_string_pretty(
        &serde_json::from_str::<serde_json::Value>(&text).unwrap(),
    )
    .unwrap();
    assert_eq!(text, expected);
    let row = awslog_core::shell::case_summary("case-1", &awslog_core::json::parse(&text).unwrap());
    assert_eq!(row.input_dir, "C:\\logs \"x\"");
    assert_eq!(row.status, "done");
    assert_eq!(row.event_count, 42);
}

#[test]
fn a_directory_name_cannot_end_its_literal() {
    assert_eq!(temp_dir_statement("/a/b"), "SET temp_directory = '/a/b';");
    assert_eq!(temp_dir_statement("/it's"), "SET temp_directory = '/it''s';");
}
