//! What the results view asks of the store, and what it makes of the answers.

use awslog_core::model::NormalizedEvent;
use awslog_core::results::{
    conclude, counts_rows, result_page, EventCursor, MatchCount, RuleGroup, RunEnd, ScanEnd,
    Window,
};
use awslog_core::rule::{MatchStreamer, RuleSet};
use awslog_core::store::rows::{event_fields, evidence_text};
use awslog_core::store::sql::{Bind, Query};
use awslog_core::store::summary::{
    event_page, match_inserts, match_page, read_summary, EventSummary,
};
use awslog_core::store::window::{
    bound, event_count_query, event_page_query, groups_query, match_page_query,
    matched_count_query, next_cursor, rule_count_query, scope_params, search_count_query,
    search_filter, search_params, search_shape, SearchShape, Table,
};
use awslog_core::store::StoreError;

fn event(id: u64, name: &str) -> NormalizedEvent {
    NormalizedEvent {
        file_id: 0,
        record_index: id,
        event_time: None,
        event_source: Some("signin.amazonaws.com".into()),
        event_name: Some(name.into()),
        aws_region: Some("ap-northeast-2".into()),
        account_id: None,
        source_ip: Some("203.0.113.10".into()),
        user_agent: None,
        identity_type: Some("Root".into()),
        identity_arn: Some("arn:aws:iam::000000000000:root".into()),
        identity_name: None,
        mfa_authenticated: Some(false),
        error_code: None,
        error_message: None,
        read_only: Some(false),
        management_event: Some(true),
        request: None,
        response: None,
        resources: None,
        raw: Some(format!(r#"{{"eventName":"{name}","seq":{id}}}"#)),
    }
}

fn shown(binds: &[Bind]) -> Vec<String> {
    binds
        .iter()
        .map(|bind| match bind {
            Bind::Text(t) => t.clone(),
            Bind::Unsigned(n) => n.to_string(),
        })
        .collect()
}

/// A query has as many values as marks.
fn balanced(query: &Query) -> bool {
    query.sql.matches('?').count() == query.binds.len()
}

fn group(rule_id: &str, match_count: u64) -> RuleGroup {
    RuleGroup {
        rule_id: rule_id.to_owned(),
        name: rule_id.to_owned(),
        severity: "high".to_owned(),
        description: String::new(),
        match_count,
        evaluated: true,
    }
}

fn summary(event_id: u64, time_micros: Option<i64>, name: &str) -> EventSummary {
    let columns: Vec<Option<String>> = [
        "2026-09-12 09:00:00.000",
        name,
        "source",
        "arn",
        "203.0.113.10",
        "url",
        "status",
        "target",
        "agent",
        "region",
        "error",
        "resource",
        "country",
        "rule",
    ]
    .iter()
    .map(|c| Some((*c).to_owned()))
    .chain(vec![None])
    .collect();
    let types = vec![(0, "cloudtrail".to_owned())];
    read_summary(event_id, time_micros, &columns, &types, "{}".to_owned())
}

#[test]
fn a_match_row_carries_the_evidence_and_a_summary() {
    let set = RuleSet::from_source(
        r#"rule root_login {
               fields: $name = event_name == "ConsoleLogin"
                       $root = identity_type == "Root"
               condition: $name and $root
           }"#,
    )
    .unwrap();
    let mut streamer = MatchStreamer::new(&set, 100);
    assert!(streamer.push_for_log_type(7, "cloudtrail", &event(7, "ConsoleLogin")).is_none());
    let (batch, _) = streamer.finish();

    let types = vec![(0, "cloudtrail".to_owned())];
    let found = vec![summary(7, Some(1_000), "ConsoleLogin")];
    let rows = match_inserts(41, &batch, &types, &found);

    assert_eq!(rows.len(), 1);
    assert_eq!(rows[0].record.match_id, 41);
    assert_eq!(rows[0].record.rule_id, "root_login");
    assert_eq!(rows[0].record.event_id, 7);
    assert_eq!(rows[0].record.log_type, "cloudtrail");
    // Evidence travels with the row so the view never re-evaluates.
    assert_eq!(rows[0].record.fields, r#"{"$name":"ConsoleLogin","$root":"Root"}"#);
    assert_eq!(evidence_text(&batch[0].1.matched_fields), rows[0].record.fields);
    assert_eq!(rows[0].time_micros, Some(1_000));
    let stored: Vec<_> = rows[0].columns.iter().map(|c| c.as_deref()).collect();
    assert_eq!(
        stored,
        [
            Some("ConsoleLogin"),
            Some("source"),
            Some("arn"),
            Some("203.0.113.10"),
            Some("agent"),
            Some("region"),
            Some("error"),
            Some("url"),
            Some("status"),
            Some("target"),
            Some("resource"),
            Some("country"),
            Some("rule"),
            None
        ]
    );

    // A hit for an unknown event keeps its evidence; the summary is empty.
    let rows = match_inserts(41, &batch, &types, &vec![]);
    assert_eq!(rows[0].record.log_type, "cloudtrail");
    assert_eq!(rows[0].time_micros, None);
    assert_eq!(rows[0].columns, vec![None; 14]);
}

#[test]
fn a_page_follows_its_keys_not_the_lookup() {
    let found = vec![summary(3, Some(30), "C"), summary(1, Some(10), "A"), summary(9, None, "Z")];
    let page = event_page(&vec![(1, Some(10)), (2, Some(20)), (3, Some(30)), (1, None)], &found);

    let names: Vec<_> = page.rows.iter().map(|r| r.event_name.as_deref().unwrap()).collect();
    assert_eq!(names, ["A", "C"]);
    assert_eq!(page.rows[0].log_type, "cloudtrail");
    assert_eq!(page.total, None);
    assert_eq!(page.next_cursor.unwrap().event_id, "1");

    let page = match_page(&found);
    assert_eq!(page.rows.len(), 3);
    let cursor = page.next_cursor.unwrap();
    assert_eq!((cursor.event_id.as_str(), cursor.time_micros), ("9", None));
    assert!(event_page(&vec![], &found).next_cursor.is_none());
}

#[test]
fn unmatched_count_accounts_for_every_event() {
    let page = result_page(vec![], (None, None), vec![group("only_console", 1)], 2, 1);

    assert_eq!(page.total_events, 2);
    assert_eq!(page.matched_events, 1);
    assert_eq!(page.unmatched_events, 1);
}

#[test]
fn one_events_stored_columns_can_be_read_back() {
    let row: Vec<Option<String>> = (0..18)
        .map(|i| match i {
            2 => Some("ConsoleLogin".to_owned()),
            3 => Some("ap-northeast-2".to_owned()),
            7 => Some("Root".to_owned()),
            10 => Some("false".to_owned()),
            _ => None,
        })
        .collect();

    let fields = event_fields(Some(row));

    // The detail view must show what the rules matched on, which is the
    // stored row, not the raw record re-resolved with a newer mapping.
    let get = |key: &str| {
        fields.iter().find(|(field, _)| field == key).and_then(|(_, value)| value.clone())
    };
    assert_eq!(get("event_name").as_deref(), Some("ConsoleLogin"));
    assert_eq!(get("identity_type").as_deref(), Some("Root"));
    assert_eq!(get("aws_region").as_deref(), Some("ap-northeast-2"));
    assert_eq!(get("mfa_authenticated").as_deref(), Some("false"));
    // Absent columns are reported as absent, not as empty strings.
    assert_eq!(get("error_code"), None);
    assert_eq!(fields.len(), 18);
}

#[test]
fn reading_a_missing_event_yields_nothing() {
    assert!(event_fields(None).is_empty());
}

#[test]
fn a_rule_can_be_counted_without_saving_or_touching_stored_matches() {
    let set = RuleSet::from_source(
        r#"rule trial {
               meta: description = "d" severity = "low"
               fields: $n = event_name == "ConsoleLogin"
               condition: $n
           }"#,
    )
    .unwrap();
    let mut count = MatchCount::new();
    for i in 0..4 {
        count.visit(&set, "cloudtrail", &event(i, "ConsoleLogin"));
    }

    assert_eq!(count.hits, 4);
    // The proportion is read off one pass, so `scanned` is every event.
    assert_eq!(count.scanned, 4);
}

#[test]
fn counting_a_rule_that_matches_nothing_returns_zero() {
    let set = RuleSet::from_source(
        r#"rule trial {
               meta: description = "d" severity = "low"
               fields: $n = event_name == "DeleteTrail"
               condition: $n
           }"#,
    )
    .unwrap();
    let mut count = MatchCount::new();
    for i in 0..2 {
        count.visit(&set, "cloudtrail", &event(i, "ConsoleLogin"));
    }

    assert_eq!(count.hits, 0);
    assert_eq!(count.scanned, 2);
}

#[test]
fn bounds_accept_a_time_of_day_and_are_inclusive_at_their_unit() {
    // The upper edge is the exclusive instant one unit after what was typed.
    assert_eq!(bound("2026-09-12", false).unwrap(), "2026-09-12 00:00:00");
    assert_eq!(bound("2026-09-12", true).unwrap(), "2026-09-13 00:00:00");
    assert_eq!(bound("2026-09-12 09:00", true).unwrap(), "2026-09-12 09:01:00");
    assert_eq!(bound("2026-09-12 08:59", true).unwrap(), "2026-09-12 09:00:00");
    assert_eq!(bound("2026-09-12 09:00:00", false).unwrap(), "2026-09-12 09:00:00");
    assert_eq!(bound("2026-09-12 09:00:00", true).unwrap(), "2026-09-12 09:00:01");
    assert_eq!(bound(" 2026-12-31 ", true).unwrap(), "2027-01-01 00:00:00");
    // Malformed input is an error the UI can show, not a silent full scan.
    assert!(matches!(bound("2026/09/12", false), Err(StoreError::BadDateTime(_))));
    assert!(bound("2026-09-12 25:00", false).is_err());
    assert!(bound("2026-02-30", false).is_err());
}

#[test]
fn a_date_range_narrows_every_view_in_kst() {
    let window = Window {
        limit: 10,
        from: Some("2026-09-12".into()),
        to: Some("2026-09-12".into()),
        ..Default::default()
    };
    assert_eq!(
        shown(&scope_params(&window).unwrap()),
        ["2026-09-12 00:00:00", "2026-09-13 00:00:00"]
    );
    let query = event_count_query(&window).unwrap();
    assert_eq!(
        query.sql,
        "SELECT count(*) FROM events e WHERE true  \
         AND e.event_time >= CAST(? AS TIMESTAMP) - INTERVAL 9 HOUR \
         AND e.event_time < CAST(? AS TIMESTAMP) - INTERVAL 9 HOUR"
    );
    for query in [
        event_count_query(&window),
        matched_count_query(&window),
        search_count_query(&window),
        rule_count_query("everything", &window),
        event_page_query(&window),
        match_page_query("everything", &window),
        groups_query(&window),
    ] {
        let query = query.unwrap();
        assert!(balanced(&query), "{}", query.sql);
        assert!(query.sql.contains("INTERVAL 9 HOUR"), "{}", query.sql);
    }
}

#[test]
fn a_bad_bound_is_refused_by_every_query() {
    let window = Window { from: Some("yesterday".into()), ..Default::default() };
    assert!(matches!(event_count_query(&window), Err(StoreError::BadDateTime(t)) if t == "yesterday"));
    assert!(match_page_query("r", &window).is_err());
    assert!(groups_query(&window).is_err());
}

#[test]
fn the_search_needle_is_a_literal_not_a_pattern() {
    assert_eq!(search_shape(""), SearchShape::Nothing);
    assert_eq!(search_shape("   "), SearchShape::Text);
    assert_eq!(search_shape("console"), SearchShape::Text);
    assert_eq!(search_shape("2026-09-12 09:00"), SearchShape::TextOrTime);
    assert_eq!(search_filter("", Table::Events), "");
    assert!(search_params("").is_empty());

    assert_eq!(shown(&search_params("100_7")), vec![r"%100\_7%"; 14]);
    assert_eq!(shown(&search_params("%")), vec![r"%\%%"; 14]);
    assert_eq!(shown(&search_params(r"a\b")), vec![r"%a\\b%"; 14]);
    assert_eq!(
        search_filter("100_7", Table::Events).matches('?').count(),
        search_params("100_7").len()
    );
    assert_eq!(
        search_filter("09:00", Table::Matches).matches('?').count(),
        search_params("09:00").len()
    );
}

#[test]
fn every_column_a_row_shows_is_searched() {
    let events = search_filter("curl", Table::Events);
    for column in [
        "e.event_name",
        "e.event_source",
        "e.identity_arn",
        "e.source_ip",
        "json_extract_string(e.request, '$.url')",
        "e.user_agent",
        "e.aws_region",
        "e.error_code",
    ] {
        assert!(events.contains(&format!("{column} ILIKE ? ESCAPE '\\'")), "{column}");
    }
    assert!(!events.contains("event_time"));
    let matches = search_filter("10:30", Table::Matches);
    for column in ["e.url", "e.status", "e.target", "e.user_agent", "e.country", "e.method"] {
        assert!(matches.contains(&format!(" OR {column} ILIKE ? ESCAPE '\\'")), "{column}");
    }
    assert!(matches.ends_with("'%Y-%m-%d %H:%M:%S.%g') LIKE ? ESCAPE '\\')"));
}

#[test]
fn search_narrows_a_rules_matches_and_the_total_follows_the_filter() {
    let window = Window { limit: 10, search: "console".into(), ..Default::default() };

    let count = rule_count_query("everything", &window).unwrap();
    let mut binds = vec!["everything"];
    binds.extend(["%console%"; 14]);
    assert_eq!(shown(&count.binds), binds);
    assert!(count.sql.contains("ILIKE"));
    // The rule group keeps its real hit count: the sidebar is not filtered.
    assert!(!groups_query(&window).unwrap().sql.contains("ILIKE"));
    assert!(!event_count_query(&window).unwrap().sql.contains("ILIKE"));
}

#[test]
fn a_rules_matches_are_ordered_oldest_first_unless_asked_otherwise() {
    let oldest = Window { limit: 10, ..Default::default() };
    let newest = Window { limit: 10, newest_first: true, ..Default::default() };

    // A record without a time sits last in both directions.
    assert!(match_page_query("everything", &oldest)
        .unwrap()
        .sql
        .ends_with("ORDER BY e.event_time ASC NULLS LAST, e.event_id ASC LIMIT ?"));
    assert!(match_page_query("everything", &newest)
        .unwrap()
        .sql
        .ends_with("ORDER BY e.event_time DESC NULLS LAST, e.event_id DESC LIMIT ?"));
}

#[test]
fn paginates_matches_within_a_rule() {
    // The page after a row starts strictly past it.
    let cursor = next_cursor(Some((5, Some(1_000)))).unwrap();
    assert_eq!(cursor.event_id, "5");
    assert_eq!(cursor.time_micros.as_deref(), Some("1000"));
    let window = Window { limit: 100, after: Some(cursor), ..Default::default() };
    let query = match_page_query("root_login", &window).unwrap();
    assert!(query.sql.contains("(e.event_time, e.event_id) > ("));
    assert_eq!(shown(&query.binds), ["root_login", "1000", "5", "100"]);

    // After a row without a time only such rows are left.
    let window = Window {
        limit: 100,
        after: next_cursor(Some((9, None))),
        newest_first: true,
        ..Default::default()
    };
    let query = event_page_query(&window).unwrap();
    assert!(query.sql.contains("e.event_time IS NULL AND e.event_id < CAST"));
    assert_eq!(shown(&query.binds), ["9", "100"]);

    assert!(next_cursor(None).is_none());
    // Only the first page pays for a count.
    assert!(counts_rows(&Window::default()));
    assert!(!counts_rows(&window));
}

#[test]
fn a_page_size_the_ui_could_get_wrong_is_clamped_not_obeyed() {
    // Zero would page forever without ever showing a row, so it floors at one.
    assert_eq!(Window { limit: 0, ..Default::default() }.page_limit(), 1);
    // And the ceiling keeps one response from carrying a whole case.
    assert_eq!(Window { limit: u64::MAX, ..Default::default() }.page_limit(), 1_000);
    assert_eq!(Window { limit: 50, ..Default::default() }.page_limit(), 50);
}

#[test]
fn log_type_filter_narrows_events_groups_and_matches() {
    let window = Window { log_type: Some("alb_access".into()), ..Default::default() };

    let events = event_count_query(&window).unwrap();
    assert_eq!(
        events.sql,
        "SELECT count(*) FROM events e WHERE true \
         AND e.file_id IN (SELECT file_id FROM files WHERE log_type = ?)"
    );
    assert_eq!(shown(&events.binds), ["alb_access"]);
    assert_eq!(
        matched_count_query(&window).unwrap().sql,
        "SELECT count(DISTINCT e.event_id) FROM rule_matches e WHERE true AND e.log_type = ?"
    );
    let groups = groups_query(&window).unwrap();
    assert!(groups.sql.contains("WHERE r.log_type IS NULL OR r.log_type = ?"));
    assert_eq!(shown(&groups.binds), ["alb_access", "alb_access"]);
}

#[test]
fn the_all_tab_lists_only_rules_for_parsed_log_types() {
    let groups = groups_query(&Window::default()).unwrap();
    assert!(groups.sql.contains(
        "WHERE r.log_type IS NULL OR r.log_type IN (SELECT f.log_type FROM files f \
         WHERE EXISTS (SELECT 1 FROM events e WHERE e.file_id = f.file_id))"
    ));
    assert!(groups.binds.is_empty());
}

#[test]
fn a_cancelled_or_failed_run_records_nothing() {
    let set = RuleSet::from_source(r#"rule r { fields: $a = event_name exists condition: $a }"#)
        .unwrap();
    let mut streamer = MatchStreamer::new(&set, 10);
    assert!(streamer.push(0, &event(0, "GET")).is_none());
    assert!(streamer.push(1, &event(1, "GET")).is_none());
    let (_, summary) = streamer.finish();

    assert!(matches!(
        conclude(ScanEnd::Complete, Ok(()), false, &summary),
        RunEnd::Evaluated(2)
    ));
    assert!(matches!(conclude(ScanEnd::Cancelled, Ok(()), true, &summary), RunEnd::Cancelled));
    assert!(matches!(conclude(ScanEnd::Complete, Ok(()), true, &summary), RunEnd::Cancelled));
    assert!(matches!(
        conclude(ScanEnd::Failed("io".into()), Ok(()), false, &summary),
        RunEnd::Failed(m) if m.contains("io")
    ));
    assert!(matches!(
        conclude(ScanEnd::Complete, Err("disk full".into()), false, &summary),
        RunEnd::Failed(m) if m.contains("disk full")
    ));
}

#[test]
fn a_cursor_that_is_no_number_still_makes_a_balanced_query() {
    let window = Window {
        after: Some(EventCursor { event_id: "x".into(), time_micros: Some("y".into()) }),
        ..Default::default()
    };
    assert!(balanced(&event_page_query(&window).unwrap()));
}

#[test]
fn following_the_cursor_lists_every_row_once() {
    // The condition a cursor stands for, on rows held in memory.
    let mut rows: Vec<(u64, Option<i64>)> =
        (0..11).map(|id| (id, if id % 4 == 3 { None } else { Some((id / 2) as i64) })).collect();
    rows.sort_by_key(|(id, time)| (time.is_none(), *time, *id));
    let mut listed = Vec::new();
    let mut after: Option<EventCursor> = None;
    loop {
        let window = Window { limit: 3, after: after.take(), ..Default::default() };
        let behind = |row: &(u64, Option<i64>)| match &window.after {
            None => true,
            Some(cursor) => {
                let id: u64 = cursor.event_id.parse().unwrap();
                match &cursor.time_micros {
                    Some(time) => {
                        row.1.is_none() || (row.1, row.0) > (Some(time.parse().unwrap()), id)
                    }
                    None => row.1.is_none() && row.0 > id,
                }
            }
        };
        let keys: Vec<_> =
            rows.iter().copied().filter(behind).take(window.page_limit() as usize).collect();
        let page = event_page(&keys, &Vec::new());
        if keys.is_empty() {
            assert!(page.next_cursor.is_none());
            break;
        }
        listed.extend(keys);
        after = page.next_cursor;
    }
    assert_eq!(listed, rows);
}
