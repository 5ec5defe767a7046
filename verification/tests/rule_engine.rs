//! Rule loading and match aggregation for the results view.

use awslog_core::model::NormalizedEvent;
use awslog_core::rule::{self, RuleSet};
use awslog_core::stamp::Stamp;

fn event(name: &str, identity: &str) -> NormalizedEvent {
    NormalizedEvent {
        file_id: 0,
        record_index: 0,
        event_time: Some(Stamp { local: 1_789_092_184_000_000_000, offset: 0 }),
        event_source: Some("signin.amazonaws.com".into()),
        event_name: Some(name.into()),
        aws_region: Some("ap-northeast-2".into()),
        account_id: None,
        source_ip: None,
        user_agent: None,
        identity_type: Some(identity.into()),
        identity_arn: None,
        identity_name: None,
        mfa_authenticated: Some(false),
        error_code: None,
        error_message: None,
        read_only: Some(false),
        management_event: Some(true),
        request: None,
        response: None,
        resources: None,
        raw: None,
    }
}

const GOOD: &str = r#"
rule root_login {
    meta: description = "Root console login" severity = "high"
    fields:
        $name = event_name == "ConsoleLogin"
        $root = identity_type == "Root"
    condition: $name and $root
}
"#;

const SHIPPED: &str = r#"
rule alb_server_error {
    meta: description = "5xx" severity = "medium" log_type = "alb_access"
    fields: $a = response.elb_status_code >= 500
    condition: $a
}
rule alb_forbidden {
    meta: description = "403" severity = "low" log_type = "alb_access"
    fields: $a = response.elb_status_code == 403
    condition: $a
}
"#;

fn file(name: &str, text: &str) -> (String, String) {
    (name.to_owned(), text.to_owned())
}

fn shipped() -> Vec<(String, String)> {
    vec![file("alb.yar", SHIPPED)]
}

/// The rule files among those of a directory.
fn rule_files(files: Vec<(String, String)>) -> Vec<(String, String)> {
    files.into_iter().filter(|(name, _)| rule::is_rule_file(name)).collect()
}

#[test]
fn loads_every_rule_file_in_a_directory() {
    let set = RuleSet::from_files(&rule_files(vec![
        file("a.yar", GOOD),
        file(
            "b.yar",
            r#"rule any_login { fields: $a = event_name == "ConsoleLogin" condition: $a }"#,
        ),
        // Non-rule files are ignored, not treated as errors.
        file("notes.txt", "ignore me"),
    ]));

    assert_eq!(set.rules().len(), 2);
    assert!(set.errors().is_empty());
    assert!(!rule::is_rule_file(".yar"), "a hidden file without a name");
}

#[test]
fn a_broken_rule_file_disables_only_itself() {
    let set = RuleSet::from_files(&rule_files(vec![
        file("broken.yar", "rule oops { fields: $a = "),
        file("good.yar", GOOD),
    ]));

    assert_eq!(set.rules().len(), 1, "the valid rule still loads");
    assert_eq!(set.errors().len(), 1);
    assert!(set.errors()[0].path.ends_with("broken.yar"));
    assert!(!set.errors()[0].message.is_empty());
}

#[test]
fn matching_groups_hits_by_rule_and_counts_unmatched() {
    let set = RuleSet::from_source(GOOD).unwrap();
    let events = [
        event("ConsoleLogin", "Root"),    // matches
        event("ConsoleLogin", "IAMUser"), // no: not root
        event("AssumeRole", "Root"),      // no: wrong event
    ];

    let numbered: Vec<(u64, &NormalizedEvent)> =
        events.iter().enumerate().map(|(i, e)| (i as u64, e)).collect();
    let report = rule::match_events(&set, &numbered);

    assert_eq!(report.groups.len(), 1);
    let group = &report.groups[0];
    assert_eq!(group.rule_id, "root_login");
    assert_eq!(group.severity, "high");
    assert_eq!(group.description, "Root console login");
    assert_eq!(group.matches.len(), 1);
    assert_eq!(group.matches[0].event_id, 0);

    // Every event is accounted for: matched + unmatched == total.
    assert_eq!(report.unmatched, 2);
    assert_eq!(report.total, 3);
}

#[test]
fn an_event_can_match_several_rules() {
    let src = format!(
        "{GOOD}\nrule any_login {{ fields: $a = event_name == \"ConsoleLogin\" condition: $a }}"
    );
    let set = RuleSet::from_source(&src).unwrap();

    let report = rule::match_events(&set, &[(7u64, &event("ConsoleLogin", "Root"))]);

    assert_eq!(report.groups.len(), 2);
    assert_eq!(report.unmatched, 0);
    // One event, matched twice: the count is of events, not of hits.
    assert_eq!(report.total, 1);
}

#[test]
fn log_type_meta_restricts_which_rules_apply() {
    let src = r#"
rule only_vpc {
    meta: log_type = "vpc_flow"
    fields: $a = event_name == "ConsoleLogin"
    condition: $a
}
"#;
    let set = RuleSet::from_source(src).unwrap();

    let applicable = set.for_log_type("cloudtrail").len();

    assert_eq!(applicable, 0, "a vpc-only rule must not run on cloudtrail");
    assert_eq!(set.for_log_type("vpc_flow").len(), 1);
}

#[test]
fn matched_fields_travel_with_the_hit() {
    let set = RuleSet::from_source(GOOD).unwrap();

    let report = rule::match_events(&set, &[(3u64, &event("ConsoleLogin", "Root"))]);

    let hit = &report.groups[0].matches[0];
    assert_eq!(hit.event_id, 3);
    assert_eq!(hit.matched_fields.get("$root").map(String::as_str), Some("Root"));
    assert_eq!(hit.matched_fields.get("$name").map(String::as_str), Some("ConsoleLogin"));
}

#[test]
fn streaming_rules_respect_each_events_log_type() {
    let set = RuleSet::from_source(
        r#"
rule cloudtrail_get {
    meta: log_type = "cloudtrail"
    fields: $method = event_name == "GET"
    condition: $method
}
rule alb_get {
    meta: log_type = "alb_access"
    fields: $method = event_name == "GET"
    condition: $method
}
"#,
    )
    .unwrap();
    let event = event("GET", "none");
    let mut streamer = rule::MatchStreamer::new(&set, 100);
    let mut hits = Vec::new();

    if let Some(batch) = streamer.push_for_log_type(7, "alb_access", &event) {
        hits.extend(batch.into_iter().map(|(rule_id, _)| rule_id));
    }
    let (rest, summary) = streamer.finish();
    hits.extend(rest.into_iter().map(|(rule_id, _)| rule_id));

    assert_eq!(hits, ["alb_get"]);
    assert_eq!(summary.total, 1);
    assert_eq!(summary.unmatched, 0);
}

#[test]
fn user_rules_override_shipped_rules_with_the_same_id() {
    let user = vec![file(
        "alb_server_error.yar",
        r#"rule alb_server_error {
               meta: description = "tuned" severity = "low" log_type = "alb_access"
               fields: $a = event_name == "GET"
               condition: $a
           }"#,
    )];

    let set = RuleSet::layered(&shipped(), &user);

    assert_eq!(
        set.rules().len(),
        RuleSet::from_files(&shipped()).rules().len(),
        "the id is replaced, not duplicated"
    );
    let rule = set.rule("alb_server_error").unwrap();
    assert_eq!(rule.severity(), "low");
    assert_eq!(rule.description(), "tuned");
    assert!(set.is_user("alb_server_error"));
    assert!(!set.is_user("alb_forbidden"));
    // The text kept for the editor is the user's.
    assert!(set.source("alb_server_error").unwrap().contains("tuned"));
}

#[test]
fn user_rules_with_new_ids_are_added() {
    let user = vec![file(
        "extra.yar",
        r#"rule my_rule { fields: $a = event_name == "AssumeRole" condition: $a }"#,
    )];

    let set = RuleSet::layered(&shipped(), &user);

    let alone = RuleSet::from_files(&shipped()).rules().len();
    assert_eq!(set.rules().len(), alone + 1);
    assert!(set.rule("my_rule").is_some());
    assert!(set.rule("alb_server_error").is_some());
    // No user rules: the shipped pack alone.
    assert_eq!(RuleSet::layered(&shipped(), &vec![]).rules().len(), alone);
}

#[test]
fn snapshot_writes_shipped_and_user_rules_into_the_case_directory() {
    let files = rule::snapshot_files(&shipped(), &vec![file("mine.yar", GOOD)]);

    let names: Vec<_> = files.iter().map(|(name, _)| name.as_str()).collect();
    // User files are prefixed so they cannot overwrite a shipped file.
    assert_eq!(names, ["alb.yar", "user-mine.yar"]);
    assert_eq!(
        RuleSet::from_files(&files).rules().len(),
        RuleSet::from_files(&shipped()).rules().len() + 1
    );
    assert_eq!(files[1].1, GOOD);
}

#[test]
fn snapshot_drops_rules_that_are_no_longer_loaded() {
    let with_user = rule::snapshot_files(&shipped(), &vec![file("mine.yar", GOOD)]);
    let without_user = rule::snapshot_files(&shipped(), &vec![]);

    // The snapshot explains a result. A leftover file would claim a deleted
    // rule contributed to matches it no longer produced.
    assert_eq!(without_user.len(), with_user.len() - 1);
    assert!(without_user.iter().any(|(name, _)| name == "alb.yar"));
    assert!(!without_user.iter().any(|(name, _)| name == "user-mine.yar"));
}

#[test]
fn a_full_batch_is_handed_over_and_the_rest_at_the_end() {
    let set = RuleSet::from_source(GOOD).unwrap();
    let hit = event("ConsoleLogin", "Root");
    let miss = event("AssumeRole", "Root");
    let mut streamer = rule::MatchStreamer::new(&set, 2);

    assert!(streamer.push(0, &hit).is_none());
    assert!(streamer.push(1, &miss).is_none());
    let batch = streamer.push(2, &hit).expect("two hits fill the batch");
    assert_eq!(batch.iter().map(|(_, h)| h.event_id).collect::<Vec<_>>(), [0, 2]);
    assert!(streamer.push(3, &hit).is_none());

    let (rest, summary) = streamer.finish();
    assert_eq!(rest.iter().map(|(_, h)| h.event_id).collect::<Vec<_>>(), [3]);
    assert_eq!(summary.total, 4);
    assert_eq!(summary.unmatched, 1);
    assert_eq!(summary.rules[0].rule_id, "root_login");
    assert_eq!(summary.rules[0].match_count, 3);
}
