//! Parsing files into normalized events.

use std::io::{Read, Write};

use awslog_core::detect::detect;
use awslog_core::json::{self, Json};
use awslog_core::logging::redact;
use awslog_core::model::NormalizedEvent;
use awslog_core::parse::{
    buckets, chosen_files, plan, registered, tally, worker_count, FileMark, FileStatus, JobResult,
    LineFile, Outcome, ParseOptions, ParsedFile, Plan, RecordSink,
};
use awslog_core::payload::{KeyCounter, TypeCounters};
use awslog_core::report::relative;
use awslog_core::rule::{evaluate, parse_rules};
use awslog_core::scan::FilePath;
use flate2::read::MultiGzDecoder;
use flate2::write::GzEncoder;
use flate2::Compression;

fn gzip(bytes: &[u8]) -> Vec<u8> {
    let mut enc = GzEncoder::new(Vec::new(), Compression::fast());
    enc.write_all(bytes).unwrap();
    enc.finish().unwrap()
}

/// Two gzip members concatenated, as produced by some S3 export pipelines.
fn gzip_multi_member(parts: &[&[u8]]) -> Vec<u8> {
    parts.iter().flat_map(|p| gzip(p)).collect()
}

/// Minimal CloudTrail record with masked identifiers.
fn cloudtrail_record(event_name: &str) -> String {
    format!(
        r#"{{
            "eventVersion": "1.08",
            "eventTime": "2026-09-11T02:03:04Z",
            "eventSource": "signin.amazonaws.com",
            "eventName": "{event_name}",
            "awsRegion": "ap-northeast-2",
            "sourceIPAddress": "203.0.113.10",
            "userAgent": "Mozilla/5.0",
            "recipientAccountId": "000000000000",
            "userIdentity": {{
                "type": "IAMUser",
                "arn": "arn:aws:iam::000000000000:user/masked",
                "userName": "masked"
            }},
            "responseElements": {{"ConsoleLogin": "Failure"}},
            "readOnly": false,
            "managementEvent": true
        }}"#
    )
}

fn cloudtrail_json(records: &[String]) -> String {
    format!(r#"{{"Records":[{}]}}"#, records.join(","))
}

/// One WAF v2 log line, masked. `action`/`rule` shape the block case.
fn waf_record(action: &str, rule: &str) -> String {
    format!(
        r#"{{"timestamp":1788146539583,"formatVersion":1,"webaclId":"arn:aws:wafv2:ap-northeast-2:000000000000:regional/webacl/masked-acl/00000000-0000-0000-0000-000000000000","terminatingRuleId":"{rule}","terminatingRuleType":"MANAGED_RULE_GROUP","action":"{action}","terminatingRuleMatchDetails":[{{"conditionType":"SQL_INJECTION","location":"ALL_QUERY_ARGS","matchedData":["Aloe","Extract"],"matchedFieldName":"query"}}],"httpSourceName":"APIGW","httpSourceId":"000000000000:masked:prd","ruleGroupList":[],"rateBasedRuleList":[],"nonTerminatingMatchingRules":[],"requestHeadersInserted":null,"responseCodeSent":null,"httpRequest":{{"clientIp":"203.0.113.10","country":"KR","headers":[{{"name":"host","value":"api.example.test"}},{{"name":"user-agent","value":"Mozilla/5.0 masked"}}],"uri":"/v1/search","args":"query=Aloe%20Extract","httpVersion":"HTTP/1.1","httpMethod":"OPTIONS","requestId":"MASKEDREQ="}},"labels":[{{"name":"awswaf:managed:aws:sql-database:SQLi_QueryArguments"}}]}}"#
    )
}

/// One API Gateway access-log line (custom JSON access format), masked.
fn apigw_record(status: u16) -> String {
    format!(
        r#"{{"request_id":"00000000-0000-0000-0000-000000000001","ip":"203.0.113.20","caller":"-","user":"-","request_time":"31/Aug/2026:00:00:05 +0000","http_method":"GET","resource_path":"/v1/items","path":"/v1/items?page=2","status":"{status}","protocol":"HTTP/1.1","response_length":"1392","integration_status":"{status}","integration_latency":"6","user_agent":"okhttp/4.12.0","api_id":"masked0api","stage":"prd"}}"#
    )
}

/// One nginx access record as exported from Elasticsearch, masked.
fn nginx_record(status: u16) -> String {
    format!(
        r#"{{"_index":"nginx-2026.08.31","_id":"masked","_source":{{"@timestamp":"2026-08-31T06:24:00.004Z","event":{{"dataset":"nginx.access"}},"service":{{"name":"masked-api","environment":"prd"}},"trace":{{"id":"01e9cd8ae5dc209ed181ceaa7f141a39"}},"birdview":{{"request_method":"GET","status":"{status}","client_ip":"203.0.113.30","remote_addr":"10.0.0.9","host":"api.example.test","request_uri":"/v1/products/1","http_user_agent":"node","http_referer":"-","server_protocol":"HTTP/1.1","bytes_sent":48183,"body_bytes_sent":47732,"request_time":0.096,"upstream_response_time":0.096}}}}}}"#
    )
}

fn alb_record(client: &str, request: &str, status: u16, error_reason: &str) -> String {
    format!(
        "h2 2026-08-18T23:50:00.405248Z app/masked-alb/0123456789abcdef \
         {client} 10.0.0.10:8080 0.002 0.003 0.000 {status} 200 42 1150 \
         \"{request}\" \"Masked Agent/1.0 with spaces\" \
         TLS_AES_128_GCM_SHA256 TLSv1.3 \
         arn:aws:elasticloadbalancing:ap-northeast-2:000000000000:\
         targetgroup/masked/0123456789abcdef \
         \"Root=1-masked\" \"example.test\" \"session-reused\" 1 \
         2026-08-18T23:50:00.399000Z \"waf,forward\" \"-\" \
         \"{error_reason}\" \"10.0.0.10:8080\" \"200\" \"-\" \"-\" \
         \"masked-connection\" \"-\" \"-\" \"-\" \"future-field\"\n"
    )
}

/// What a run left behind.
struct Run {
    outcome: Outcome,
    marks: Vec<FileMark>,
    events: Vec<(String, NormalizedEvent)>,
    keys: TypeCounters,
    progress: Vec<(usize, usize, u64)>,
}

/// The `Records` of every document in a text, and the fault it ends with.
fn records(text: &str) -> (Vec<Json>, Option<String>) {
    let mut found = Vec::new();
    for document in serde_json::Deserializer::from_str(text).into_iter::<serde_json::Value>() {
        match document {
            Ok(value) => {
                if let Some(items) = value.get("Records").and_then(|r| r.as_array()) {
                    found.extend(items.iter().map(|item| json::parse(&item.to_string()).unwrap()));
                }
            }
            Err(e) => return (found, Some(redact(&e.to_string()))),
        }
    }
    (found, None)
}

fn parse_file(
    bytes: &[u8],
    file_id: u32,
    kind: Plan,
    log_type: awslog_core::detect::LogType,
    options: &ParseOptions,
    mut emit: impl FnMut(Vec<NormalizedEvent>),
) -> Option<Result<ParsedFile, String>> {
    let mut decoded = Vec::new();
    let fault = MultiGzDecoder::new(bytes).read_to_end(&mut decoded).err();
    let text = String::from_utf8(decoded).unwrap();
    match kind {
        Plan::Skip => None,
        Plan::Fail(note) => Some(Err(note)),
        Plan::Ignore => Some(Ok(ParsedFile { count: 0, malformed: 0 })),
        Plan::Lines => {
            let mut file = LineFile::new(log_type, file_id, options.keep_raw);
            for line in text.lines() {
                file.accept(line);
                if file.pending().len() >= options.batch_size {
                    emit(file.drain());
                }
            }
            emit(file.drain());
            Some(file.finish())
        }
        Plan::Records => {
            let mut sink = RecordSink::new(file_id, options);
            let (found, damage) = records(&text);
            for record in &found {
                if let Some(batch) = sink.push(record) {
                    emit(batch);
                }
            }
            if let Some(batch) = sink.flush() {
                emit(batch);
            }
            let damage = damage.or(fault.map(|e| redact(&e.to_string())));
            Some(sink.finish(damage).map(|count| ParsedFile { count, malformed: 0 }))
        }
    }
}

/// Parses files held in memory; `stop_after` files a cancel arrives.
fn run_until(files: &[(&str, Vec<u8>)], options: &ParseOptions, stop_after: usize) -> Run {
    let displays: Vec<String> = files.iter().map(|(name, _)| (*name).to_owned()).collect();
    let chosen = chosen_files(&displays, &options.selected);
    let mut jobs = Vec::new();
    let mut events: Vec<(String, NormalizedEvent)> = Vec::new();
    let mut keys = TypeCounters::new();
    let mut progress = Vec::new();
    let mut done = 0;
    for file_id in &chosen {
        let (name, bytes) = &files[*file_id as usize];
        let (log_type, error) = registered(Ok(detect(name, bytes).log_type));
        let kind = plan(done >= stop_after, error, log_type);
        let mut counter = KeyCounter::new();
        let parsed = parse_file(bytes, *file_id, kind, log_type, options, |batch| {
            counter.record_batch(&batch);
            for event in batch {
                events.push((log_type.as_str().to_owned(), event));
            }
            progress.push((done, chosen.len(), events.len() as u64));
        });
        keys.merge(log_type, counter);
        done += 1;
        progress.push((done, chosen.len(), events.len() as u64));
        jobs.push(JobResult { file_id: *file_id, display: (*name).to_owned(), parsed });
    }
    let (outcome, marks) = tally(&jobs, stop_after < chosen.len());
    Run { outcome, marks, events, keys, progress }
}

fn run(files: &[(&str, Vec<u8>)], options: &ParseOptions) -> Run {
    run_until(files, options, usize::MAX)
}

fn only(names: &[&str]) -> ParseOptions {
    ParseOptions {
        selected: Some(names.iter().map(|n| (*n).to_owned()).collect()),
        ..Default::default()
    }
}

fn member<'a>(value: &'a Json, path: &str) -> Option<&'a Json> {
    awslog_core::mapping::resolve(value, path)
}

fn text_at(document: &Option<String>, path: &str) -> Option<String> {
    let value = json::parse(document.as_deref().unwrap()).unwrap();
    member(&value, path).and_then(|v| v.as_str()).map(str::to_owned)
}

fn shown_at(document: &Option<String>, path: &str) -> Option<String> {
    let value = json::parse(document.as_deref().unwrap()).unwrap();
    member(&value, path).map(json::to_text)
}

#[test]
fn parses_every_record_into_the_store() {
    let json = cloudtrail_json(
        &(0..300).map(|_| cloudtrail_record("ConsoleLogin")).collect::<Vec<_>>(),
    );
    let run = run(&[("a.json.gz", gzip(json.as_bytes()))], &ParseOptions::default());

    assert_eq!(run.outcome.records_parsed, 300);
    assert_eq!(run.events.len(), 300);
    // Records are numbered in the order they stand in the file.
    assert!(run.events.iter().enumerate().all(|(i, (_, e))| e.record_index == i as u64));
}

#[test]
fn normalizes_cloudtrail_fields_onto_the_rule_facing_names() {
    let json = cloudtrail_json(&[cloudtrail_record("ConsoleLogin")]);
    let run = run(&[("a.json.gz", gzip(json.as_bytes()))], &ParseOptions::default());

    let row = &run.events[0].1;
    assert_eq!(row.event_name.as_deref(), Some("ConsoleLogin"));
    assert_eq!(row.identity_arn.as_deref(), Some("arn:aws:iam::000000000000:user/masked"));
    assert_eq!(row.response.as_deref(), Some(r#"{"ConsoleLogin":"Failure"}"#));
    assert_eq!(row.read_only, Some(false));
    assert_eq!(row.event_time.unwrap().unix_micros(), Some(1_789_092_184_000_000));
}

#[test]
fn reads_all_members_of_a_concatenated_gzip() {
    let a = cloudtrail_json(&[cloudtrail_record("ConsoleLogin")]);
    let b = cloudtrail_json(&[
        cloudtrail_record("AssumeRole"),
        cloudtrail_record("GetCallerIdentity"),
    ]);
    let run = run(
        &[("m.json.gz", gzip_multi_member(&[a.as_bytes(), b.as_bytes()]))],
        &ParseOptions::default(),
    );

    assert_eq!(run.outcome.records_parsed, 3);
}

#[test]
fn a_damaged_file_is_reported_but_the_rest_still_parse() {
    let good = cloudtrail_json(&[cloudtrail_record("ConsoleLogin")]);
    let run = run(
        &[("good.json.gz", gzip(good.as_bytes())), ("bad.json.gz", b"not gzip".to_vec())],
        &ParseOptions::default(),
    );

    assert_eq!(run.outcome.records_parsed, 1);
    assert_eq!(run.outcome.files_failed, 1);
    assert_eq!(run.outcome.files_parsed, 1);
    assert_eq!(run.marks[0].status, FileStatus::Parsed);
    assert_eq!(run.marks[1].status, FileStatus::Failed);
}

#[test]
fn progress_reports_reach_the_caller_during_the_run() {
    let json = cloudtrail_json(
        &(0..50).map(|_| cloudtrail_record("ConsoleLogin")).collect::<Vec<_>>(),
    );
    let run = run(
        &[("a.json.gz", gzip(json.as_bytes())), ("b.json.gz", gzip(json.as_bytes()))],
        &ParseOptions::default(),
    );

    assert_eq!(run.progress.last(), Some(&(2, 2, 100)));
}

#[test]
fn record_progress_advances_before_a_large_file_finishes() {
    let records = (0..25)
        .map(|_| {
            alb_record(
                "198.51.100.20:12345",
                "GET https://example.test/health HTTP/1.1",
                200,
                "-",
            )
        })
        .collect::<String>();
    let options = ParseOptions { batch_size: 10, ..Default::default() };

    let run = run(&[("large.log.gz", gzip(records.as_bytes()))], &options);

    assert!(
        run.progress.iter().any(|(done, _, records)| *done == 0 && *records >= 10),
        "records must advance while the file is still active"
    );
}

#[test]
fn cancelling_stops_early_and_keeps_partial_results() {
    let json = cloudtrail_json(
        &(0..100).map(|_| cloudtrail_record("ConsoleLogin")).collect::<Vec<_>>(),
    );
    let names: Vec<_> = (0..8).map(|i| format!("f{i}.json.gz")).collect();
    let files: Vec<_> = names.iter().map(|n| (n.as_str(), gzip(json.as_bytes()))).collect();

    // Cancel as soon as the first file is done.
    let run = run_until(&files, &ParseOptions::default(), 1);

    assert!(run.outcome.cancelled);
    assert!(run.outcome.files_parsed < 8, "stopped early");
    assert!(!run.events.is_empty(), "partial results kept");
    assert_eq!(run.outcome.files_parsed + run.outcome.files_skipped, 8);
    assert_eq!(run.marks[7].note.as_deref(), Some("cancelled before parse"));
}

#[test]
fn non_cloudtrail_file_is_skipped_without_failing_the_run() {
    let run = run(
        &[("other.json.gz", gzip(br#"{"hello":"world"}"#))],
        &ParseOptions::default(),
    );

    assert_eq!(run.outcome.records_parsed, 0);
    assert_eq!(run.outcome.files_skipped, 1);
    assert_eq!(run.outcome.files_failed, 0);
    assert_eq!(run.marks[0].note.as_deref(), Some("no supported log records"));
}

#[test]
fn parses_alb_access_log_into_rule_facing_fields() {
    let line = alb_record(
        "[2001:db8::10]:443",
        "GET https://example.test/admin?mode=full HTTP/2.0",
        502,
        "Target.ResponseCodeMismatch",
    );
    let run = run(&[("alb.log.gz", gzip(line.as_bytes()))], &ParseOptions::default());

    assert_eq!(run.outcome.records_parsed, 1);
    assert_eq!(run.outcome.files_parsed, 1);
    let event = &run.events[0].1;
    assert_eq!(event.event_name.as_deref(), Some("GET"));
    assert_eq!(event.event_source.as_deref(), Some("elasticloadbalancing.amazonaws.com"));
    assert_eq!(event.aws_region.as_deref(), Some("ap-northeast-2"));
    assert_eq!(event.account_id.as_deref(), Some("000000000000"));
    assert_eq!(event.source_ip.as_deref(), Some("2001:db8::10"));
    assert_eq!(event.user_agent.as_deref(), Some("Masked Agent/1.0 with spaces"));
    assert_eq!(event.error_code.as_deref(), Some("HTTP 502"));
    assert_eq!(event.error_message.as_deref(), Some("Target.ResponseCodeMismatch"));
    assert_eq!(event.read_only, Some(true));

    assert_eq!(
        text_at(&event.request, "url").as_deref(),
        Some("https://example.test/admin?mode=full")
    );
    assert_eq!(text_at(&event.request, "protocol").as_deref(), Some("HTTP/2.0"));
    assert_eq!(shown_at(&event.response, "elb_status_code").as_deref(), Some("502"));
    assert_eq!(shown_at(&event.response, "sent_bytes").as_deref(), Some("1150"));
    assert_eq!(shown_at(&event.response, "target_processing_time").as_deref(), Some("0.003"));
    assert!(json::parse(event.raw.as_deref().unwrap()).is_some());
}

#[test]
fn malformed_alb_lines_do_not_discard_valid_records() {
    let contents = format!(
        "not an ALB record\n{}broken second record\n",
        alb_record(
            "203.0.113.10:443",
            "POST https://example.test/login HTTP/1.1",
            403,
            "-"
        )
    );
    let run = run(&[("alb.log.gz", gzip(contents.as_bytes()))], &ParseOptions::default());

    assert_eq!(run.outcome.records_parsed, 1);
    assert_eq!(run.outcome.files_parsed, 1);
    assert_eq!(run.outcome.files_failed, 0);
    assert_eq!(run.outcome.failures.len(), 1);
    assert!(run.outcome.failures[0].reason.contains("2 malformed"));
    // The malformed line keeps its number: indexes have holes.
    assert_eq!(run.events[0].1.record_index, 1);
}

#[test]
fn routes_cloudtrail_and_alb_files_through_their_own_parsers() {
    let cloudtrail = cloudtrail_json(&[cloudtrail_record("ConsoleLogin")]);
    let alb = alb_record(
        "198.51.100.20:12345",
        "GET https://example.test/health HTTP/1.1",
        200,
        "-",
    );
    let run = run(
        &[
            ("alb.log.gz", gzip(alb.as_bytes())),
            ("trail.json.gz", gzip(cloudtrail.as_bytes())),
        ],
        &ParseOptions::default(),
    );

    assert_eq!(run.outcome.records_parsed, 2);
    assert_eq!(run.outcome.files_parsed, 2);
    let sources: Vec<_> =
        run.events.iter().filter_map(|(_, e)| e.event_source.as_deref()).collect();
    assert_eq!(sources, ["elasticloadbalancing.amazonaws.com", "signin.amazonaws.com"]);
    let log_types: Vec<_> = run.events.iter().map(|(t, _)| t.as_str()).collect();
    assert_eq!(log_types, ["alb_access", "cloudtrail"]);
}

#[test]
fn failure_reasons_are_returned_for_the_warning_log() {
    let run = run(&[("bad.json.gz", b"not gzip".to_vec())], &ParseOptions::default());

    assert_eq!(run.outcome.failures.len(), 1);
    let failure = &run.outcome.failures[0];
    assert_eq!(failure.display_path, "bad.json.gz");
    assert!(!failure.reason.is_empty());
    // The reason must not carry record content.
    assert!(!failure.reason.contains('{'));
}

#[test]
fn console_login_mfa_comes_from_additional_event_data() {
    // Real ConsoleLogin records report MFA in additionalEventData.MFAUsed,
    // not in userIdentity.sessionContext (that is for assumed-role sessions).
    let record = r#"{
        "eventVersion": "1.08",
        "eventTime": "2026-09-11T02:03:04Z",
        "eventSource": "signin.amazonaws.com",
        "eventName": "ConsoleLogin",
        "userIdentity": { "type": "Root" },
        "additionalEventData": { "MFAUsed": "No" }
    }"#;
    let json = format!(r#"{{"Records":[{record}]}}"#);
    let run = run(&[("a.json.gz", gzip(json.as_bytes()))], &ParseOptions::default());

    assert_eq!(run.events[0].1.mfa_authenticated, Some(false));
}

#[test]
fn parses_only_the_selected_files() {
    let json = cloudtrail_json(&[cloudtrail_record("ConsoleLogin")]);
    let run = run(
        &[("drop.json.gz", gzip(json.as_bytes())), ("keep.json.gz", gzip(json.as_bytes()))],
        &only(&["keep.json.gz"]),
    );

    // Deselected files are not opened and not registered, so they cannot
    // show up later as "skipped" noise in the case database.
    assert_eq!(run.outcome.files_parsed, 1);
    assert_eq!(run.outcome.files_skipped, 0);
    assert_eq!(run.outcome.records_parsed, 1);
    assert_eq!(run.events.len(), 1);
    assert_eq!(run.marks[0].file_id, 1, "file ids count every candidate");
}

#[test]
fn progress_total_counts_only_selected_files() {
    let json = cloudtrail_json(&[cloudtrail_record("ConsoleLogin")]);
    let run = run(
        &[
            ("a.json.gz", gzip(json.as_bytes())),
            ("b.json.gz", gzip(json.as_bytes())),
            ("c.json.gz", gzip(json.as_bytes())),
        ],
        &only(&["a.json.gz", "c.json.gz"]),
    );

    // Batch heartbeats may repeat a file count, but deselected files must
    // never enter the total and the final update must still reach it.
    assert!(run.progress.iter().all(|(done, total, _)| *total == 2 && *done <= 2));
    assert_eq!(run.progress.last(), Some(&(2, 2, 2)));
}

#[test]
fn empty_selection_parses_nothing() {
    let json = cloudtrail_json(&[cloudtrail_record("ConsoleLogin")]);
    let run = run(&[("a.json.gz", gzip(json.as_bytes()))], &only(&[]));

    assert_eq!(run.outcome.files_parsed, 0);
    assert!(run.events.is_empty());
}

#[test]
fn selection_keys_match_the_display_paths_the_ui_receives() {
    let path = |text: &str| FilePath { parts: text.split('/').map(str::to_owned).collect() };
    let root = path("/logs");
    let displays: Vec<String> = [
        "/logs/AWSLogs/111/CloudTrail/ap-northeast-2/drop.json.gz",
        "/logs/AWSLogs/111/CloudTrail/ap-northeast-2/keep.json.gz",
    ]
    .iter()
    .map(|file| relative(&root, &path(file)))
    .collect();

    // Take the key straight from what the UI is handed.
    let keep = displays.iter().find(|d| d.ends_with("keep.json.gz")).unwrap().clone();
    assert!(keep.contains('/'), "nested fixture must exercise a subdirectory");

    assert_eq!(chosen_files(&displays, &Some(vec![keep])), [1]);
}

#[test]
fn ndjson_producers_normalize_onto_shared_http_columns() {
    let waf = format!(
        "{}\n{}\nnot json\n",
        waf_record("BLOCK", "AWS-AWSManagedRulesSQLiRuleSet"),
        waf_record("ALLOW", "Default_Action")
    );
    let run = run(
        &[
            ("apigw.ndjson.gz", gzip(apigw_record(502).as_bytes())),
            ("nginx.ndjson.gz", gzip(nginx_record(404).as_bytes())),
            ("waf.log.gz", gzip(waf.as_bytes())),
        ],
        &ParseOptions::default(),
    );

    assert_eq!(run.outcome.files_parsed, 3);
    assert_eq!(run.outcome.records_parsed, 4);
    let by_source = |src: &str| {
        run.events
            .iter()
            .map(|(_, e)| e)
            .filter(|e| e.event_source.as_deref() == Some(src))
            .collect::<Vec<_>>()
    };

    let waf = by_source("wafv2.amazonaws.com");
    assert_eq!(waf.len(), 2, "malformed line is skipped, not fatal");
    let blocked = waf.iter().find(|e| e.event_name.as_deref() == Some("BLOCK")).unwrap();
    assert_eq!(blocked.source_ip.as_deref(), Some("203.0.113.10"));
    assert_eq!(blocked.aws_region.as_deref(), Some("ap-northeast-2"));
    assert_eq!(blocked.account_id.as_deref(), Some("000000000000"));
    assert_eq!(blocked.error_code.as_deref(), Some("AWS-AWSManagedRulesSQLiRuleSet"));
    let allowed = waf.iter().find(|e| e.event_name.as_deref() == Some("ALLOW")).unwrap();
    assert!(allowed.error_code.is_none(), "only a block is an error");
    assert_eq!(
        text_at(&blocked.request, "url").as_deref(),
        Some("/v1/search?query=Aloe%20Extract")
    );
    assert_eq!(text_at(&blocked.request, "country").as_deref(), Some("KR"));
    // Epoch milliseconds.
    assert_eq!(blocked.event_time.unwrap().unix_micros(), Some(1_788_146_539_583_000));

    let apigw = by_source("apigateway.amazonaws.com")[0];
    assert_eq!(apigw.event_name.as_deref(), Some("GET"));
    assert_eq!(apigw.error_code.as_deref(), Some("HTTP 502"));
    assert_eq!(
        shown_at(&apigw.response, "status").as_deref(),
        Some("502"),
        "string status becomes a number"
    );
    // 31/Aug/2026:00:00:05 +0000.
    assert_eq!(apigw.event_time.unwrap().unix_micros(), Some(1_788_134_405_000_000));

    let nginx = by_source("nginx")[0];
    assert_eq!(nginx.error_code.as_deref(), Some("HTTP 404"));
    assert_eq!(nginx.source_ip.as_deref(), Some("203.0.113.30"));
    assert_eq!(
        text_at(&nginx.request, "url").as_deref(),
        Some("api.example.test/v1/products/1")
    );
    assert_eq!(nginx.event_time.unwrap().unix_micros(), Some(1_788_157_440_004_000));
}

#[test]
fn every_payload_path_seen_while_parsing_is_recorded_per_log_type() {
    // Nothing is declared up front: whatever the producers put inside
    // requestParameters / responseElements / resources (or the HTTP
    // request/response objects) becomes a known path the rule editor can
    // offer, with how many events carried it.
    let run = run(
        &[
            (
                "alb.log.gz",
                gzip(alb_record("203.0.113.5:1", "GET https://x/ HTTP/1.1", 503, "-").as_bytes()),
            ),
            (
                "trail.json.gz",
                gzip(
                    cloudtrail_json(&[
                        cloudtrail_record("ConsoleLogin"),
                        cloudtrail_record("ConsoleLogin"),
                    ])
                    .as_bytes(),
                ),
            ),
            ("waf.log.gz", gzip(waf_record("BLOCK", "rule").as_bytes())),
        ],
        &ParseOptions::default(),
    );

    let rows = run.keys.rows();
    let keys = |log_type: &str| -> Vec<(&str, u64)> {
        rows.iter()
            .filter(|row| row.log_type.as_str() == log_type)
            .map(|row| (row.path.as_str(), row.events))
            .collect()
    };
    assert_eq!(keys("cloudtrail"), [("response.ConsoleLogin", 2)]);
    let waf = keys("waf_acl");
    assert!(waf.contains(&("request.country", 1)));
    assert!(waf.iter().any(|(path, _)| *path == "response.match_details.0.location"));
    assert!(keys("alb_access").iter().any(|(path, _)| *path == "response.elb_status_code"));
}

#[test]
fn a_file_of_nothing_but_malformed_lines_fails() {
    let mut file = LineFile::new(awslog_core::detect::LogType::AlbAccess, 3, true);
    file.accept("not an ALB record");
    file.accept("");
    file.accept("neither is this");
    assert!(file.drain().is_empty());
    assert_eq!(
        file.finish().unwrap_err(),
        "no valid ALB records; 2 malformed records"
    );
}

#[test]
fn damage_after_usable_records_is_not_fatal() {
    let options = ParseOptions::default();
    let mut sink = RecordSink::new(0, &options);
    assert_eq!(sink.finish(Some("broken".to_owned())), Err("broken".to_owned()));
    let record = json::parse(&cloudtrail_record("ConsoleLogin")).unwrap();
    assert!(sink.push(&record).is_none());
    assert_eq!(sink.finish(Some("broken".to_owned())), Ok(1));
    assert_eq!(sink.flush().map(|batch| batch.len()), Some(1));
}

#[test]
fn detection_faults_are_redacted_before_they_are_kept() {
    let (log_type, note) = registered(Err("cannot read {\"arn\":\"x\"}".to_owned()));
    assert_eq!(log_type.as_str(), "unknown");
    assert_eq!(note.as_deref(), Some("cannot read (details omitted)"));
    assert!(matches!(plan(false, note, log_type), Plan::Fail(_)));
}

#[test]
fn files_are_dealt_out_in_turn_to_two_to_four_workers() {
    assert_eq!(worker_count(Some(1)), 2);
    assert_eq!(worker_count(Some(3)), 3);
    assert_eq!(worker_count(Some(64)), 4);
    assert_eq!(worker_count(None), 2);
    assert_eq!(buckets(5, 2), [vec![0, 2, 4], vec![1, 3]]);
    assert_eq!(FileStatus::Parsed.as_str(), "parsed");
    assert_eq!(FileStatus::Skipped.as_str(), "skipped");
    assert_eq!(FileStatus::Failed.as_str(), "failed");
}

/// A rule with this one field condition matches.
fn fires(event: &NormalizedEvent, condition: &str) -> bool {
    let source = format!("rule probe {{ fields: $a = {condition} condition: $a }}");
    evaluate(&parse_rules(&source).unwrap()[0], event).is_some()
}

#[test]
fn rules_find_what_an_alb_line_says() {
    let line = alb_record("203.0.113.5:1", "GET https://x/a?q=\\x22 HTTP/1.1", 503, "-");
    let run = run(&[("alb.log.gz", gzip(line.as_bytes()))], &ParseOptions::default());
    let event = &run.events[0].1;
    assert!(fires(event, r#"request.url == "https://x/a?q=\\x22""#));
    assert!(fires(event, r#"request.domain_name == "example.test""#));
    assert!(fires(event, "request.redirect_url missing"));
    assert!(fires(event, "response.elb_status_code == 503"));
    assert!(fires(event, "response.target_processing_time > 0.002"));
    assert!(fires(event, "response.error_reason missing"));
    assert!(fires(event, r#"resources.load_balancer == "app/masked-alb/0123456789abcdef""#));
    assert!(fires(event, r#"raw.log_type == "alb_access""#));
}

#[test]
fn rules_find_what_a_json_line_says() {
    let waf = run(&[("waf.gz", gzip(waf_record("BLOCK", "masked").as_bytes()))], &ParseOptions::default());
    let event = &waf.events[0].1;
    assert!(fires(event, r#"request.url == "/v1/search?query=Aloe%20Extract""#));
    assert!(fires(event, r#"request.country == "KR""#));
    assert!(fires(event, "request.referer missing"));
    assert!(fires(event, r#"response.terminating_rule_id == "masked""#));
    assert!(fires(event, r#"response.match_details.0.location == "ALL_QUERY_ARGS""#));
    assert!(fires(event, "response.response_code_sent missing"));
    assert!(fires(event, r#"resources.host == "api.example.test""#));

    let nginx = run(&[("nginx.gz", gzip(nginx_record(404).as_bytes()))], &ParseOptions::default());
    let event = &nginx.events[0].1;
    assert!(fires(event, "response.status == 404"));
    assert!(fires(event, "response.bytes_sent == 48183"));
    assert!(fires(event, r#"resources.service == "masked-api""#));
}

#[test]
fn rules_find_what_a_record_has() {
    let record = cloudtrail_record("ConsoleLogin").replace(
        "\"readOnly\": false",
        r#""requestParameters": {"a": {"b": ["x", {"c": 7}]}, "n": null, "on": true},
           "resources": [{"ARN": "arn:masked"}], "readOnly": false"#,
    );
    let file = cloudtrail_json(&[record]);
    let run = run(&[("trail.json.gz", gzip(file.as_bytes()))], &ParseOptions::default());
    let event = &run.events[0].1;
    assert!(fires(event, r#"request.a.b.0 == "x""#));
    assert!(fires(event, "request.a.b.1.c == 7"));
    assert!(fires(event, "request.on == true"));
    assert!(fires(event, "request.n missing"));
    assert!(fires(event, "request.a.z missing"));
    assert!(fires(event, r#"response.ConsoleLogin == "Failure""#));
    assert!(fires(event, r#"resources.0.ARN == "arn:masked""#));
    assert!(fires(event, r#"raw.userIdentity.userName == "masked""#));
}
