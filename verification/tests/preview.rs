//! Pre-parse format preview: the head of one file broken into pieces with
//! the meaning each piece feeds, plus what the head holds.

use std::io::Write;

use awslog_core::detect::{DetectError, LogType};
use awslog_core::mapping::{Field, FieldMap};
use awslog_core::preview::{preview_decoded, preview_head, HeadPreview};
use flate2::write::GzEncoder;
use flate2::Compression;

fn gzip(bytes: &[u8]) -> Vec<u8> {
    let mut enc = GzEncoder::new(Vec::new(), Compression::fast());
    enc.write_all(bytes).unwrap();
    enc.finish().unwrap()
}

/// Minimal CloudTrail record with masked identifiers.
fn cloudtrail_record(event_name: &str) -> String {
    format!(
        r#"{{
            "eventVersion": "1.08",
            "eventTime": "2026-09-11T02:03:04Z",
            "eventSource": "signin.amazonaws.com",
            "eventName": "{event_name}",
            "awsRegion": "ap-northeast-2",
            "sourceIPAddress": "203.0.113.10",
            "userAgent": "Mozilla/5.0",
            "recipientAccountId": "000000000000",
            "userIdentity": {{
                "type": "IAMUser",
                "arn": "arn:aws:iam::000000000000:user/masked",
                "userName": "masked"
            }},
            "responseElements": {{"ConsoleLogin": "Failure"}},
            "readOnly": false,
            "managementEvent": true
        }}"#
    )
}

fn cloudtrail_json(records: &[String]) -> String {
    format!(r#"{{"Records":[{}]}}"#, records.join(","))
}

/// One WAF v2 log line, masked. `action`/`rule` shape the block case.
fn waf_record(action: &str, rule: &str) -> String {
    format!(
        r#"{{"timestamp":1788146539583,"formatVersion":1,"webaclId":"arn:aws:wafv2:ap-northeast-2:000000000000:regional/webacl/masked-acl/00000000-0000-0000-0000-000000000000","terminatingRuleId":"{rule}","terminatingRuleType":"MANAGED_RULE_GROUP","action":"{action}","terminatingRuleMatchDetails":[{{"conditionType":"SQL_INJECTION","location":"ALL_QUERY_ARGS","matchedData":["Aloe","Extract"],"matchedFieldName":"query"}}],"httpSourceName":"APIGW","httpSourceId":"000000000000:masked:prd","ruleGroupList":[],"rateBasedRuleList":[],"nonTerminatingMatchingRules":[],"requestHeadersInserted":null,"responseCodeSent":null,"httpRequest":{{"clientIp":"203.0.113.10","country":"KR","headers":[{{"name":"host","value":"api.example.test"}},{{"name":"user-agent","value":"Mozilla/5.0 masked"}}],"uri":"/v1/search","args":"query=Aloe%20Extract","httpVersion":"HTTP/1.1","httpMethod":"OPTIONS","requestId":"MASKEDREQ="}},"labels":[{{"name":"awswaf:managed:aws:sql-database:SQLi_QueryArguments"}}]}}"#
    )
}

fn cloudtrail_file(records: &[String]) -> Vec<u8> {
    gzip(cloudtrail_json(records).as_bytes())
}

fn piece<'a>(preview: &'a HeadPreview, path: &str) -> &'a awslog_core::preview::Piece {
    preview
        .pieces
        .iter()
        .find(|p| p.path == path)
        .unwrap_or_else(|| panic!("no piece {path}"))
}

#[test]
fn a_cloudtrail_head_is_summarized_and_its_first_record_labelled() {
    let mut put = cloudtrail_record("PutObject");
    put = put.replace(
        r#""responseElements": {"ConsoleLogin": "Failure"},"#,
        r#""requestParameters": {"bucketName": "img", "tagging": {"tagSet": [{"key": "k"}]}},
            "responseElements": {"x-amz-server-side-encryption": "AES256"},"#,
    );
    // One record without an event name: counted, not "parsed".
    let nameless = cloudtrail_record("GetObject").replace(r#""eventName": "GetObject","#, "");
    let head = cloudtrail_file(&[
        put,
        cloudtrail_record("PutObject"),
        cloudtrail_record("GetObject"),
        nameless,
    ]);

    let preview = preview_head("logs/head.gz", &head, LogType::CloudTrail, &FieldMap::cloudtrail()).unwrap();

    assert_eq!(preview.records, 4);
    assert_eq!(preview.mapped, 3);
    assert!(preview.editable, "CloudTrail paths can be re-labelled");
    let names: Vec<_> = preview
        .event_names
        .iter()
        .map(|n| (n.name.as_str(), n.count))
        .collect();
    assert_eq!(names, [("PutObject", 2), ("GetObject", 1)]);

    // Built-in columns are named after the field they feed; payload keys
    // after the rule path; the rest feed nothing.
    let name = piece(&preview, "eventName");
    assert_eq!(name.value, "PutObject");
    assert_eq!(name.field.as_deref(), Some("event_name"));
    assert_eq!(name.label.as_deref(), Some(Field::EventName.label()));
    let bucket = piece(&preview, "requestParameters.bucketName");
    assert_eq!(bucket.field.as_deref(), Some("request.bucketName"));
    assert_eq!(bucket.label.as_deref(), Some("request.bucketName"));
    assert_eq!(
        piece(&preview, "requestParameters.tagging.tagSet.0.key")
            .field
            .as_deref(),
        Some("request.tagging.tagSet.0.key")
    );
    assert_eq!(
        piece(&preview, "responseElements.x-amz-server-side-encryption")
            .field
            .as_deref(),
        Some("response.x-amz-server-side-encryption")
    );
    assert_eq!(piece(&preview, "eventVersion").field, None);
    // Paths across the head, with how many records had them; the ones the
    // first record lacks are what the UI folds under "그 외".
    let console = preview
        .paths
        .iter()
        .find(|p| p.name == "responseElements.ConsoleLogin")
        .unwrap();
    assert_eq!(console.count, 3);
    assert!(preview
        .pieces
        .iter()
        .all(|p| p.path != "responseElements.ConsoleLogin"));
}

#[test]
fn a_relabelled_path_moves_the_label_and_the_parsed_count_follows() {
    let head = cloudtrail_file(&[cloudtrail_record("PutObject")]);
    let mut map = FieldMap::cloudtrail();
    // The analyst says "the event name is what `eventSource` holds".
    map.set(Field::EventName, vec!["eventSource".to_owned()]);

    let preview = preview_head("logs/head.gz", &head, LogType::CloudTrail, &map).unwrap();

    assert_eq!(
        piece(&preview, "eventSource").field.as_deref(),
        Some("event_name"),
        "the analyst's assignment wins over the default that also reads this path"
    );
    assert_eq!(piece(&preview, "eventName").field, None);
    assert_eq!(
        preview.event_names[0].name, "signin.amazonaws.com",
        "the histogram follows the mapping"
    );

    map.set(Field::EventName, Vec::new());
    let unmapped = preview_head("logs/head.gz", &head, LogType::CloudTrail, &map).unwrap();
    assert_eq!(unmapped.mapped, 0, "no event name means not parsed");
}

#[test]
fn ndjson_and_alb_heads_carry_fixed_labels() {
    let waf = gzip(
            format!(
                "{}\n{}\n{}\nnot json\n",
                waf_record("BLOCK", "r1"),
                waf_record("BLOCK", "r2"),
                waf_record("ALLOW", "Default")
            )
            .as_bytes(),
    );
    let preview = preview_head("logs/head.gz", &waf, LogType::WafAcl, &FieldMap::cloudtrail()).unwrap();
    assert_eq!(
        (preview.records, preview.mapped),
        (3, 3),
        "the bad line is not a record"
    );
    assert!(!preview.editable);
    assert_eq!(preview.event_names[0].name, "BLOCK");
    assert_eq!(
        piece(&preview, "httpRequest.clientIp").field.as_deref(),
        Some("source_ip")
    );
    assert_eq!(
        piece(&preview, "httpRequest.country").field.as_deref(),
        Some("request.country")
    );

    let alb = gzip(
            "h2 2026-08-18T23:50:00.405248Z app/masked-alb/0123456789abcdef 203.0.113.5:44 10.0.0.10:8080 0.002 0.003 0.000 503 200 42 1150 \"GET https://example.test/ HTTP/1.1\" \"Masked Agent/1.0\" TLS_AES_128_GCM_SHA256 TLSv1.3 arn:aws:elasticloadbalancing:ap-northeast-2:000000000000:targetgroup/masked/0123456789abcdef \"Root=1-masked\" \"example.test\" \"session-reused\" 1 2026-08-18T23:50:00.399000Z \"waf,forward\" \"-\" \"-\" \"10.0.0.10:8080\" \"200\" \"-\" \"-\"\ngarbage line\n"
            .as_bytes(),
    );
    let preview = preview_head("logs/head.gz", &alb, LogType::AlbAccess, &FieldMap::cloudtrail()).unwrap();
    assert_eq!((preview.records, preview.mapped), (2, 1));
    assert!(!preview.editable);
    assert_eq!(preview.event_names[0].name, "GET");
    // Positional tokens, spelled by position, labelled by the column they feed.
    assert_eq!(piece(&preview, "1").field.as_deref(), Some("event_time"));
    assert_eq!(piece(&preview, "3").field.as_deref(), Some("source_ip"));
    assert_eq!(
        piece(&preview, "8").field.as_deref(),
        Some("response.elb_status_code")
    );
    assert_eq!(
        piece(&preview, "12").value,
        "GET https://example.test/ HTTP/1.1"
    );
    assert_eq!(piece(&preview, "13").field.as_deref(), Some("user_agent"));
}

#[test]
fn a_head_cut_mid_record_keeps_the_complete_records() {
    // 256 KiB of head: only whole records count; a record cut in half is
    // neither a record nor an error.
    let big: Vec<_> = (0..3000).map(|_| cloudtrail_record("PutObject")).collect();
    let head = cloudtrail_file(&big);

    let preview = preview_head("logs/head.gz", &head, LogType::CloudTrail, &FieldMap::cloudtrail()).unwrap();

    assert_eq!(preview.records, 200, "capped at the head record limit");
    assert_eq!(preview.mapped, 200);
}

#[test]
fn an_unrecognised_file_shows_its_first_line_as_bare_tokens() {
    // A Linux syslog dropped into the folder: not parsed, but the analyst
    // can see what it is instead of only "no signature".
    let head = gzip(b"Sep 15 10:00:01 host sshd[1]: Accepted publickey for u\n\nSep 15 10:00:02 host cron[2]: job\n");

    let preview = preview_head("logs/head.gz", &head, LogType::Unknown, &FieldMap::cloudtrail()).unwrap();

    assert_eq!((preview.records, preview.mapped), (2, 0));
    assert!(!preview.editable);
    assert!(preview.event_names.is_empty());
    let tokens: Vec<_> = preview.pieces.iter().map(|p| p.value.as_str()).collect();
    assert_eq!(tokens[..4], ["Sep", "15", "10:00:01", "host"]);
    assert!(preview
        .pieces
        .iter()
        .all(|p| p.field.is_none() && p.label.is_none()));
}

#[test]
fn a_file_that_is_no_gzip_cannot_be_previewed() {
    let bytes = b"definitely not gzip".to_vec();
    let err = preview_head("logs/head.gz", &bytes, LogType::CloudTrail, &FieldMap::cloudtrail()).unwrap_err();
    let message = err.message();
    assert!(message.starts_with("cannot read logs/head.gz: "), "{message}");
    assert!(message.len() > "cannot read logs/head.gz: ".len());
}

#[test]
fn file_kinds_without_records_are_named_as_unsupported() {
    let head = gzip(br#"{"digestPublicKeyFingerprint":"aa"}"#);
    let err = preview_head("logs/head.gz", &head, LogType::CloudTrailDigest, &FieldMap::cloudtrail()).unwrap_err();
    assert!(err.message().contains("cloudtrail_digest"), "{}", err.message());
}

#[test]
fn counts_rank_by_frequency_and_then_by_name() {
    let names: Vec<String> = ["b", "a", "c", "b", "a", "b"].iter().map(|s| (*s).to_owned()).collect();
    let ranked = awslog_core::preview::histogram::histogram(&names);
    let ranked: Vec<_> = ranked.iter().map(|n| (n.name.as_str(), n.count)).collect();
    assert_eq!(ranked, [("b", 3), ("a", 2), ("c", 1)]);
}

#[test]
fn an_alb_line_without_a_request_is_read_but_not_mapped() {
    let alb = gzip(
        "h2 2026-08-18T23:50:00.405248Z app/masked-alb/0123456789abcdef 203.0.113.5:44 10.0.0.10:8080 0.002 0.003 0.000 503 200 42 1150 \"-\" \"Masked Agent/1.0\" TLS_AES_128_GCM_SHA256 TLSv1.3 arn:aws:elasticloadbalancing:ap-northeast-2:000000000000:targetgroup/masked/0123456789abcdef \"Root=1-masked\" \"example.test\" \"session-reused\" 1 2026-08-18T23:50:00.399000Z \"waf,forward\" \"-\" \"-\" \"10.0.0.10:8080\" \"200\" \"-\" \"-\"\n"
        .as_bytes(),
    );
    let preview = preview_head("logs/head.gz", &alb, LogType::AlbAccess, &FieldMap::default()).unwrap();
    assert_eq!((preview.records, preview.mapped), (1, 0));
    assert!(preview.event_names.is_empty());
}

#[test]
fn a_damaged_head_is_previewed_as_far_as_it_decodes() {
    // What decoded ahead of the damage is shown like any other head.
    let text = b"one two\nthree".to_vec();
    let map = FieldMap::cloudtrail();
    let cut = preview_decoded(Ok((text, true)), LogType::Unknown, &map).unwrap();
    assert_eq!(cut.records, 2);
    assert_eq!(cut.pieces[0].value, "one");

    let lost = DetectError::Io { path: "a.gz".to_owned(), reason: "broken".to_owned() };
    let err = preview_decoded(Err(lost), LogType::Unknown, &map).unwrap_err();
    assert_eq!(err.message(), "cannot read a.gz: broken");
}
