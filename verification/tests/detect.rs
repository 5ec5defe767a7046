//! Content-based AWS log detection.

use std::io::Write;

use awslog_core::detect::{self, Confidence, LogType};
use awslog_core::gzip::HEAD_LIMIT;
use flate2::write::GzEncoder;
use flate2::Compression;

fn gzip(bytes: &[u8]) -> Vec<u8> {
    let mut enc = GzEncoder::new(Vec::new(), Compression::fast());
    enc.write_all(bytes).unwrap();
    enc.finish().unwrap()
}

/// Two gzip members concatenated, as produced by some S3 export pipelines.
fn gzip_multi_member(parts: &[&[u8]]) -> Vec<u8> {
    parts.iter().flat_map(|p| gzip(p)).collect()
}

/// Minimal CloudTrail record with masked identifiers.
fn cloudtrail_record(event_name: &str) -> String {
    format!(
        r#"{{
            "eventVersion": "1.08",
            "eventTime": "2026-09-11T02:03:04Z",
            "eventSource": "signin.amazonaws.com",
            "eventName": "{event_name}",
            "awsRegion": "ap-northeast-2",
            "sourceIPAddress": "203.0.113.10",
            "userAgent": "Mozilla/5.0",
            "recipientAccountId": "000000000000",
            "userIdentity": {{
                "type": "IAMUser",
                "arn": "arn:aws:iam::000000000000:user/masked",
                "userName": "masked"
            }},
            "responseElements": {{"ConsoleLogin": "Failure"}},
            "readOnly": false,
            "managementEvent": true
        }}"#
    )
}

fn cloudtrail_json(records: &[String]) -> String {
    format!(r#"{{"Records":[{}]}}"#, records.join(","))
}

/// One WAF v2 log line, masked. `action`/`rule` shape the block case.
fn waf_record(action: &str, rule: &str) -> String {
    format!(
        r#"{{"timestamp":1788146539583,"formatVersion":1,"webaclId":"arn:aws:wafv2:ap-northeast-2:000000000000:regional/webacl/masked-acl/00000000-0000-0000-0000-000000000000","terminatingRuleId":"{rule}","terminatingRuleType":"MANAGED_RULE_GROUP","action":"{action}","terminatingRuleMatchDetails":[{{"conditionType":"SQL_INJECTION","location":"ALL_QUERY_ARGS","matchedData":["Aloe","Extract"],"matchedFieldName":"query"}}],"httpSourceName":"APIGW","httpSourceId":"000000000000:masked:prd","ruleGroupList":[],"rateBasedRuleList":[],"nonTerminatingMatchingRules":[],"requestHeadersInserted":null,"responseCodeSent":null,"httpRequest":{{"clientIp":"203.0.113.10","country":"KR","headers":[{{"name":"host","value":"api.example.test"}},{{"name":"user-agent","value":"Mozilla/5.0 masked"}}],"uri":"/v1/search","args":"query=Aloe%20Extract","httpVersion":"HTTP/1.1","httpMethod":"OPTIONS","requestId":"MASKEDREQ="}},"labels":[{{"name":"awswaf:managed:aws:sql-database:SQLi_QueryArguments"}}]}}"#
    )
}

/// One API Gateway access-log line (custom JSON access format), masked.
fn apigw_record(status: u16) -> String {
    format!(
        r#"{{"request_id":"00000000-0000-0000-0000-000000000001","ip":"203.0.113.20","caller":"-","user":"-","request_time":"31/Aug/2026:00:00:05 +0000","http_method":"GET","resource_path":"/v1/items","path":"/v1/items?page=2","status":"{status}","protocol":"HTTP/1.1","response_length":"1392","integration_status":"{status}","integration_latency":"6","user_agent":"okhttp/4.12.0","api_id":"masked0api","stage":"prd"}}"#
    )
}

/// One nginx access record as exported from Elasticsearch, masked.
fn nginx_record(status: u16) -> String {
    format!(
        r#"{{"_index":"nginx-2026.08.31","_id":"masked","_source":{{"@timestamp":"2026-08-31T06:24:00.004Z","event":{{"dataset":"nginx.access"}},"service":{{"name":"masked-api","environment":"prd"}},"trace":{{"id":"01e9cd8ae5dc209ed181ceaa7f141a39"}},"birdview":{{"request_method":"GET","status":"{status}","client_ip":"203.0.113.30","remote_addr":"10.0.0.9","host":"api.example.test","request_uri":"/v1/products/1","http_user_agent":"node","http_referer":"-","server_protocol":"HTTP/1.1","bytes_sent":48183,"body_bytes_sent":47732,"request_time":0.096,"upstream_response_time":0.096}}}}}}"#
    )
}

fn detect_bytes(name: &str, bytes: &[u8]) -> detect::Detection {
    detect::detect(name, &bytes.to_vec())
}

#[test]
fn recognizes_cloudtrail_and_extracts_one_sample_record() {
    let json = cloudtrail_json(&[cloudtrail_record("ConsoleLogin")]);
    let d = detect_bytes("a.json.gz", &gzip(json.as_bytes()));

    assert_eq!(d.log_type, LogType::CloudTrail);
    assert_eq!(d.confidence, Confidence::High);

    let sample = d.sample.expect("first record summary");
    assert_eq!(sample.event_name.as_deref(), Some("ConsoleLogin"));
    assert_eq!(sample.event_source.as_deref(), Some("signin.amazonaws.com"));
    assert_eq!(sample.aws_region.as_deref(), Some("ap-northeast-2"));
    assert_eq!(sample.user_identity_type.as_deref(), Some("IAMUser"));
    assert_eq!(sample.source_ip_address.as_deref(), Some("203.0.113.10"));
}

#[test]
fn recognizes_alb_access_log_by_decompressed_record_shape() {
    let line = "h2 2026-08-18T23:50:00.405248Z app/masked-alb/0123456789abcdef 203.0.113.10:39746 10.0.0.10:8080 0.002 0.003 0.000 200 200 42 1150 \"GET https://example.test/path HTTP/2.0\" \"masked-agent\" TLS_AES_128_GCM_SHA256 TLSv1.3 arn:aws:elasticloadbalancing:ap-northeast-2:000000000000:targetgroup/masked/0123456789abcdef \"Root=1-masked\" \"example.test\" \"session-reused\" 1 2026-08-18T23:50:00.399000Z \"waf,forward\" \"-\" \"-\" \"10.0.0.10:8080\" \"200\" \"-\" \"-\" \"masked\" \"-\" \"-\" \"-\" 198.51.100.20\n";

    let detection = detect_bytes("alb.log.gz", &gzip(line.as_bytes()));

    assert_eq!(detection.log_type, LogType::AlbAccess);
    assert_eq!(detection.confidence, Confidence::High);
    assert_eq!(detection.record_count_estimate, Some(1));
    let sample = detection.sample.expect("ALB sample");
    assert_eq!(
        sample.event_source.as_deref(),
        Some("elasticloadbalancing.amazonaws.com")
    );
    assert_eq!(sample.source_ip_address.as_deref(), Some("203.0.113.10"));
}

#[test]
fn reads_records_split_across_concatenated_gzip_members() {
    // Each member holds a complete JSON document; detection must decode past
    // the first member's trailer instead of stopping there.
    let first = cloudtrail_json(&[cloudtrail_record("ConsoleLogin")]);
    let second = cloudtrail_json(&[cloudtrail_record("AssumeRole")]);
    let bytes = gzip_multi_member(&[first.as_bytes(), second.as_bytes()]);

    let d = detect_bytes("multi.json.gz", &bytes);

    assert_eq!(d.log_type, LogType::CloudTrail);
    assert_eq!(d.members_in_head, 2);
}

#[test]
fn json_gz_that_is_not_cloudtrail_is_unknown() {
    let d = detect_bytes("other.json.gz", &gzip(br#"{"hello":"world"}"#));

    assert_eq!(d.log_type, LogType::Unknown);
    assert_eq!(d.confidence, Confidence::Nil);
    assert!(d.sample.is_none());
}

#[test]
fn records_present_but_missing_required_keys_is_low_confidence() {
    let json = r#"{"Records":[{"eventVersion":"1.08"}]}"#;
    let d = detect_bytes("partial.json.gz", &gzip(json.as_bytes()));

    assert_eq!(d.log_type, LogType::CloudTrail);
    assert_eq!(d.confidence, Confidence::Low);
}

#[test]
fn empty_records_array_is_cloudtrail_without_a_sample() {
    let d = detect_bytes("empty.json.gz", &gzip(br#"{"Records":[]}"#));

    assert_eq!(d.log_type, LogType::CloudTrail);
    assert!(d.sample.is_none());
}

#[test]
fn cloudtrail_digest_is_distinguished_from_event_logs() {
    let json = r#"{"digestPublicKeyFingerprint":"aa","logFiles":[]}"#;
    let d = detect_bytes("digest.json.gz", &gzip(json.as_bytes()));

    assert_eq!(d.log_type, LogType::CloudTrailDigest);
}

#[test]
fn damaged_gzip_header_is_reported_not_panicked() {
    let d = detect_bytes("broken.json.gz", b"not a gzip stream at all");

    assert_eq!(d.log_type, LogType::Unknown);
    assert_eq!(d.confidence, Confidence::Nil);
    assert!(d.note.as_deref().unwrap().contains("gzip"));
}

#[test]
fn truncated_gzip_body_still_yields_a_detection() {
    let json = cloudtrail_json(&[cloudtrail_record("ConsoleLogin")]);
    let full = gzip(json.as_bytes());
    let truncated = &full[..full.len() / 2];

    let d = detect_bytes("truncated.json.gz", truncated);

    // Damage must not abort the whole scan; it is reported per file.
    assert_eq!(d.log_type, LogType::Unknown);
    assert!(d.note.is_some());
}

#[test]
fn only_the_head_of_a_large_file_is_decoded() {
    let many: Vec<String> = (0..20_000)
        .map(|_| cloudtrail_record("ConsoleLogin"))
        .collect();
    let json = cloudtrail_json(&many);
    let d = detect_bytes("big.json.gz", &gzip(json.as_bytes()));

    assert_eq!(d.log_type, LogType::CloudTrail);
    assert!(
        d.decoded_bytes <= HEAD_LIMIT,
        "decoded {} bytes, limit {}",
        d.decoded_bytes,
        HEAD_LIMIT
    );
    // Record count from a partial read is an estimate, flagged as such.
    assert!(d.record_count_estimate.unwrap() > 0);
    assert!(d.estimated);
}

#[test]
fn large_fixture_actually_exceeds_the_head_limit() {
    // Guards the test above: if the fixture shrank below HEAD_LIMIT the
    // truncated-prefix path would silently stop being exercised.
    let many: Vec<String> = (0..20_000)
        .map(|_| cloudtrail_record("ConsoleLogin"))
        .collect();
    let json = cloudtrail_json(&many);
    assert!(
        json.len() > HEAD_LIMIT * 4,
        "fixture is {} bytes, head limit {}",
        json.len(),
        HEAD_LIMIT
    );
}

#[test]
fn recognizes_ndjson_producers_by_their_keys() {
    let waf = detect_bytes(
        "w.log.gz",
        &gzip(waf_record("BLOCK", "SQLi").as_bytes()),
    );
    assert_eq!(waf.log_type, detect::LogType::WafAcl);
    let sample = waf.sample.unwrap();
    assert_eq!(
        sample.event_time.as_deref(),
        Some("2026-08-31T03:22:19.583Z")
    );
    assert_eq!(sample.event_name.as_deref(), Some("BLOCK"));
    assert_eq!(sample.aws_region.as_deref(), Some("ap-northeast-2"));
    assert_eq!(sample.source_ip_address.as_deref(), Some("203.0.113.10"));

    let two = format!(
        "{}\n{}\n",
        apigw_record(200),
        apigw_record(502)
    );
    let apigw = detect_bytes("a.ndjson.gz", &gzip(two.as_bytes()));
    assert_eq!(apigw.log_type, detect::LogType::ApigwAccess);
    assert_eq!(apigw.record_count_estimate, Some(2));

    let nginx = detect_bytes("n.ndjson.gz", &gzip(nginx_record(200).as_bytes()));
    assert_eq!(nginx.log_type, detect::LogType::NginxAccess);
    assert_eq!(nginx.confidence, detect::Confidence::High);
}

#[test]
fn log_type_names_read_back() {
    for log_type in [
        LogType::CloudTrail,
        LogType::AlbAccess,
        LogType::WafAcl,
        LogType::ApigwAccess,
        LogType::NginxAccess,
        LogType::CloudTrailDigest,
        LogType::ConfigSnapshot,
        LogType::Unknown,
    ] {
        assert_eq!(LogType::parse(log_type.as_str()), Some(log_type));
    }
    assert_eq!(LogType::parse("vpc_flow"), None);
}

#[test]
fn config_snapshots_are_told_apart_by_their_keys() {
    let json = r#"{"fileVersion":"1.0","configSnapshotId":"x","configurationItems":[]}"#;
    let d = detect_bytes("config.json.gz", &gzip(json.as_bytes()));
    assert_eq!(d.log_type, LogType::ConfigSnapshot);
}

#[test]
fn invalid_utf8_in_the_head_does_not_stop_detection() {
    let mut bytes = cloudtrail_json(&[cloudtrail_record("ConsoleLogin")]).into_bytes();
    let at = bytes.windows(11).position(|w| w == b"Mozilla/5.0").unwrap();
    bytes[at] = 0xff;
    let d = detect_bytes("a.json.gz", &gzip(&bytes));
    assert_eq!(d.log_type, LogType::CloudTrail);
    assert_eq!(d.sample.unwrap().event_name.as_deref(), Some("ConsoleLogin"));
}

#[test]
fn an_unreadable_file_is_named_with_its_reason() {
    let err = detect::DetectError::Io { path: "/x".to_owned(), reason: "denied".to_owned() };
    assert_eq!(err.message(), "cannot read /x: denied");
}

#[test]
fn a_whole_first_document_of_a_larger_file_is_still_an_estimate() {
    let first = cloudtrail_json(&[cloudtrail_record("ConsoleLogin")]);
    let many: Vec<String> = (0..20_000).map(|_| cloudtrail_record("GetObject")).collect();
    let rest = cloudtrail_json(&many);
    let d = detect_bytes("two.json.gz", &gzip_multi_member(&[first.as_bytes(), rest.as_bytes()]));

    assert_eq!(d.log_type, LogType::CloudTrail);
    assert_eq!(d.record_count_estimate, Some(1));
    assert!(d.estimated);
    assert!(d.decoded_bytes <= HEAD_LIMIT);
}
