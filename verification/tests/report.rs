//! Pre-parse summary shown in the GUI.

use std::io::Write;

use awslog_core::detect::detect;
use awslog_core::report::{relative, summarize_scan, to_row, unopened_row, SkipKind};
use awslog_core::scan::{report, Candidate, FilePath, ScanReport, SkipReason, Skipped};
use flate2::write::GzEncoder;
use flate2::Compression;

fn gzip(bytes: &[u8]) -> Vec<u8> {
    let mut enc = GzEncoder::new(Vec::new(), Compression::fast());
    enc.write_all(bytes).unwrap();
    enc.finish().unwrap()
}

const CLOUDTRAIL: &str = r#"{"Records":[{
    "eventVersion": "1.08",
    "eventTime": "2026-09-11T02:03:04Z",
    "eventSource": "signin.amazonaws.com",
    "eventName": "ConsoleLogin",
    "awsRegion": "ap-northeast-2",
    "sourceIPAddress": "203.0.113.10",
    "userIdentity": {"type": "IAMUser", "arn": "arn:aws:iam::000000000000:user/masked"}
}]}"#;

fn path(text: &str) -> FilePath {
    FilePath { parts: text.split('/').map(str::to_owned).collect() }
}

fn scanned() -> ScanReport {
    report(
        path("/tmp/x"),
        vec![
            Candidate { path: path("/tmp/x/a.json.gz"), size_bytes: 22 },
            Candidate { path: path("/tmp/x/b.json.gz"), size_bytes: 22 },
        ],
        vec![
            Skipped { path: path("/tmp/x/notes.txt"), reason: SkipReason::Extension },
            Skipped { path: path("/tmp/x/empty.json.gz"), reason: SkipReason::Empty },
        ],
    )
}

#[test]
fn scan_summary_counts_candidates_and_groups_skip_reasons() {
    let summary = summarize_scan(&scanned(), "/tmp/x");

    assert_eq!(summary.root, "/tmp/x");
    assert_eq!(summary.candidate_count, 2);
    assert_eq!(summary.total_bytes, 2 * summary.candidates[0].size_bytes);
    let kinds: Vec<_> = summary.skipped.iter().map(|s| s.kind).collect();
    assert!(kinds.contains(&SkipKind::Extension));
    assert!(kinds.contains(&SkipKind::Empty));
}

#[test]
fn candidate_exposes_a_path_relative_to_the_scanned_root() {
    let scanned = report(
        path("/tmp/x"),
        vec![Candidate {
            path: path("/tmp/x/AWSLogs/acct/CloudTrail/x.json.gz"),
            size_bytes: 22,
        }],
        vec![],
    );
    let summary = summarize_scan(&scanned, "/tmp/x");

    // Absolute paths are long and leak the analyst's directory layout in
    // screenshots; the UI shows the path relative to the chosen root.
    assert_eq!(
        summary.candidates[0].display_path,
        "AWSLogs/acct/CloudTrail/x.json.gz"
    );
}

#[test]
fn detection_row_carries_type_confidence_and_sample_fields() {
    let row = to_row("a.json.gz", &detect("a.json.gz", &gzip(CLOUDTRAIL.as_bytes())));

    assert_eq!(row.log_type, "cloudtrail");
    assert_eq!(row.confidence, "high");
    assert_eq!(row.display_path, "a.json.gz");
    let sample = row.sample.expect("sample record");
    assert_eq!(sample.event_name.as_deref(), Some("ConsoleLogin"));
    assert!(row.note.is_none());
}

#[test]
fn undetected_file_row_keeps_the_reason_for_the_user() {
    let bytes = b"definitely not gzip".to_vec();
    let row = to_row("broken.json.gz", &detect("broken.json.gz", &bytes));

    assert_eq!(row.log_type, "unknown");
    assert!(row.sample.is_none());
    assert!(row.note.unwrap().contains("gzip"));
}

#[test]
fn detect_all_isolates_a_damaged_file_and_keeps_the_rest() {
    let files = [
        ("good.json.gz", gzip(CLOUDTRAIL.as_bytes())),
        ("bad.json.gz", b"garbage".to_vec()),
    ];
    let rows: Vec<_> = files.iter().map(|(name, bytes)| to_row(name, &detect(name, bytes))).collect();

    assert_eq!(rows.len(), 2);
    assert_eq!(rows.iter().filter(|r| r.log_type == "cloudtrail").count(), 1);
    assert_eq!(rows.iter().filter(|r| r.log_type == "unknown").count(), 1);
}

#[test]
fn a_file_that_cannot_be_opened_keeps_its_row() {
    let row = unopened_row("gone.json.gz", "permission denied");
    assert_eq!(row.display_path, "gone.json.gz");
    assert_eq!(row.log_type, "unknown");
    assert_eq!(row.confidence, "none");
    assert_eq!(row.note.as_deref(), Some("permission denied"));
    assert!(row.sample.is_none());
}

#[test]
fn a_path_outside_the_root_is_shown_whole() {
    assert_eq!(relative(&path("/tmp/x"), &path("/tmp/x/sub/a.gz")), "sub/a.gz");
    assert!(relative(&path("/tmp/x"), &path("/other/a.gz")).ends_with("other/a.gz"));
}
