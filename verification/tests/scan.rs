//! Directory scan: what becomes of each file that the walk meets.

use awslog_core::scan::{
    examine, is_candidate_name, report, Candidate, FilePath, Found, ScanError, ScanReport,
    SkipReason, Skipped,
};

fn path(text: &str) -> FilePath {
    FilePath { parts: text.split('/').map(str::to_owned).collect() }
}

fn name(path: &FilePath) -> &str {
    path.parts.last().unwrap()
}

/// A scan of files given as relative paths and sizes.
fn scan(files: &[(&str, u64)]) -> ScanReport {
    let mut candidates = Vec::new();
    let mut skipped = Vec::new();
    for (file, size) in files {
        let file = path(&format!("/logs/{file}"));
        match examine(Some(name(&file)), Some(*size)) {
            Found::Ignored => {}
            Found::Skipped(reason) => skipped.push(Skipped { path: file, reason }),
            Found::Taken(size_bytes) => candidates.push(Candidate { path: file, size_bytes }),
        }
    }
    report(path("/logs"), candidates, skipped)
}

fn candidates(report: &ScanReport) -> Vec<&str> {
    report.candidates.iter().map(|c| name(&c.path)).collect()
}

#[test]
fn collects_json_gz_recursively_through_cloudtrail_layout() {
    let report = scan(&[
        ("AWSLogs/000000000000/CloudTrail/us-east-1/2026/09/11/b.json.gz", 22),
        ("AWSLogs/000000000000/CloudTrail/ap-northeast-2/2026/09/11/a.json.gz", 22),
    ]);

    assert_eq!(candidates(&report), ["a.json.gz", "b.json.gz"]);
}

#[test]
fn collects_alb_log_gz_candidates_alongside_cloudtrail() {
    let report = scan(&[
        ("trail.json.gz", 22),
        ("alb.log.gz", 22),
        ("plain.log", 11),
        ("waf.ndjson.gz", 22),
        ("EXPORT~1.GZ", 22),
    ]);

    assert_eq!(
        candidates(&report),
        ["EXPORT~1.GZ", "alb.log.gz", "trail.json.gz", "waf.ndjson.gz"]
    );
    assert_eq!(report.skipped.len(), 1);
    assert_eq!(name(&report.skipped[0].path), "plain.log");
}

#[test]
fn reports_non_matching_extensions_as_skipped() {
    let report = scan(&[("a.json.gz", 22), ("notes.txt", 5), ("digest.json", 2)]);

    assert_eq!(report.candidates.len(), 1);
    let skipped: Vec<_> = report.skipped.iter().map(|s| (name(&s.path), s.reason)).collect();
    assert!(skipped.contains(&("notes.txt", SkipReason::Extension)));
    assert!(skipped.contains(&("digest.json", SkipReason::Extension)));
}

#[test]
fn empty_file_is_skipped_not_offered_as_candidate() {
    let report = scan(&[("empty.json.gz", 0)]);

    assert!(report.candidates.is_empty());
    assert_eq!(report.skipped.len(), 1);
    assert_eq!(report.skipped[0].reason, SkipReason::Empty);
}

#[test]
fn candidate_carries_size_for_progress_estimation() {
    let report = scan(&[("a.json.gz", 4_321)]);

    assert_eq!(report.candidates[0].size_bytes, 4_321);
}

#[test]
fn missing_directory_is_an_error_not_an_empty_report() {
    let err = ScanError::Unreadable {
        path: "/no/such/dir".to_owned(),
        reason: "No such file or directory".to_owned(),
    };
    assert!(err.message().contains("/no/such/dir"));
}

#[test]
fn candidates_are_sorted_so_the_ui_list_is_reproducible() {
    let report = scan(&[("c.json.gz", 22), ("a.json.gz", 22), ("b.json.gz", 22)]);

    assert_eq!(candidates(&report), ["a.json.gz", "b.json.gz", "c.json.gz"]);
}

#[test]
fn os_metadata_files_are_ignored_not_reported_as_skipped() {
    let report = scan(&[
        (".DS_Store", 4),
        ("sub/.DS_Store", 4),
        ("Thumbs.db", 4),
        // Windows exports arrive with inconsistent casing.
        ("DESKTOP.INI", 4),
        // AppleDouble sidecar: ends with .json.gz, so it would pass the
        // extension check and be parsed as a log if metadata were tested second.
        ("._log.json.gz", 4),
        ("notes.txt", 5),
    ]);

    // Desktop metadata is noise the analyst never chose to put there; only
    // files they might have expected to be parsed belong in the report.
    let listed: Vec<_> = report.skipped.iter().map(|s| name(&s.path)).collect();
    assert_eq!(listed, ["notes.txt"]);
    assert!(report.candidates.is_empty());
}

#[test]
fn a_file_without_readable_metadata_is_skipped_as_unreadable() {
    assert_eq!(
        examine(Some("a.json.gz"), None),
        Found::Skipped(SkipReason::Unreadable)
    );
    // A name that is no text is no candidate.
    assert_eq!(examine(None, Some(1)), Found::Skipped(SkipReason::Extension));
    assert!(!is_candidate_name(None));
}
