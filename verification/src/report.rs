//! View models for the pre-parse screen.

use vstd::prelude::*;

use crate::detect;
use crate::detect::{Confidence, Detection, SampleRecord};
use crate::scan::{Candidate, FilePath, ScanReport, SkipReason, Skipped};
use crate::split;
use crate::split::joined;
use crate::text;
use crate::text::{copied, same};

verus! {

#[derive(Debug, Clone, Copy, PartialEq, Eq, Structural)]
pub enum SkipKind {
    Extension,
    Empty,
    Unreadable,
}

#[derive(Debug, Clone)]
pub struct CandidateRow {
    pub display_path: String,
    pub size_bytes: u64,
}

#[derive(Debug, Clone)]
pub struct SkippedRow {
    pub display_path: String,
    pub kind: SkipKind,
}

#[derive(Debug, Clone)]
pub struct ScanSummary {
    pub root: String,
    pub candidate_count: usize,
    pub total_bytes: u64,
    pub candidates: Vec<CandidateRow>,
    pub skipped: Vec<SkippedRow>,
}

// -------------------------------------------------------------------- paths

/// A path lies under a root.
pub open spec fn is_under(root: Seq<Seq<char>>, path: Seq<Seq<char>>) -> bool {
    root.len() <= path.len() && path.take(root.len() as int) == root
}

/// The components a path is shown with.
pub open spec fn shown_parts(root: Seq<Seq<char>>, path: Seq<Seq<char>>) -> Seq<Seq<char>> {
    if is_under(root, path) {
        path.skip(root.len() as int)
    } else {
        path
    }
}

/// A path as the UI shows it.
pub open spec fn display(root: Seq<Seq<char>>, path: Seq<Seq<char>>) -> Seq<char> {
    split::join(shown_parts(root, path), "/"@)
}

fn part_of(parts: &Vec<String>, from: usize) -> (out: Vec<String>)
    requires
        from <= parts@.len(),
    ensures
        text::texts(out@) == text::texts(parts@).skip(from as int),
{
    let n: usize = parts.len();
    let mut out: Vec<String> = Vec::new();
    let mut i: usize = from;
    while i < n
        invariant
            from <= i <= n,
            n == parts@.len(),
            out@.len() == i - from,
            forall|k: int| 0 <= k < i - from ==> (#[trigger] out@[k])@ == parts@[from + k]@,
        decreases n - i,
    {
        out.push(parts[i].as_str().to_owned());
        i = i + 1;
    }
    assert(text::texts(out@) =~= text::texts(parts@).skip(from as int));
    out
}

/// Shortest path the UI can show: relative to the scanned root and always
/// `/`-joined, so the same string round-trips from detection back into the
/// parse request on every platform.
pub fn relative(root: &FilePath, path: &FilePath) -> (out: String)
    ensures
        out@ == display(root@, path@),
{
    let n: usize = root.parts.len();
    let mut under = n <= path.parts.len();
    let mut i: usize = 0;
    while under && i < n
        invariant
            i <= n,
            n == root.parts@.len(),
            under ==> n <= path.parts@.len(),
            !under ==> !is_under(root@, path@),
            under ==> forall|k: int| 0 <= k < i ==> root@[k] == path@[k],
        decreases n - i, (if under { 1int } else { 0 }),
    {
        assert(root@[i as int] == root.parts@[i as int]@);
        assert(path@[i as int] == path.parts@[i as int]@);
        if !same(root.parts[i].as_str(), path.parts[i].as_str()) {
            assert(path@.take(n as int)[i as int] == path@[i as int]);
            under = false;
        } else {
            i = i + 1;
        }
    }
    if under {
        assert(path@.take(n as int) =~= root@);
        let rest = part_of(&path.parts, n);
        joined(&rest, "/")
    } else {
        joined(&path.parts, "/")
    }
}

/// Two files under the root that are shown alike are the same file, provided
/// their names hold no slash.
pub proof fn display_paths_tell_files_apart(a: Seq<Seq<char>>, b: Seq<Seq<char>>)
    requires
        a.len() > 0,
        b.len() > 0,
        forall|i: int| 0 <= i < a.len() ==> !(#[trigger] a[i]).contains('/'),
        forall|i: int| 0 <= i < b.len() ==> !(#[trigger] b[i]).contains('/'),
        split::join(a, "/"@) == split::join(b, "/"@),
    ensures
        a == b,
    decreases a.len() + b.len(),
{
    lemma_last_part(a);
    lemma_last_part(b);
    let s = split::join(a, "/"@);
    reveal_strlit("/");
    let cut_a = s.len() - a.last().len();
    let cut_b = s.len() - b.last().len();
    if a.len() == 1 && b.len() == 1 {
        assert(a =~= b);
    } else if a.len() == 1 {
        assert(s[cut_b - 1] == '/');
        assert(a[0].contains(s[cut_b - 1]));
    } else if b.len() == 1 {
        assert(s[cut_a - 1] == '/');
        assert(b[0].contains(s[cut_a - 1]));
    } else {
        assert(s[cut_a - 1] == '/');
        assert(s[cut_b - 1] == '/');
        if cut_a < cut_b {
            assert(a.last()[cut_b - 1 - cut_a] == '/');
            assert(a[a.len() - 1].contains('/'));
        } else if cut_b < cut_a {
            assert(b.last()[cut_a - 1 - cut_b] == '/');
            assert(b[b.len() - 1].contains('/'));
        }
        assert(a.last() =~= b.last());
        let c = a.drop_last();
        let d = b.drop_last();
        assert(split::join(c, "/"@) =~= split::join(d, "/"@));
        assert forall|i: int| 0 <= i < c.len() implies !(#[trigger] c[i]).contains('/') by {
            assert(c[i] == a[i]);
        }
        assert forall|i: int| 0 <= i < d.len() implies !(#[trigger] d[i]).contains('/') by {
            assert(d[i] == b[i]);
        }
        display_paths_tell_files_apart(c, d);
        assert(a =~= c.push(a.last()));
        assert(b =~= d.push(b.last()));
    }
}

/// What the joined text ends with.
proof fn lemma_last_part(a: Seq<Seq<char>>)
    requires
        a.len() > 0,
    ensures
        ({
            let s = split::join(a, "/"@);
            let cut = s.len() - a.last().len();
            &&& cut >= 0
            &&& forall|k: int| 0 <= k < a.last().len() ==> s[cut + k] == #[trigger] a.last()[k]
            &&& a.len() == 1 ==> s == a[0]
            &&& a.len() > 1 ==> cut > 0 && s[cut - 1] == '/' && s.take(cut - 1) == split::join(
                a.drop_last(),
                "/"@,
            )
        }),
{
    reveal_strlit("/");
    let s = split::join(a, "/"@);
    if a.len() > 1 {
        let head = split::join(a.drop_last(), "/"@);
        assert(s == head + "/"@ + a.last());
        assert(s.take(head.len() as int) =~= head);
    } else {
        assert(a.last() == a[0]);
    }
}

// ------------------------------------------------------------------ the scan

pub open spec fn kind_of(reason: SkipReason) -> SkipKind {
    match reason {
        SkipReason::Extension => SkipKind::Extension,
        SkipReason::Empty => SkipKind::Empty,
        SkipReason::Unreadable => SkipKind::Unreadable,
    }
}

/// The bytes of these candidates.
pub open spec fn bytes_in(candidates: Seq<Candidate>) -> nat
    decreases candidates.len(),
{
    if candidates.len() == 0 {
        0
    } else {
        bytes_in(candidates.drop_last()) + candidates.last().size_bytes as nat
    }
}

proof fn lemma_bytes_prefix(candidates: Seq<Candidate>, k: int)
    requires
        0 <= k <= candidates.len(),
    ensures
        bytes_in(candidates.take(k)) <= bytes_in(candidates),
    decreases candidates.len() - k,
{
    if k < candidates.len() {
        assert(candidates.take(k + 1).drop_last() =~= candidates.take(k));
        lemma_bytes_prefix(candidates, k + 1);
    } else {
        assert(candidates.take(k) =~= candidates);
    }
}

fn skip_kind(reason: SkipReason) -> (r: SkipKind)
    ensures
        r == kind_of(reason),
{
    match reason {
        SkipReason::Extension => SkipKind::Extension,
        SkipReason::Empty => SkipKind::Empty,
        SkipReason::Unreadable => SkipKind::Unreadable,
    }
}

fn skipped_rows(root: &FilePath, skipped: &Vec<Skipped>) -> (rows: Vec<SkippedRow>)
    ensures
        rows@.len() == skipped@.len(),
        forall|i: int|
            0 <= i < rows@.len() ==> (#[trigger] rows@[i]).display_path@ == display(
                root@,
                skipped@[i].path@,
            ) && rows@[i].kind == kind_of(skipped@[i].reason),
{
    let n: usize = skipped.len();
    let mut rows: Vec<SkippedRow> = Vec::new();
    let mut i: usize = 0;
    while i < n
        invariant
            i <= n,
            n == skipped@.len(),
            rows@.len() == i,
            forall|k: int|
                0 <= k < i ==> (#[trigger] rows@[k]).display_path@ == display(
                    root@,
                    skipped@[k].path@,
                ) && rows@[k].kind == kind_of(skipped@[k].reason),
        decreases n - i,
    {
        let item = &skipped[i];
        rows.push(
            SkippedRow {
                display_path: relative(root, &item.path),
                kind: skip_kind(item.reason),
            },
        );
        i = i + 1;
    }
    rows
}

/// What the pre-parse screen shows of a scan. `root` is the chosen directory
/// as the platform spells it.
pub fn summarize_scan(report: &ScanReport, root: &str) -> (r: ScanSummary)
    requires
        bytes_in(report.candidates@) <= u64::MAX,
    ensures
        r.root@ == root@,
        r.candidate_count == report.candidates@.len(),
        r.total_bytes == bytes_in(report.candidates@),
        r.candidates@.len() == report.candidates@.len(),
        forall|i: int|
            0 <= i < r.candidates@.len() ==> (#[trigger] r.candidates@[i]).display_path@ == display(
                report.root@,
                report.candidates@[i].path@,
            ) && r.candidates@[i].size_bytes == report.candidates@[i].size_bytes,
        r.skipped@.len() == report.skipped@.len(),
        forall|i: int|
            0 <= i < r.skipped@.len() ==> (#[trigger] r.skipped@[i]).display_path@ == display(
                report.root@,
                report.skipped@[i].path@,
            ) && r.skipped@[i].kind == kind_of(report.skipped@[i].reason),
{
    let all = &report.candidates;
    let n: usize = all.len();
    let mut rows: Vec<CandidateRow> = Vec::new();
    let mut total: u64 = 0;
    let mut i: usize = 0;
    assert(all@.take(0) =~= Seq::empty());
    while i < n
        invariant
            i <= n,
            n == all@.len(),
            all == &report.candidates,
            bytes_in(all@) <= u64::MAX,
            total == bytes_in(all@.take(i as int)),
            rows@.len() == i,
            forall|k: int|
                0 <= k < i ==> (#[trigger] rows@[k]).display_path@ == display(
                    report.root@,
                    all@[k].path@,
                ) && rows@[k].size_bytes == all@[k].size_bytes,
        decreases n - i,
    {
        proof {
            assert(all@.take(i + 1).drop_last() =~= all@.take(i as int));
            lemma_bytes_prefix(all@, i + 1);
        }
        let item = &all[i];
        total = total + item.size_bytes;
        rows.push(
            CandidateRow {
                display_path: relative(&report.root, &item.path),
                size_bytes: item.size_bytes,
            },
        );
        i = i + 1;
    }
    assert(all@.take(n as int) =~= all@);
    ScanSummary {
        root: root.to_owned(),
        candidate_count: n,
        total_bytes: total,
        candidates: rows,
        skipped: skipped_rows(&report.root, &report.skipped),
    }
}

// --------------------------------------------------------------- detections

/// Summary of a file's first record, as the screen shows it.
#[derive(Debug, Clone)]
pub struct SampleRow {
    pub raw: Option<String>,
    pub event_time: Option<String>,
    pub event_source: Option<String>,
    pub event_name: Option<String>,
    pub aws_region: Option<String>,
    pub user_identity_type: Option<String>,
    pub user_identity_arn: Option<String>,
    pub source_ip_address: Option<String>,
}

impl View for SampleRow {
    type V = detect::SampleModel;

    open spec fn view(&self) -> detect::SampleModel {
        detect::SampleModel {
            raw: text::opt(self.raw),
            event_time: text::opt(self.event_time),
            event_source: text::opt(self.event_source),
            event_name: text::opt(self.event_name),
            aws_region: text::opt(self.aws_region),
            user_identity_type: text::opt(self.user_identity_type),
            user_identity_arn: text::opt(self.user_identity_arn),
            source_ip_address: text::opt(self.source_ip_address),
        }
    }
}

#[derive(Debug, Clone)]
pub struct DetectionRow {
    pub display_path: String,
    pub log_type: String,
    pub confidence: String,
    pub record_count_estimate: Option<u64>,
    pub estimated: bool,
    pub members_in_head: usize,
    pub sample: Option<SampleRow>,
    pub note: Option<String>,
}

pub open spec fn confidence_text(confidence: Confidence) -> Seq<char> {
    match confidence {
        Confidence::High => "high"@,
        Confidence::Low => "low"@,
        Confidence::Nil => "none"@,
    }
}

pub fn confidence_name(confidence: Confidence) -> (r: &'static str)
    ensures
        r@ == confidence_text(confidence),
{
    match confidence {
        Confidence::High => "high",
        Confidence::Low => "low",
        Confidence::Nil => "none",
    }
}

pub open spec fn opt_sample_row(row: Option<SampleRow>) -> Option<detect::SampleModel> {
    match row {
        Some(row) => Some(row@),
        None => None,
    }
}

fn sample_row(sample: &SampleRecord) -> (row: SampleRow)
    ensures
        row@ == sample@,
{
    SampleRow {
        raw: copied(&sample.raw),
        event_time: copied(&sample.event_time),
        event_source: copied(&sample.event_source),
        event_name: copied(&sample.event_name),
        aws_region: copied(&sample.aws_region),
        user_identity_type: copied(&sample.user_identity_type),
        user_identity_arn: copied(&sample.user_identity_arn),
        source_ip_address: copied(&sample.source_ip_address),
    }
}

/// The row of a detected file that is shown under this path.
pub fn to_row(display_path: &str, detection: &Detection) -> (row: DetectionRow)
    ensures
        row.display_path@ == display_path@,
        row.log_type@ == detection.log_type.name(),
        row.confidence@ == confidence_text(detection.confidence),
        row.record_count_estimate == detection.record_count_estimate,
        row.estimated == detection.estimated,
        row.members_in_head == detection.members_in_head,
        opt_sample_row(row.sample) == detection@.sample,
        text::opt(row.note) == text::opt(detection.note),
{
    DetectionRow {
        display_path: display_path.to_owned(),
        log_type: detection.log_type.as_str().to_owned(),
        confidence: confidence_name(detection.confidence).to_owned(),
        record_count_estimate: detection.record_count_estimate,
        estimated: detection.estimated,
        members_in_head: detection.members_in_head,
        sample: match &detection.sample {
            Some(sample) => Some(sample_row(sample)),
            None => None,
        },
        note: copied(&detection.note),
    }
}

/// The row of a file that could not even be opened: unknown, with the reason,
/// instead of aborting the batch.
pub fn unopened_row(display_path: &str, reason: &str) -> (row: DetectionRow)
    ensures
        row.display_path@ == display_path@,
        row.log_type@ == "unknown"@,
        row.confidence@ == "none"@,
        row.record_count_estimate is None,
        !row.estimated,
        row.members_in_head == 0,
        row.sample is None,
        text::opt(row.note) == Some(reason@),
{
    DetectionRow {
        display_path: display_path.to_owned(),
        log_type: "unknown".to_owned(),
        confidence: "none".to_owned(),
        record_count_estimate: None,
        estimated: false,
        members_in_head: 0,
        sample: None,
        note: Some(reason.to_owned()),
    }
}

} // verus!
