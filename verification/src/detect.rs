//! Decides whether a candidate really is an AWS log by reading its head.
//! Extensions are not trusted.

use vstd::prelude::*;

use crate::gzip;
use crate::json;
use crate::json::{to_text, Json};
use crate::ndjson;
use crate::parse::alb;
use crate::split;
use crate::split::{
    concat, count_text, find_char, find_text, has_prefix, split_lines, split_words,
};
use crate::stamp;
use crate::stamp::parse_rfc3339;
use crate::text;
use crate::text::{chars_of, owned, same, string_of};

verus! {

#[derive(Debug)]
pub enum DetectError {
    Io { path: String, reason: String },
}

impl DetectError {
    pub open spec fn text(self) -> Seq<char> {
        match self {
            DetectError::Io { path, reason } => "cannot read "@ + path@ + ": "@ + reason@,
        }
    }

    pub fn message(&self) -> (out: String)
        ensures
            out@ == self.text(),
    {
        match self {
            DetectError::Io { path, reason } => {
                let mut out = concat("cannot read ", path.as_str());
                out.push_str(": ");
                out.push_str(reason.as_str());
                out
            },
        }
    }
}

#[derive(Debug, Clone, Copy, PartialEq, Eq, Structural)]
pub enum LogType {
    CloudTrail,
    AlbAccess,
    WafAcl,
    ApigwAccess,
    NginxAccess,
    CloudTrailDigest,
    ConfigSnapshot,
    Unknown,
}

impl LogType {
    pub open spec fn name(self) -> Seq<char> {
        match self {
            LogType::CloudTrail => "cloudtrail"@,
            LogType::AlbAccess => "alb_access"@,
            LogType::WafAcl => "waf_acl"@,
            LogType::ApigwAccess => "apigw_access"@,
            LogType::NginxAccess => "nginx_access"@,
            LogType::CloudTrailDigest => "cloudtrail_digest"@,
            LogType::ConfigSnapshot => "config_snapshot"@,
            LogType::Unknown => "unknown"@,
        }
    }

    pub fn as_str(self) -> (r: &'static str)
        ensures
            r@ == self.name(),
    {
        match self {
            LogType::CloudTrail => "cloudtrail",
            LogType::AlbAccess => "alb_access",
            LogType::WafAcl => "waf_acl",
            LogType::ApigwAccess => "apigw_access",
            LogType::NginxAccess => "nginx_access",
            LogType::CloudTrailDigest => "cloudtrail_digest",
            LogType::ConfigSnapshot => "config_snapshot",
            LogType::Unknown => "unknown",
        }
    }

    /// The inverse of [`Self::as_str`], for names that crossed a boundary.
    pub fn parse(name: &str) -> (r: Option<LogType>)
        ensures
            match r {
                Some(t) => t.name() == name@,
                None => forall|t: LogType| #[trigger] t.name() != name@,
            },
    {
        if same(name, "cloudtrail") {
            Some(LogType::CloudTrail)
        } else if same(name, "alb_access") {
            Some(LogType::AlbAccess)
        } else if same(name, "waf_acl") {
            Some(LogType::WafAcl)
        } else if same(name, "apigw_access") {
            Some(LogType::ApigwAccess)
        } else if same(name, "nginx_access") {
            Some(LogType::NginxAccess)
        } else if same(name, "cloudtrail_digest") {
            Some(LogType::CloudTrailDigest)
        } else if same(name, "config_snapshot") {
            Some(LogType::ConfigSnapshot)
        } else if same(name, "unknown") {
            Some(LogType::Unknown)
        } else {
            None
        }
    }
}

/// No two log types share a name, so a name that went out comes back as the
/// type it was taken from.
pub proof fn log_type_names_are_distinct(a: LogType, b: LogType)
    requires
        a.name() == b.name(),
    ensures
        a == b,
{
    lemma_name_mark(a);
    lemma_name_mark(b);
}

/// Length and second character of a name.
spec fn name_mark(t: LogType) -> (int, char) {
    match t {
        LogType::CloudTrail => (10, 'l'),
        LogType::AlbAccess => (10, 'l'),
        LogType::WafAcl => (7, 'a'),
        LogType::ApigwAccess => (12, 'p'),
        LogType::NginxAccess => (12, 'g'),
        LogType::CloudTrailDigest => (17, 'l'),
        LogType::ConfigSnapshot => (15, 'o'),
        LogType::Unknown => (7, 'n'),
    }
}

proof fn lemma_name_mark(t: LogType)
    ensures
        t.name().len() == name_mark(t).0,
        t.name()[1] == name_mark(t).1,
        t == LogType::CloudTrail ==> t.name()[0] == 'c',
        t == LogType::AlbAccess ==> t.name()[0] == 'a',
{
    reveal_strlit("cloudtrail");
    reveal_strlit("alb_access");
    reveal_strlit("waf_acl");
    reveal_strlit("apigw_access");
    reveal_strlit("nginx_access");
    reveal_strlit("cloudtrail_digest");
    reveal_strlit("config_snapshot");
    reveal_strlit("unknown");
}

#[derive(Debug, Clone, Copy, PartialEq, Eq, Structural)]
pub enum Confidence {
    High,
    Low,
    /// The file is not a log this library knows.
    Nil,
}

/// Summary of the first record, shown before parsing.
#[derive(Debug, Clone)]
pub struct SampleRecord {
    /// The first record verbatim, so the mapping editor can resolve any path
    /// the user types instead of only the fields detection happens to read.
    pub raw: Option<String>,
    pub event_time: Option<String>,
    pub event_source: Option<String>,
    pub event_name: Option<String>,
    pub aws_region: Option<String>,
    pub user_identity_type: Option<String>,
    pub user_identity_arn: Option<String>,
    pub source_ip_address: Option<String>,
}

pub ghost struct SampleModel {
    pub raw: Option<Seq<char>>,
    pub event_time: Option<Seq<char>>,
    pub event_source: Option<Seq<char>>,
    pub event_name: Option<Seq<char>>,
    pub aws_region: Option<Seq<char>>,
    pub user_identity_type: Option<Seq<char>>,
    pub user_identity_arn: Option<Seq<char>>,
    pub source_ip_address: Option<Seq<char>>,
}

impl View for SampleRecord {
    type V = SampleModel;

    open spec fn view(&self) -> SampleModel {
        SampleModel {
            raw: text::opt(self.raw),
            event_time: text::opt(self.event_time),
            event_source: text::opt(self.event_source),
            event_name: text::opt(self.event_name),
            aws_region: text::opt(self.aws_region),
            user_identity_type: text::opt(self.user_identity_type),
            user_identity_arn: text::opt(self.user_identity_arn),
            source_ip_address: text::opt(self.source_ip_address),
        }
    }
}

/// What detection found out about a file.
#[derive(Debug, Clone)]
pub struct Detection {
    pub path: String,
    pub log_type: LogType,
    pub confidence: Confidence,
    pub sample: Option<SampleRecord>,
    /// Records seen in the decoded head.
    pub record_count_estimate: Option<u64>,
    /// True when the file was larger than the head, so the count has to be
    /// extrapolated.
    pub estimated: bool,
    pub decoded_bytes: usize,
    /// Gzip member headers seen in the compressed head; approximate.
    pub members_in_head: usize,
    /// Why detection failed or degraded; surfaced as a warning.
    pub note: Option<String>,
}

pub ghost struct DetectionModel {
    pub path: Seq<char>,
    pub log_type: LogType,
    pub confidence: Confidence,
    pub sample: Option<SampleModel>,
    pub count: Option<nat>,
    pub estimated: bool,
    pub decoded_bytes: nat,
    pub members_in_head: nat,
    pub note: Option<Seq<char>>,
}

pub open spec fn opt_sample(sample: Option<SampleRecord>) -> Option<SampleModel> {
    match sample {
        Some(s) => Some(s@),
        None => None,
    }
}

impl View for Detection {
    type V = DetectionModel;

    open spec fn view(&self) -> DetectionModel {
        DetectionModel {
            path: self.path@,
            log_type: self.log_type,
            confidence: self.confidence,
            sample: opt_sample(self.sample),
            count: json::opt_nat(self.record_count_estimate),
            estimated: self.estimated,
            decoded_bytes: self.decoded_bytes as nat,
            members_in_head: self.members_in_head as nat,
            note: text::opt(self.note),
        }
    }
}

/// A file that is no log, and why.
pub open spec fn unknown_file(path: Seq<char>, note: Seq<char>) -> DetectionModel {
    DetectionModel {
        path,
        log_type: LogType::Unknown,
        confidence: Confidence::Nil,
        sample: None,
        count: None,
        estimated: false,
        decoded_bytes: 0,
        members_in_head: 0,
        note: Some(note),
    }
}

impl Detection {
    /// A file that is no log, and why.
    pub fn unknown(path: &str, note: &str) -> (r: Detection)
        ensures
            r@ == unknown_file(path@, note@),
    {
        Detection {
            path: path.to_owned(),
            log_type: LogType::Unknown,
            confidence: Confidence::Nil,
            sample: None,
            record_count_estimate: None,
            estimated: false,
            decoded_bytes: 0,
            members_in_head: 0,
            note: Some(note.to_owned()),
        }
    }
}

/// A recognised file; the member count is filled in later.
pub open spec fn recognised(
    path: Seq<char>,
    log_type: LogType,
    confidence: Confidence,
    sample: Option<SampleModel>,
    count: Option<nat>,
    estimated: bool,
    decoded_bytes: nat,
) -> DetectionModel {
    DetectionModel {
        path,
        log_type,
        confidence,
        sample,
        count,
        estimated,
        decoded_bytes,
        members_in_head: 0,
        note: None,
    }
}

fn found(
    path: &str,
    log_type: LogType,
    confidence: Confidence,
    sample: Option<SampleRecord>,
    count: Option<u64>,
    estimated: bool,
    decoded: usize,
) -> (r: Detection)
    ensures
        r@ == recognised(
            path@,
            log_type,
            confidence,
            opt_sample(sample),
            json::opt_nat(count),
            estimated,
            decoded as nat,
        ),
{
    Detection {
        path: path.to_owned(),
        log_type,
        confidence,
        sample,
        record_count_estimate: count,
        estimated,
        decoded_bytes: decoded,
        members_in_head: 0,
        note: None,
    }
}

// ------------------------------------------------------------ CloudTrail

pub open spec fn identity_text(record: Json, key: Seq<char>) -> Option<Seq<char>> {
    match record.member("userIdentity"@) {
        Some(u) => u.text_at(key),
        None => None,
    }
}

/// The summary of a CloudTrail record.
pub open spec fn cloudtrail_sample(record: Json) -> SampleModel {
    SampleModel {
        raw: Some(json::json_text(record)),
        event_time: record.text_at("eventTime"@),
        event_source: record.text_at("eventSource"@),
        event_name: record.text_at("eventName"@),
        aws_region: record.text_at("awsRegion"@),
        user_identity_type: identity_text(record, "type"@),
        user_identity_arn: identity_text(record, "arn"@),
        source_ip_address: record.text_at("sourceIPAddress"@),
    }
}

/// The summary of a CloudTrail record.
pub fn sample_from(record: &Json) -> (r: SampleRecord)
    ensures
        r@ == cloudtrail_sample(*record),
{
    let (kind, arn): (Option<&str>, Option<&str>) = match record.get("userIdentity") {
        Some(u) => (u.get_str("type"), u.get_str("arn")),
        None => (None, None),
    };
    SampleRecord {
        raw: Some(to_text(record)),
        event_time: owned(record.get_str("eventTime")),
        event_source: owned(record.get_str("eventSource")),
        event_name: owned(record.get_str("eventName")),
        aws_region: owned(record.get_str("awsRegion")),
        user_identity_type: owned(kind),
        user_identity_arn: owned(arn),
        source_ip_address: owned(record.get_str("sourceIPAddress")),
    }
}

/// A record with the keys that every CloudTrail record has.
pub open spec fn is_complete(record: Json) -> bool {
    record.member("eventVersion"@) is Some && record.member("eventSource"@) is Some
        && record.member("eventTime"@) is Some
}

/// What a whole document is recognised as.
pub open spec fn document_kind(
    path: Seq<char>,
    value: Json,
    decoded: nat,
    estimated: bool,
) -> DetectionModel {
    if value.member("digestPublicKeyFingerprint"@) is Some && value.member("logFiles"@) is Some {
        recognised(
            path,
            LogType::CloudTrailDigest,
            Confidence::High,
            None,
            None,
            estimated,
            decoded,
        )
    } else {
        match value.member("configurationItems"@) {
            Some(Json::Array(items)) => recognised(
                path,
                LogType::ConfigSnapshot,
                Confidence::High,
                None,
                Some(items@.len()),
                estimated,
                decoded,
            ),
            _ => match value.member("Records"@) {
                Some(Json::Array(records)) => {
                    let known = records@.len() == 0 || is_complete(records@[0]);
                    recognised(
                        path,
                        LogType::CloudTrail,
                        if known {
                            Confidence::High
                        } else {
                            Confidence::Low
                        },
                        if records@.len() > 0 && known {
                            Some(cloudtrail_sample(records@[0]))
                        } else {
                            None
                        },
                        Some(records@.len()),
                        estimated,
                        decoded,
                    )
                },
                _ => unknown_file(path, "no recognized AWS log signature"@),
            },
        }
    }
}

/// Recognises a whole document by its keys.
pub fn classify_value(path: &str, value: &Json, decoded: usize, estimated: bool) -> (r: Detection)
    ensures
        r@ == document_kind(path@, *value, decoded as nat, estimated),
{
    if value.get("digestPublicKeyFingerprint").is_some() && value.get("logFiles").is_some() {
        return found(
            path,
            LogType::CloudTrailDigest,
            Confidence::High,
            None,
            None,
            estimated,
            decoded,
        );
    }
    match value.get("configurationItems") {
        Some(Json::Array(items)) => {
            return found(
                path,
                LogType::ConfigSnapshot,
                Confidence::High,
                None,
                Some(items.len() as u64),
                estimated,
                decoded,
            );
        },
        _ => {},
    }
    match value.get("Records") {
        Some(Json::Array(records)) => {
            let count: Option<u64> = Some(records.len() as u64);
            if records.len() == 0 {
                return found(
                    path,
                    LogType::CloudTrail,
                    Confidence::High,
                    None,
                    count,
                    estimated,
                    decoded,
                );
            }
            let first = &records[0];
            let complete = first.get("eventVersion").is_some() && first.get(
                "eventSource",
            ).is_some() && first.get("eventTime").is_some();
            if complete {
                found(
                    path,
                    LogType::CloudTrail,
                    Confidence::High,
                    Some(sample_from(first)),
                    count,
                    estimated,
                    decoded,
                )
            } else {
                found(path, LogType::CloudTrail, Confidence::Low, None, count, estimated, decoded)
            }
        },
        _ => Detection::unknown(path, "no recognized AWS log signature"),
    }
}

/// Just past the object whose text is read from position `i` on, `depth`
/// braces deep. Braces inside strings do not count.
pub open spec fn object_end(
    s: Seq<char>,
    i: int,
    depth: nat,
    in_string: bool,
    escaped: bool,
) -> Option<int>
    decreases s.len() - i,
{
    if i < 0 || i >= s.len() {
        None
    } else if in_string {
        if escaped {
            object_end(s, i + 1, depth, true, false)
        } else {
            object_end(s, i + 1, depth, s[i] != '"', s[i] == '\\')
        }
    } else if s[i] == '"' {
        object_end(s, i + 1, depth, true, false)
    } else if s[i] == '{' {
        object_end(s, i + 1, depth + 1, false, false)
    } else if s[i] == '}' {
        if depth <= 1 {
            Some(i + 1)
        } else {
            object_end(s, i + 1, (depth - 1) as nat, false, false)
        }
    } else {
        object_end(s, i + 1, depth, false, false)
    }
}

/// Just past the object that starts at `start`, honouring strings and
/// escapes. `None` if the object never closes.
pub fn match_object_end(s: &Vec<char>, start: usize) -> (r: Option<usize>)
    requires
        start < s@.len(),
        s@[start as int] == '{',
    ensures
        match r {
            Some(end) => object_end(s@, start as int, 0, false, false) == Some(end as int)
                && start < end <= s@.len(),
            None => object_end(s@, start as int, 0, false, false) is None,
        },
{
    let len: usize = s.len();
    let mut depth: usize = 1;
    let mut in_string = false;
    let mut escaped = false;
    let mut i: usize = start + 1;
    while i < len
        invariant
            start < i <= len,
            len == s@.len(),
            1 <= depth <= i - start,
            escaped ==> in_string,
            object_end(s@, start as int, 0, false, false) == object_end(
                s@,
                i as int,
                depth as nat,
                in_string,
                escaped,
            ),
        decreases len - i,
    {
        let c = s[i];
        if in_string {
            if escaped {
                escaped = false;
            } else if c == '\\' {
                escaped = true;
            } else if c == '"' {
                in_string = false;
            }
        } else if c == '"' {
            in_string = true;
        } else if c == '{' {
            depth = depth + 1;
        } else if c == '}' {
            depth = depth - 1;
            if depth == 0 {
                return Some(i + 1);
            }
        }
        i = i + 1;
    }
    None
}

/// The text of the first object behind `"Records"`, whole or not at all.
pub open spec fn first_record_text(s: Seq<char>) -> Option<Seq<char>> {
    match split::find_text_from(s, "\"Records\""@, 0) {
        None => None,
        Some(start) => match split::find_from(s, '{', start) {
            None => None,
            Some(from) => match object_end(s, from, 0, false, false) {
                None => None,
                Some(end) => Some(s.subrange(from, end)),
            },
        },
    }
}

/// The text of the first record of a document that may have been cut off.
pub fn first_record(text: &str) -> (r: Option<String>)
    ensures
        text::opt(r) == first_record_text(text@),
{
    let s = chars_of(text);
    let key = chars_of("\"Records\"");
    proof {
        split::lemma_find_text_from(s@, key@, 0);
    }
    match find_text(&s, &key, 0) {
        None => None,
        Some(start) => {
            proof {
                split::lemma_find_from(s@, '{', start as int);
            }
            match find_char(&s, '{', start) {
                None => None,
                Some(from) => match match_object_end(&s, from) {
                    None => None,
                    Some(end) => Some(string_of(&s, from, end)),
                },
            }
        },
    }
}

/// The summary of the first record of a document that was cut off.
pub open spec fn partial_sample(s: Seq<char>) -> Option<SampleModel> {
    match first_record_text(s) {
        None => None,
        Some(t) => match json::json_of(t) {
            None => None,
            Some(record) => if record.member("eventVersion"@) is Some {
                Some(cloudtrail_sample(record))
            } else {
                None
            },
        },
    }
}

/// Recovers the first record when the head was cut mid-document. Braces are
/// matched rather than searched for, so the last record and nested objects
/// come out whole.
pub fn first_record_from_partial(text: &str) -> (r: Option<SampleRecord>)
    ensures
        opt_sample(r) == partial_sample(text@),
{
    match first_record(text) {
        None => None,
        Some(t) => match json::parse(t.as_str()) {
            None => None,
            Some(record) => {
                if record.get("eventVersion").is_some() {
                    Some(sample_from(&record))
                } else {
                    None
                }
            },
        },
    }
}

// ------------------------------------------------------------------- ALB

/// The summary of an ALB line, given whether its second word is a time.
pub open spec fn alb_line_sample(line: Seq<char>, dated: bool) -> Option<SampleModel> {
    let w = split::words(line);
    if w.len() >= 4 && alb::is_protocol(w[0]) && dated && split::starts_with(w[2], "app/"@) {
        match alb::host_of(w[3]) {
            None => None,
            Some(host) => Some(
                SampleModel {
                    raw: None,
                    event_time: Some(w[1]),
                    event_source: Some("elasticloadbalancing.amazonaws.com"@),
                    event_name: None,
                    aws_region: None,
                    user_identity_type: None,
                    user_identity_arn: None,
                    source_ip_address: Some(host),
                },
            ),
        }
    } else {
        None
    }
}

pub open spec fn is_dated(line: Seq<char>) -> bool {
    let w = split::words(line);
    w.len() > 1 && stamp::rfc3339_time(w[1]) is Some
}

pub open spec fn alb_sample(line: Seq<char>) -> Option<SampleModel> {
    alb_line_sample(line, is_dated(line))
}

/// The summary of an ALB line whose words and date are known.
pub fn alb_sample_of(line: &str, dated: bool) -> (r: Option<SampleRecord>)
    ensures
        opt_sample(r) == alb_line_sample(line@, dated),
{
    let words = split_words(line);
    let ghost w = split::words(line@);
    assert(w.len() == words@.len());
    if words.len() < 4 || !dated {
        return None;
    }
    assert(w[0] == words@[0]@ && w[1] == words@[1]@ && w[2] == words@[2]@ && w[3]
        == words@[3]@);
    if !alb::protocol(words[0].as_str()) || !has_prefix(words[2].as_str(), "app/") {
        return None;
    }
    match alb::endpoint_host(words[3].as_str()) {
        None => None,
        Some(host) => Some(
            SampleRecord {
                raw: None,
                event_time: Some(words[1].as_str().to_owned()),
                event_source: Some("elasticloadbalancing.amazonaws.com".to_owned()),
                event_name: None,
                aws_region: None,
                user_identity_type: None,
                user_identity_arn: None,
                source_ip_address: Some(host),
            },
        ),
    }
}

/// The summary of a line, if it is an ALB access log line.
pub fn alb_sample_from_line(line: &str) -> (r: Option<SampleRecord>)
    ensures
        opt_sample(r) == alb_sample(line@),
{
    let words = split_words(line);
    assert(split::words(line@).len() == words@.len());
    let dated: bool = if words.len() > 1 {
        assert(split::words(line@)[1] == words@[1]@);
        parse_rfc3339(words[1].as_str()).is_some()
    } else {
        false
    };
    alb_sample_of(line, dated)
}

/// The summary of the first ALB line from line `i` on.
pub open spec fn first_alb_from(lines: Seq<Seq<char>>, i: int) -> Option<SampleModel>
    decreases lines.len() - i,
{
    if i < 0 || i >= lines.len() {
        None
    } else {
        match alb_sample(lines[i]) {
            Some(sample) => Some(sample),
            None => first_alb_from(lines, i + 1),
        }
    }
}

/// How many of these lines are ALB lines.
pub open spec fn alb_lines(lines: Seq<Seq<char>>) -> nat
    decreases lines.len(),
{
    if lines.len() == 0 {
        0
    } else {
        alb_lines(lines.drop_last()) + if alb_sample(lines.last()) is Some {
            1nat
        } else {
            0
        }
    }
}

/// How many of these lines open an object.
pub open spec fn object_lines(lines: Seq<Seq<char>>) -> nat
    decreases lines.len(),
{
    if lines.len() == 0 {
        0
    } else {
        object_lines(lines.drop_last()) + if lines.last().len() > 0 && lines.last()[0] == '{' {
            1nat
        } else {
            0
        }
    }
}

proof fn lemma_no_alb_line(lines: Seq<Seq<char>>, n: int)
    requires
        0 <= n <= lines.len(),
    ensures
        first_alb_from(lines, 0) is None ==> alb_lines(lines.take(n)) == 0,
        forall|k: int|
            0 <= k < n && alb_sample(#[trigger] lines[k]) is Some ==> first_alb_from(
                lines,
                0,
            ) is Some,
    decreases n,
{
    if n == 0 {
        assert(lines.take(0) =~= Seq::empty());
    } else {
        lemma_no_alb_line(lines, n - 1);
        assert(lines.take(n).drop_last() =~= lines.take(n - 1));
        lemma_alb_found(lines, 0, n - 1);
    }
}

proof fn lemma_alb_found(lines: Seq<Seq<char>>, i: int, k: int)
    requires
        0 <= i <= k < lines.len(),
    ensures
        alb_sample(lines[k]) is Some ==> first_alb_from(lines, i) is Some,
    decreases k - i,
{
    if i < k {
        lemma_alb_found(lines, i + 1, k);
    }
}

/// A file is taken for an ALB log exactly when one of its lines is one.
pub proof fn one_alb_line_is_enough(lines: Seq<Seq<char>>)
    ensures
        first_alb_from(lines, 0) is Some <==> alb_lines(lines) > 0,
{
    lemma_no_alb_line(lines, lines.len() as int);
    assert(lines.take(lines.len() as int) =~= lines);
    if first_alb_from(lines, 0) is Some {
        lemma_first_alb_counts(lines, 0);
    }
}

proof fn lemma_first_alb_counts(lines: Seq<Seq<char>>, i: int)
    requires
        0 <= i <= lines.len(),
        first_alb_from(lines, i) is Some,
    ensures
        alb_lines(lines) > 0,
    decreases lines.len() - i,
{
    if i < lines.len() {
        if alb_sample(lines[i]) is Some {
            lemma_counts_line(lines, i);
        } else {
            lemma_first_alb_counts(lines, i + 1);
        }
    }
}

proof fn lemma_counts_line(lines: Seq<Seq<char>>, i: int)
    requires
        0 <= i < lines.len(),
        alb_sample(lines[i]) is Some,
    ensures
        alb_lines(lines) > 0,
    decreases lines.len(),
{
    if i < lines.len() - 1 {
        lemma_counts_line(lines.drop_last(), i);
    }
}

struct AlbHead {
    first: Option<SampleRecord>,
    count: u64,
}

fn alb_head(lines: &Vec<String>) -> (r: AlbHead)
    ensures
        opt_sample(r.first) == first_alb_from(text::texts(lines@), 0),
        r.count == alb_lines(text::texts(lines@)),
{
    let ghost all = text::texts(lines@);
    let len: usize = lines.len();
    let mut first: Option<SampleRecord> = None;
    let mut count: u64 = 0;
    let mut i: usize = 0;
    assert(all.take(0) =~= Seq::empty());
    while i < len
        invariant
            i <= len,
            len == lines@.len(),
            all == text::texts(lines@),
            count <= i,
            count == alb_lines(all.take(i as int)),
            first is None ==> first_alb_from(all, 0) == first_alb_from(all, i as int),
            first is Some ==> opt_sample(first) == first_alb_from(all, 0),
        decreases len - i,
    {
        assert(all.take(i + 1).drop_last() =~= all.take(i as int));
        assert(all[i as int] == lines@[i as int]@);
        match alb_sample_from_line(lines[i].as_str()) {
            Some(sample) => {
                count = count + 1;
                if first.is_none() {
                    first = Some(sample);
                }
            },
            None => {},
        }
        i = i + 1;
    }
    assert(all.take(len as int) =~= all);
    AlbHead { first, count }
}

fn count_objects(lines: &Vec<String>) -> (n: u64)
    ensures
        n == object_lines(text::texts(lines@)),
{
    let ghost all = text::texts(lines@);
    let len: usize = lines.len();
    let mut count: u64 = 0;
    let mut i: usize = 0;
    assert(all.take(0) =~= Seq::empty());
    while i < len
        invariant
            i <= len,
            len == lines@.len(),
            all == text::texts(lines@),
            count <= i,
            count == object_lines(all.take(i as int)),
        decreases len - i,
    {
        assert(all.take(i + 1).drop_last() =~= all.take(i as int));
        assert(all[i as int] == lines@[i as int]@);
        let line = chars_of(lines[i].as_str());
        if line.len() > 0 && line[0] == '{' {
            count = count + 1;
        }
        i = i + 1;
    }
    assert(all.take(len as int) =~= all);
    count
}

// ------------------------------------------------------------ the whole head

/// The first line as a record of a known line-delimited producer.
pub open spec fn ndjson_record(lines: Seq<Seq<char>>) -> Option<(LogType, Json)> {
    if lines.len() == 0 {
        None
    } else {
        match json::json_of(lines[0]) {
            None => None,
            Some(value) => match ndjson::producer(value) {
                Some(log_type) => Some((log_type, value)),
                None => None,
            },
        }
    }
}

/// What the decoded head of a file is recognised as.
pub open spec fn head_kind(
    path: Seq<char>,
    s: Seq<char>,
    decoded: nat,
    head_cut: bool,
) -> DetectionModel {
    let lines = split::lines(s);
    match first_alb_from(lines, 0) {
        Some(sample) => recognised(
            path,
            LogType::AlbAccess,
            Confidence::High,
            Some(sample),
            Some(alb_lines(lines)),
            head_cut,
            decoded,
        ),
        None => match ndjson_record(lines) {
            Some((log_type, value)) => recognised(
                path,
                log_type,
                Confidence::High,
                Some(ndjson::sample_of(log_type, value)),
                Some(object_lines(lines)),
                head_cut,
                decoded,
            ),
            None => match json::first_json_of(s) {
                Some(value) => document_kind(path, value, decoded, head_cut),
                None => match partial_sample(s) {
                    Some(sample) => recognised(
                        path,
                        LogType::CloudTrail,
                        Confidence::High,
                        Some(sample),
                        Some(split::count_text_from(s, "\"eventVersion\""@, 0)),
                        head_cut,
                        decoded,
                    ),
                    None => unknown_file(path, "no recognized AWS log signature"@),
                },
            },
        },
    }
}

/// Recognises a file by the text of its decoded head: ALB lines, a line of a
/// known JSON producer, a whole document (the first one only, for several
/// gzip members give several), or the first record of one that was cut off.
pub fn classify(path: &str, text: &str, decoded: usize, head_cut: bool) -> (r: Detection)
    ensures
        r@ == head_kind(path@, text@, decoded as nat, head_cut),
{
    let lines = split_lines(text);
    let head = alb_head(&lines);
    if head.first.is_some() {
        return found(
            path,
            LogType::AlbAccess,
            Confidence::High,
            head.first,
            Some(head.count),
            head_cut,
            decoded,
        );
    }
    if lines.len() > 0 {
        assert(split::lines(text@)[0] == lines@[0]@);
        match json::parse(lines[0].as_str()) {
            Some(value) => match ndjson::classify(&value) {
                Some(log_type) => {
                    return found(
                        path,
                        log_type,
                        Confidence::High,
                        Some(ndjson::sample(log_type, &value)),
                        Some(count_objects(&lines)),
                        head_cut,
                        decoded,
                    );
                },
                None => {},
            },
            None => {},
        }
    }
    assert(ndjson_record(split::lines(text@)) is None);
    match json::parse_first(text) {
        Some(value) => {
            return classify_value(path, &value, decoded, head_cut);
        },
        None => {},
    }
    match first_record_from_partial(text) {
        Some(sample) => {
            let key = chars_of("\"eventVersion\"");
            proof {
                reveal_strlit("\"eventVersion\"");
            }
            let seen: usize = count_text(&chars_of(text), &key);
            found(
                path,
                LogType::CloudTrail,
                Confidence::High,
                Some(sample),
                Some(seen as u64),
                head_cut,
                decoded,
            )
        },
        None => Detection::unknown(path, "no recognized AWS log signature"),
    }
}

/// What a decoded head says of its file. `fault` tells how decoding ended
/// early: a cut-off member still leaves usable bytes.
pub open spec fn inspected(
    path: Seq<char>,
    head: Seq<u8>,
    fault: Option<Seq<char>>,
    members: nat,
) -> DetectionModel {
    if fault is Some && head.len() == 0 {
        unknown_file(path, "gzip decode failed: "@ + fault->Some_0)
    } else {
        let d = head_kind(
            path,
            gzip::lossy_text(head),
            head.len(),
            head.len() >= gzip::HEAD_LIMIT,
        );
        DetectionModel {
            decoded_bytes: head.len(),
            members_in_head: members,
            note: if fault is Some {
                Some("gzip stream ended early; file may be truncated"@)
            } else {
                d.note
            },
            ..d
        }
    }
}

/// What a decoded head says of its file.
pub fn inspect_head(path: &str, head: &Vec<u8>, fault: Option<String>, members: usize) -> (r:
    Detection)
    ensures
        r@ == inspected(path@, head@, text::opt(fault), members as nat),
{
    if head.len() == 0 {
        match &fault {
            Some(reason) => {
                let note = concat("gzip decode failed: ", reason.as_str());
                return Detection::unknown(path, note.as_str());
            },
            None => {},
        }
    }
    let text = gzip::lossy(head);
    let mut d = classify(path, text.as_str(), head.len(), head.len() >= gzip::HEAD_LIMIT);
    d.decoded_bytes = head.len();
    d.members_in_head = members;
    if fault.is_some() {
        d.note = Some("gzip stream ended early; file may be truncated".to_owned());
    }
    d
}

/// Whether a file starts as gzip files do.
pub open spec fn has_magic(bytes: Seq<u8>) -> bool {
    bytes.len() >= 2 && bytes[0] == 0x1f && bytes[1] == 0x8b
}

/// Whether a file that starts with these bytes starts as gzip files do.
pub fn is_gzip(bytes: &Vec<u8>) -> (b: bool)
    ensures
        b == has_magic(bytes@),
{
    bytes.len() >= 2 && bytes[0] == 0x1f && bytes[1] == 0x8b
}

/// Inspects one candidate, given the bytes it starts with. Damage is reported
/// in the result, never as an error, so one bad file cannot abort a scan. How
/// much of a damaged stream is inspected is not stated.
pub fn detect(path: &str, bytes: &Vec<u8>) -> (r: Detection)
    ensures
        bytes@.len() < 2 ==> r@ == unknown_file(path@, "not gzip: file too short"@),
        bytes@.len() >= 2 && !has_magic(bytes@) ==> r@ == unknown_file(
            path@,
            "not gzip: bad magic bytes"@,
        ),
        r.decoded_bytes <= gzip::HEAD_LIMIT,
        has_magic(bytes@) ==> {
            let members = gzip::members_from(gzip::scanned(bytes@), 0);
            match gzip::gunzipped(bytes@, gzip::HEAD_LIMIT as nat) {
                Ok(head) => r@ == inspected(path@, head, None, members),
                Err(why) => exists|head: Seq<u8>|
                    head.len() <= gzip::HEAD_LIMIT && r@ == #[trigger] inspected(
                        path@,
                        head,
                        Some(why),
                        members,
                    ),
            }
        },
{
    if bytes.len() < 2 {
        return Detection::unknown(path, "not gzip: file too short");
    }
    if !is_gzip(bytes) {
        return Detection::unknown(path, "not gzip: bad magic bytes");
    }
    let (head, fault) = gzip::inflate(bytes.as_slice(), gzip::HEAD_LIMIT);
    let members: usize = gzip::count_members_in_head(bytes);
    inspect_head(path, &head, fault, members)
}

/// Damage may degrade a detection, but what it calls a log it has a reason
/// to: only an unknown file has no confidence at all.
pub proof fn only_unknown_files_lack_confidence(
    path: Seq<char>,
    head: Seq<u8>,
    fault: Option<Seq<char>>,
    members: nat,
)
    ensures
        ({
            let d = inspected(path, head, fault, members);
            d.confidence == Confidence::Nil <==> d.log_type == LogType::Unknown
        }),
{
    let s = gzip::lossy_text(head);
    if let Some((log_type, value)) = ndjson_record(split::lines(s)) {
        assert(ndjson::producer(value) == Some(log_type));
    }
}

} // verus!
