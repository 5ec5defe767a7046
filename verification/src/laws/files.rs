//! Files: which ones are taken, what they are recognised as, what becomes of
//! them, and the names all that goes by.

use vstd::prelude::*;

use crate::detect;
use crate::detect::{Confidence, LogType};
use crate::gzip;
use crate::json::Json;
use crate::laws::conditions;
use crate::logging;
use crate::mapping::Field;
use crate::number;
use crate::parse;
use crate::parse::{FileStatus, JobResult};
use crate::paths;
use crate::preview::histogram;
use crate::report;
use crate::results;
use crate::scan;
use crate::scan::{Found, SkipReason};
use crate::split;
use crate::store::CaseStatus;
use crate::text;
use crate::textmap;

verus! {

// ------------------------------------------------------------------- names

/// The names of the log types, the case and file states and the degrees of
/// confidence.
pub proof fn states_go_by_their_names()
    ensures
        LogType::CloudTrail.name() == "cloudtrail"@,
        LogType::AlbAccess.name() == "alb_access"@,
        LogType::WafAcl.name() == "waf_acl"@,
        LogType::ApigwAccess.name() == "apigw_access"@,
        LogType::NginxAccess.name() == "nginx_access"@,
        LogType::CloudTrailDigest.name() == "cloudtrail_digest"@,
        LogType::ConfigSnapshot.name() == "config_snapshot"@,
        LogType::Unknown.name() == "unknown"@,
        CaseStatus::Running.name() == "running"@,
        CaseStatus::Done.name() == "done"@,
        CaseStatus::Cancelled.name() == "cancelled"@,
        CaseStatus::Failed.name() == "failed"@,
        FileStatus::Parsed.name() == "parsed"@,
        FileStatus::Skipped.name() == "skipped"@,
        FileStatus::Failed.name() == "failed"@,
        report::confidence_text(Confidence::High) == "high"@,
        report::confidence_text(Confidence::Low) == "low"@,
        report::confidence_text(Confidence::Nil) == "none"@,
{
}

/// The keys of the columns, and the record keys they are read from unless a
/// mapping says otherwise.
pub proof fn columns_have_their_own_source()
    ensures
        Field::EventTime.key_text() == "event_time"@,
        Field::EventSource.key_text() == "event_source"@,
        Field::EventName.key_text() == "event_name"@,
        Field::AwsRegion.key_text() == "aws_region"@,
        Field::AccountId.key_text() == "account_id"@,
        Field::SourceIp.key_text() == "source_ip"@,
        Field::UserAgent.key_text() == "user_agent"@,
        Field::IdentityType.key_text() == "identity_type"@,
        Field::IdentityArn.key_text() == "identity_arn"@,
        Field::IdentityName.key_text() == "identity_name"@,
        Field::MfaAuthenticated.key_text() == "mfa_authenticated"@,
        Field::ErrorCode.key_text() == "error_code"@,
        Field::ErrorMessage.key_text() == "error_message"@,
        Field::ReadOnly.key_text() == "read_only"@,
        Field::ManagementEvent.key_text() == "management_event"@,
        Field::Request.key_text() == "request"@,
        Field::Response.key_text() == "response"@,
        Field::Resources.key_text() == "resources"@,
        Field::EventTime.default_paths() == seq!["eventTime"@],
        Field::EventSource.default_paths() == seq!["eventSource"@],
        Field::EventName.default_paths() == seq!["eventName"@],
        Field::AwsRegion.default_paths() == seq!["awsRegion"@],
        Field::AccountId.default_paths() == seq!["recipientAccountId"@],
        Field::SourceIp.default_paths() == seq!["sourceIPAddress"@],
        Field::UserAgent.default_paths() == seq!["userAgent"@],
        Field::IdentityType.default_paths() == seq!["userIdentity.type"@],
        Field::IdentityArn.default_paths() == seq!["userIdentity.arn"@],
        Field::IdentityName.default_paths() == seq!["userIdentity.userName"@, "userIdentity.sessionContext.sessionIssuer.userName"@],
        Field::MfaAuthenticated.default_paths() == seq!["userIdentity.sessionContext.attributes.mfaAuthenticated"@, "additionalEventData.MFAUsed"@],
        Field::ErrorCode.default_paths() == seq!["errorCode"@],
        Field::ErrorMessage.default_paths() == seq!["errorMessage"@],
        Field::ReadOnly.default_paths() == seq!["readOnly"@],
        Field::ManagementEvent.default_paths() == seq!["managementEvent"@],
        Field::Request.default_paths() == seq!["requestParameters"@],
        Field::Response.default_paths() == seq!["responseElements"@],
        Field::Resources.default_paths() == seq!["resources"@],
{
}

// -------------------------------------------------------------------- scan

/// A file is a candidate when its name ends in `.gz`, in any case, and it has
/// bytes; what the system left behind is passed over without a word.
pub proof fn gzip_names_are_taken(base: Seq<char>, tail: Seq<char>, size: Option<u64>)
    requires
        conditions::same_but_case(tail, ".gz"@),
        !scan::is_metadata(base + tail),
    ensures
        scan::fate(Some(base + tail), size) == match size {
            Some(bytes) => if bytes > 0 {
                Found::Taken(bytes)
            } else {
                Found::Skipped(SkipReason::Empty)
            },
            None => Found::Skipped(SkipReason::Unreadable),
        },
{
    let name = base + tail;
    conditions::lemma_same_but_case(tail, ".gz"@);
    reveal_strlit(".gz");
    let lower = text::fold(name);
    assert(text::fold(".gz"@) =~= ".gz"@);
    assert(lower.subrange(base.len() as int, lower.len() as int) =~= text::fold(tail));
    assert(split::is_at(lower, ".gz"@, lower.len() - ".gz"@.len()));
}

/// Other names are skipped for their extension.
pub proof fn other_names_are_skipped(name: Seq<char>, size: Option<u64>)
    requires
        !scan::is_metadata(name),
        name.len() < 3 || !conditions::same_but_case(name.skip(name.len() - 3), ".gz"@),
    ensures
        scan::fate(Some(name), size) == Found::Skipped(SkipReason::Extension),
        scan::fate(None, size) == Found::Skipped(SkipReason::Extension),
{
    reveal_strlit(".gz");
    assert(".gz"@.len() == 3);
    assert(text::fold(".gz"@) =~= ".gz"@);
    let lower = text::fold(name);
    if name.len() >= 3 {
        let tail = name.skip(name.len() - 3);
        conditions::lemma_same_but_case(tail, ".gz"@);
        assert(lower.subrange(lower.len() - 3, lower.len() as int) =~= text::fold(tail));
    }
}

/// What the system leaves behind: four names in any case, and the twins that
/// start with a dot and an underscore.
pub proof fn system_files_are_known_by_name(name: Seq<char>)
    ensures
        conditions::same_but_case(name, ".ds_store"@) || conditions::same_but_case(
            name,
            "thumbs.db"@,
        ) || conditions::same_but_case(name, "desktop.ini"@) || conditions::same_but_case(
            name,
            ".localized"@,
        ) || (name.len() >= 2 && name[0] == '.' && name[1] == '_') <==> scan::is_metadata(name),
{
    reveal_strlit(".ds_store");
    reveal_strlit("thumbs.db");
    reveal_strlit("desktop.ini");
    reveal_strlit(".localized");
    reveal_strlit("._");
    assert(text::fold(".ds_store"@) =~= ".ds_store"@);
    assert(text::fold("thumbs.db"@) =~= "thumbs.db"@);
    assert(text::fold("desktop.ini"@) =~= "desktop.ini"@);
    assert(text::fold(".localized"@) =~= ".localized"@);
    conditions::lemma_same_but_case(name, ".ds_store"@);
    conditions::lemma_same_but_case(name, "thumbs.db"@);
    conditions::lemma_same_but_case(name, "desktop.ini"@);
    conditions::lemma_same_but_case(name, ".localized"@);
    let lower = text::fold(name);
    assert("._"@.len() == 2);
    if name.len() >= 2 {
        let a: char = name[0];
        let b: char = name[1];
        assert(lower[0] == text::lower(a));
        assert(lower[1] == text::lower(b));
        assert(lower.subrange(0, 2)[0] == lower[0]);
        assert(lower.subrange(0, 2)[1] == lower[1]);
        if name[0] == '.' && name[1] == '_' {
            assert(lower.subrange(0, 2) =~= "._"@);
        }
    }
}

// ----------------------------------------------------------------- kinds

/// A whole document is known by its keys: a digest by two, a snapshot by its
/// items, a trail by its records. The sample is the first record.
pub proof fn documents_are_known_by_their_keys(
    path: Seq<char>,
    value: Json,
    decoded: nat,
    estimated: bool,
)
    ensures
        ({
            let d = detect::document_kind(path, value, decoded, estimated);
            let digest = value.member("digestPublicKeyFingerprint"@) is Some && value.member(
                "logFiles"@,
            ) is Some;
            &&& digest ==> d.log_type == LogType::CloudTrailDigest && d.confidence
                == Confidence::High && d.count is None && d.sample is None
            &&& !digest ==> (value.member("configurationItems"@) matches Some(Json::Array(items))
                ==> d.log_type == LogType::ConfigSnapshot && d.confidence == Confidence::High
                && d.count == Some(items@.len()) && d.sample is None)
            &&& !digest && value.member("configurationItems"@) is None ==> (value.member(
                "Records"@,
            ) matches Some(Json::Array(records)) ==> d.log_type == LogType::CloudTrail && d.count
                == Some(records@.len()) && (records@.len() == 0 ==> d.confidence
                == Confidence::High && d.sample is None))
            &&& !digest && value.member("configurationItems"@) is None && value.member("Records"@)
                is None ==> d.log_type == LogType::Unknown && d.note == Some(
                "no recognized AWS log signature"@,
            )
            &&& d.log_type != LogType::Unknown ==> d.path == path && d.estimated == estimated
                && d.decoded_bytes == decoded && d.note is None
        }),
{
}

/// A trail whose first record lacks one of three keys is recognised with low
/// confidence and without a sample.
pub proof fn trails_are_trusted_by_three_keys(
    path: Seq<char>,
    value: Json,
    records: Vec<Json>,
    decoded: nat,
    estimated: bool,
)
    requires
        value.member("digestPublicKeyFingerprint"@) is None,
        value.member("configurationItems"@) is None,
        value.member("Records"@) == Some(Json::Array(records)),
        records@.len() > 0,
    ensures
        ({
            let d = detect::document_kind(path, value, decoded, estimated);
            let first = records@[0];
            if first.member("eventVersion"@) is Some && first.member("eventSource"@) is Some
                && first.member("eventTime"@) is Some {
                d.confidence == Confidence::High && (d.sample matches Some(s) && s.event_time
                    == first.text_at("eventTime"@) && s.event_source == first.text_at(
                    "eventSource"@,
                ) && s.event_name == first.text_at("eventName"@) && s.aws_region == first.text_at(
                    "awsRegion"@,
                ) && s.source_ip_address == first.text_at("sourceIPAddress"@)
                    && s.user_identity_type == (match first.member("userIdentity"@) {
                    Some(who) => who.text_at("type"@),
                    None => None,
                }) && s.user_identity_arn == (match first.member("userIdentity"@) {
                    Some(who) => who.text_at("arn"@),
                    None => None,
                }))
            } else {
                d.confidence == Confidence::Low && d.sample is None
            }
        }),
{
}

// -------------------------------------------------------------------- gzip

/// A gzip file starts with the bytes 31 and 139.
pub proof fn gzip_files_start_with_two_bytes(bytes: Seq<u8>)
    ensures
        detect::has_magic(bytes) <==> bytes.len() >= 2 && bytes[0] == 31 && bytes[1] == 139,
{
}

/// A member is counted where its three bytes stand, and the search goes on
/// behind its header.
pub proof fn members_are_counted_by_their_header(bytes: Seq<u8>, i: int)
    requires
        0 <= i,
    ensures
        i + 2 < bytes.len() && bytes[i] == 31 && bytes[i + 1] == 139 && bytes[i + 2] == 8
            ==> gzip::members_from(bytes, i) == 1 + gzip::members_from(bytes, i + 10),
        i + 2 < bytes.len() && !(bytes[i] == 31 && bytes[i + 1] == 139 && bytes[i + 2] == 8)
            ==> gzip::members_from(bytes, i) == gzip::members_from(bytes, i + 1),
        i + 2 >= bytes.len() ==> gzip::members_from(bytes, i) == 0,
{
}

/// The size in the trailer is believed of a single member, and only where it
/// is less than a thousand times the file.
pub proof fn trailers_tell_the_size(a: u8, b: u8, c: u8, d: u8, len: nat, members: nat)
    requires
        len >= 18,
    ensures
        ({
            let size = a as nat + 256 * b as nat + 65536 * c as nat + 16777216 * d as nat;
            &&& members <= 1 && 0 < size < len ==> gzip::size_of(seq![a, b, c, d], len, members)
                == Some(size)
            &&& members <= 1 && 0 < size && size / len < 1000 ==> gzip::size_of(
                seq![a, b, c, d],
                len,
                members,
            ) == Some(size)
            &&& members > 1 || size == 0 || size / len >= 1000 ==> gzip::size_of(
                seq![a, b, c, d],
                len,
                members,
            ) is None
        }),
        gzip::size_of(seq![a, b, c, d], 17, members) is None,
{
    let size = a as nat + 256 * b as nat + 65536 * c as nat + 16777216 * d as nat;
    let s = seq![a, b, c, d];
    assert(s[0] == a && s[1] == b && s[2] == c && s[3] == d);
    assert(gzip::little_endian(s) == size);
    if 0 < size < len {
        assert(size / len == 0) by (nonlinear_arith)
            requires
                0 < size < len,
        ;
    }
}

// --------------------------------------------------------------------- runs

/// What the store is told of a file, by how its parse went.
pub proof fn files_are_marked_by_how_they_went(job: JobResult)
    ensures
        ({
            let m = parse::mark_of(job);
            &&& m.file_id == job.file_id
            &&& job.parsed is None ==> m.status == FileStatus::Skipped && m.note == Some(
                "cancelled before parse"@,
            ) && m.record_count == Some(0u64)
            &&& job.parsed matches Some(Err(why)) ==> m.status == FileStatus::Failed && m.note
                == Some(why@) && m.record_count is None
            &&& job.parsed matches Some(Ok(p)) ==> (p.count == 0 ==> m.status
                == FileStatus::Skipped && m.note == Some("no supported log records"@))
            &&& job.parsed matches Some(Ok(p)) ==> (p.count > 0 ==> m.status == FileStatus::Parsed
                && m.record_count == Some(p.count) && m.note == (if p.malformed > 0 {
                Some(number::decimal(p.malformed as nat) + " malformed ALB records skipped"@)
            } else {
                None
            }))
            &&& parse::failure_of(job).len() == if m.note is Some && m.status
                != FileStatus::Skipped {
                1nat
            } else {
                0
            }
        }),
{
}

/// Two decoders at least and four at most, as many as the machine runs at
/// once in between.
pub proof fn decoders_are_two_to_four(n: usize)
    ensures
        parse::workers_for(None) == 2,
        2 <= parse::workers_for(Some(n)) <= 4,
        2 <= n <= 4 ==> parse::workers_for(Some(n)) == n,
        n < 2 ==> parse::workers_for(Some(n)) == 2,
        n > 4 ==> parse::workers_for(Some(n)) == 4,
{
}

/// A page has at least one row and at most a thousand.
pub proof fn pages_have_one_to_a_thousand_rows(limit: u64)
    ensures
        1 <= results::page_size(limit) <= 1000,
        1 <= limit <= 1000 ==> results::page_size(limit) == limit,
        limit == 0 ==> results::page_size(limit) == 1,
        limit > 1000 ==> results::page_size(limit) == 1000,
{
}

/// A line loses the line breaks at its end and nothing else.
pub proof fn lines_lose_their_breaks(line: Seq<char>, breaks: Seq<char>)
    requires
        line.len() > 0 ==> line.last() != '\n' && line.last() != '\r',
        forall|i: int|
            0 <= i < breaks.len() ==> #[trigger] breaks[i] == '\n' || breaks[i] == '\r',
    ensures
        parse::chomped(line + breaks) == line,
{
    lemma_breaks(line, breaks, breaks.len() as int);
    assert((line + breaks).take(line.len() as int) =~= line);
}

proof fn lemma_breaks(line: Seq<char>, breaks: Seq<char>, k: int)
    requires
        0 <= k <= breaks.len(),
        line.len() > 0 ==> line.last() != '\n' && line.last() != '\r',
        forall|i: int|
            0 <= i < breaks.len() ==> #[trigger] breaks[i] == '\n' || breaks[i] == '\r',
    ensures
        parse::line_end(line + breaks, line.len() + k) == line.len(),
    decreases k,
{
    let s = line + breaks;
    if k > 0 {
        assert(s[line.len() + k - 1] == breaks[k - 1]);
        lemma_breaks(line, breaks, k - 1);
    } else if line.len() > 0 {
        assert(s[line.len() - 1] == line.last());
    }
}

// ---------------------------------------------------------------- case ids

/// A letter or digit of a name stays in its id, in lower case; anything else
/// becomes one dash between two of them.
pub proof fn ids_keep_letters_and_digits(name: Seq<char>, c: char)
    ensures
        'a' <= c <= 'z' || '0' as u32 <= c as u32 <= '9' as u32 ==> paths::slug_upto(
            name.push(c),
            name.len() + 1,
        ) == paths::slug_upto(name, name.len()).push(c),
        c == ' ' || c == '/' || c == '.' || c == '_' || c == '-' ==> ({
            let before = paths::slug_upto(name, name.len());
            paths::slug_upto(name.push(c), name.len() + 1) == if before.len() > 0 && before.last()
                != '-' {
                before.push('-')
            } else {
                before
            }
        }),
{
    lemma_slug(name, name.push(c), name.len());
    assert(name.push(c)[name.len() as int] == c);
}

proof fn lemma_slug(a: Seq<char>, b: Seq<char>, n: nat)
    requires
        n <= a.len(),
        n <= b.len(),
        forall|i: int| 0 <= i < n ==> #[trigger] a[i] == b[i],
    ensures
        paths::slug_upto(a, n) == paths::slug_upto(b, n),
    decreases n,
{
    if n > 0 {
        assert(a[n - 1] == b[n - 1]);
        lemma_slug(a, b, (n - 1) as nat);
    }
}

/// A case id is the start, a dash and the name's letters; a second attempt
/// adds its number, counted from one.
pub proof fn case_ids_count_their_attempts(started: Seq<char>, name: Seq<char>, attempt: nat)
    ensures
        paths::case_id_text(started, name, 0) == started + "-"@ + paths::slug_of(name),
        attempt > 0 ==> paths::case_id_text(started, name, attempt) == paths::case_id_text(
            started,
            name,
            0,
        ) + "-"@ + number::decimal(attempt + 1),
{
}

// ------------------------------------------------------------------- orders

/// The smaller byte at the first difference comes first; a text comes before
/// one that goes on from it.
pub proof fn bytes_decide_at_the_first_difference(a: Seq<u8>, b: Seq<u8>, k: int)
    requires
        0 <= k <= a.len(),
        k < b.len(),
        forall|j: int| 0 <= j < k ==> #[trigger] a[j] == b[j],
    ensures
        k < a.len() && a[k] < b[k] ==> textmap::bytes_lt(a, b, 0) && !textmap::bytes_lt(b, a, 0),
        k == a.len() ==> textmap::bytes_lt(a, b, 0) && !textmap::bytes_lt(b, a, 0),
{
    lemma_bytes(a, b, k, 0);
}

proof fn lemma_bytes(a: Seq<u8>, b: Seq<u8>, k: int, i: int)
    requires
        0 <= i <= k <= a.len(),
        k < b.len(),
        forall|j: int| 0 <= j < k ==> #[trigger] a[j] == b[j],
    ensures
        textmap::bytes_lt(a, b, i) == textmap::bytes_lt(a, b, k),
        textmap::bytes_lt(b, a, i) == textmap::bytes_lt(b, a, k),
    decreases k - i,
{
    if i < k {
        assert(a[i] == b[i]);
        lemma_bytes(a, b, k, i + 1);
    }
}

/// Paths are ordered by the first part in which they differ; a directory
/// comes before what lies in it.
pub proof fn paths_are_ordered_part_by_part(a: Seq<Seq<char>>, b: Seq<Seq<char>>, k: int)
    requires
        0 <= k <= a.len(),
        k < b.len(),
        forall|j: int| 0 <= j < k ==> #[trigger] a[j] == b[j],
    ensures
        k < a.len() && a[k] != b[k] ==> scan::path_lt(a, b, 0) == textmap::text_lt(a[k], b[k]),
        k == a.len() ==> scan::path_lt(a, b, 0),
{
    lemma_path(a, b, k, 0);
}

proof fn lemma_path(a: Seq<Seq<char>>, b: Seq<Seq<char>>, k: int, i: int)
    requires
        0 <= i <= k <= a.len(),
        k < b.len(),
        forall|j: int| 0 <= j < k ==> #[trigger] a[j] == b[j],
    ensures
        scan::path_lt(a, b, i) == scan::path_lt(a, b, k),
    decreases k - i,
{
    if i < k {
        assert(a[i] == b[i]);
        lemma_path(a, b, k, i + 1);
    }
}

/// The more frequent name ranks first, of two equally frequent ones the
/// smaller.
pub proof fn frequent_names_rank_first(a: histogram::CountModel, b: histogram::CountModel)
    ensures
        a.count > b.count ==> histogram::ranks_before(a, b) && !histogram::ranks_before(b, a),
        a.count == b.count ==> histogram::ranks_before(a, b) == textmap::text_lt(a.name, b.name),
{
}

// ------------------------------------------------------------------- notes

/// What is said of a head that could not be decoded whole.
pub proof fn cut_off_files_are_noted(
    path: Seq<char>,
    head: Seq<u8>,
    why: Seq<char>,
    members: nat,
)
    ensures
        ({
            let d = detect::inspected(path, head, Some(why), members);
            &&& head.len() == 0 ==> d.log_type == LogType::Unknown && d.note == Some(
                "gzip decode failed: "@ + why,
            )
            &&& head.len() > 0 ==> d.note == Some(
                "gzip stream ended early; file may be truncated"@,
            ) && d.members_in_head == members && d.decoded_bytes == head.len()
        }),
        detect::inspected(path, head, None, members).members_in_head == members,
        detect::inspected(path, head, None, members).decoded_bytes == head.len(),
        gzip::HEAD_LIMIT == 262_144 && gzip::MEMBER_SCAN_LIMIT == 1_048_576,
{
}

/// Bytes that came out are used, and marked where a fault cut them short; a
/// fault with none is the answer.
pub proof fn decoded_bytes_are_used(
    r: Result<(Vec<u8>, bool), String>,
    head: Seq<u8>,
    why: Seq<char>,
)
    ensures
        gzip::is_usable(r, head, None) ==> (r matches Ok((all, early)) && all@ == head && !early),
        gzip::is_usable(r, head, Some(why)) && head.len() > 0 ==> (r matches Ok((all, early))
            && all@ == head && early),
        gzip::is_usable(r, head, Some(why)) && head.len() == 0 ==> (r matches Err(e) && e@ == why),
{
}

/// A reason to skip a file is told by its own kind; the review step keeps the
/// files it lists, or all where it lists none.
pub proof fn skipped_and_kept_files_are_told_apart(kept: Vec<String>, display: Seq<char>)
    ensures
        report::kind_of(SkipReason::Extension) == report::SkipKind::Extension,
        report::kind_of(SkipReason::Empty) == report::SkipKind::Empty,
        report::kind_of(SkipReason::Unreadable) == report::SkipKind::Unreadable,
        parse::is_selected(None, display),
        parse::is_selected(Some(kept), display) <==> text::texts(kept@).contains(display),
{
}

/// What is said of a file none of whose records could be read.
pub proof fn unread_files_are_noted(log_type: LogType, malformed: nat)
    ensures
        parse::no_valid_records(parse::kind_name(log_type), malformed) == "no valid "@ + (
        if log_type == LogType::AlbAccess {
            "ALB"@
        } else {
            log_type.name()
        }) + " records; "@ + number::decimal(malformed) + " malformed records"@,
{
}

// -------------------------------------------------------------------- logs

proof fn lemma_kept(s: Seq<char>, i: int, used: nat)
    requires
        0 <= i <= s.len(),
        used == text::byte_len(s.take(i)),
        text::byte_len(s) <= 80,
        forall|j: int|
            0 <= j < s.len() ==> #[trigger] s[j] != '{' && s[j] != '[' && s[j] != '"',
    ensures
        logging::kept_from(s, i, used) == s.len(),
    decreases s.len() - i,
{
    if i < s.len() {
        assert(s.take(i + 1).drop_last() =~= s.take(i));
        assert(s.take(i + 1).last() == s[i]);
        lemma_prefix_len(s, i + 1);
        lemma_kept(s, i + 1, text::byte_len(s.take(i + 1)));
    }
}

proof fn lemma_prefix_len(s: Seq<char>, i: int)
    requires
        0 <= i <= s.len(),
    ensures
        text::byte_len(s.take(i)) <= text::byte_len(s),
    decreases s.len() - i,
{
    if i < s.len() {
        assert(s.take(i + 1).drop_last() =~= s.take(i));
        lemma_prefix_len(s, i + 1);
    } else {
        assert(s.take(i) =~= s);
    }
}

/// A short reason without structure in it is logged as it is.
pub proof fn plain_reasons_are_logged_whole(s: Seq<char>)
    requires
        text::byte_len(s) <= 80,
        forall|j: int|
            0 <= j < s.len() ==> #[trigger] s[j] != '{' && s[j] != '[' && s[j] != '"',
        s.len() > 0 ==> !text::is_space(s.last()),
    ensures
        logging::redacted(s) == s,
{
    assert(s.take(0) =~= Seq::empty());
    lemma_kept(s, 0, 0);
    assert(s.take(s.len() as int) =~= s);
}

/// A log line is the time, the level and the message, and ends there.
pub proof fn log_lines_say_when_and_how_grave(
    stamp: Seq<char>,
    level: Seq<char>,
    message: Seq<char>,
    index: u64,
)
    ensures
        logging::line_text(stamp, level, message) == stamp + " "@ + level + " "@ + message + "\n"@,
        logging::record_failure_message(stamp, index, message) == stamp + " record "@
            + number::decimal(index as nat) + ": "@ + logging::redacted(message),
        logging::file_skipped_message(stamp, message) == stamp + " skipped: "@ + logging::redacted(
            message,
        ),
        forall|c: char| #[trigger]
            logging::opens_payload(c) <==> c == '{' || c == '[' || c == '"',
{
}

} // verus!
