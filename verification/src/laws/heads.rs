//! Heads of files: what is recognised first, and what a preview counts of
//! them.

use vstd::prelude::*;

use crate::detect;
use crate::detect::{Confidence, DetectError, LogType};
use crate::json;
use crate::json::Json;
use crate::laws::texts;
use crate::mapping;
use crate::mapping::FieldMap;
use crate::ndjson;
use crate::number;
use crate::parse;
use crate::parse::alb;
use crate::preview;
use crate::results::Window;
use crate::scan::ScanError;
use crate::split;
use crate::store::pass;
use crate::store::rows;
use crate::store::sql;
use crate::store::window;
use crate::store::window::Table;
use crate::store::StoreError;
use crate::model::NormalizedEvent;
use crate::text;

verus! {

// -------------------------------------------------------------- recognition

/// Load balancer lines are looked for first, then a line of a JSON producer,
/// then a document, then the first record of one that was cut off.
pub proof fn heads_are_recognised_in_order(
    path: Seq<char>,
    s: Seq<char>,
    decoded: nat,
    head_cut: bool,
)
    ensures
        ({
            let lines = split::lines(s);
            let d = detect::head_kind(path, s, decoded, head_cut);
            let balancer = exists|i: int|
                0 <= i < lines.len() && detect::alb_sample(#[trigger] lines[i]) is Some;
            let producer = lines.len() > 0 && json::json_of(lines[0]) is Some && ndjson::producer(
                json::json_of(lines[0])->Some_0,
            ) is Some;
            &&& balancer ==> d.log_type == LogType::AlbAccess && d.confidence == Confidence::High
                && d.sample is Some && d.count == Some(detect::alb_lines(lines)) && d.estimated
                == head_cut
            &&& !balancer && producer ==> d.log_type == ndjson::producer(
                json::json_of(lines[0])->Some_0,
            )->Some_0 && d.sample == Some(
                ndjson::sample_of(d.log_type, json::json_of(lines[0])->Some_0),
            ) && d.count == Some(detect::object_lines(lines)) && d.estimated == head_cut
            &&& !balancer && !producer ==> (json::first_json_of(s) matches Some(v) ==> d
                == detect::document_kind(path, v, decoded, head_cut))
            &&& !balancer && !producer && json::first_json_of(s) is None
                && detect::first_record_text(s) is None ==> d.log_type == LogType::Unknown
        }),
{
    let lines = split::lines(s);
    lemma_first_alb(lines, 0);
}

proof fn lemma_first_alb(lines: Seq<Seq<char>>, i: int)
    requires
        0 <= i,
    ensures
        detect::first_alb_from(lines, i) is Some <==> exists|k: int|
            i <= k < lines.len() && detect::alb_sample(#[trigger] lines[k]) is Some,
    decreases lines.len() - i,
{
    if i < lines.len() {
        lemma_first_alb(lines, i + 1);
        if detect::alb_sample(lines[i]) is None && detect::first_alb_from(lines, i + 1) is Some {
            let k = choose|k: int|
                i + 1 <= k < lines.len() && detect::alb_sample(#[trigger] lines[k]) is Some;
            assert(i <= k);
        }
    }
}

/// Each load balancer line counts, and each line that opens an object.
pub proof fn lines_count_one_by_one(lines: Seq<Seq<char>>, line: Seq<char>)
    ensures
        detect::alb_lines(Seq::empty()) == 0 && detect::object_lines(Seq::empty()) == 0,
        detect::alb_lines(lines.push(line)) == detect::alb_lines(lines) + if detect::alb_sample(
            line,
        ) is Some {
            1nat
        } else {
            0
        },
        detect::object_lines(lines.push(line)) == detect::object_lines(lines) + if line.len() > 0
            && line[0] == '{' {
            1nat
        } else {
            0
        },
{
    assert(lines.push(line).drop_last() =~= lines);
}

proof fn lemma_flat_end(head: Seq<char>, body: Seq<char>, rest: Seq<char>, i: int)
    requires
        0 <= i <= body.len(),
        forall|k: int|
            0 <= k < body.len() ==> #[trigger] body[k] != '{' && body[k] != '}' && body[k] != '"',
    ensures
        detect::object_end(head + body + seq!['}'] + rest, head.len() + i, 1, false, false) == Some(
            head.len() + body.len() + 1int,
        ),
    decreases body.len() - i,
{
    let s = head + body + seq!['}'] + rest;
    if i < body.len() {
        assert(s[head.len() + i] == body[i]);
        lemma_flat_end(head, body, rest, i + 1);
    } else {
        assert(s[head.len() + i] == '}');
    }
}

/// An object without strings or objects inside ends at its first closing
/// brace.
pub proof fn flat_objects_end_at_their_brace(
    head: Seq<char>,
    body: Seq<char>,
    rest: Seq<char>,
)
    requires
        forall|k: int|
            0 <= k < body.len() ==> #[trigger] body[k] != '{' && body[k] != '}' && body[k] != '"',
    ensures
        detect::object_end(
            head + seq!['{'] + body + seq!['}'] + rest,
            head.len() as int,
            0,
            false,
            false,
        ) == Some(head.len() + body.len() + 2int),
{
    let open = head + seq!['{'];
    lemma_flat_end(open, body, rest, 0);
    let s = open + body + seq!['}'] + rest;
    assert(s[head.len() as int] == '{');
}

/// A brace inside a string opens and closes nothing; the string ends at its
/// first quote that is not escaped.
pub proof fn strings_hide_their_braces(s: Seq<char>, i: int, depth: nat)
    requires
        0 <= i < s.len(),
    ensures
        s[i] == '{' || s[i] == '}' ==> detect::object_end(s, i, depth, true, false)
            == detect::object_end(s, i + 1, depth, true, false),
        s[i] == '"' ==> detect::object_end(s, i, depth, true, false) == detect::object_end(
            s,
            i + 1,
            depth,
            false,
            false,
        ) && detect::object_end(s, i, depth, true, true) == detect::object_end(
            s,
            i + 1,
            depth,
            true,
            false,
        ) && detect::object_end(s, i, depth, false, false) == detect::object_end(
            s,
            i + 1,
            depth,
            true,
            false,
        ),
        s[i] == '{' ==> detect::object_end(s, i, depth, false, false) == detect::object_end(
            s,
            i + 1,
            depth + 1,
            false,
            false,
        ),
        s[i] == '}' && depth == 1 ==> detect::object_end(s, i, depth, false, false) == Some(i + 1),
        s[i] == '}' && depth > 1 ==> detect::object_end(s, i, depth, false, false)
            == detect::object_end(s, i + 1, (depth - 1) as nat, false, false),
{
}

// ----------------------------------------------------------------- previews

/// A record counts as mapped when the event it becomes has a time and a name;
/// the names shown are those of the events.
pub proof fn previews_count_what_events_will_have(
    records: Seq<Json>,
    record: Json,
    map: FieldMap,
    log_type: LogType,
    lines: Seq<Seq<char>>,
    line: Seq<char>,
)
    ensures
        ({
            let e = parse::mapped_event(record, 0, 0, false, map);
            &&& preview::mapped_in(records.push(record), map) == preview::mapped_in(records, map)
                + if e.event_time is Some && e.event_name is Some {
                1nat
            } else {
                0
            }
            &&& preview::names_in(records.push(record), map) == match e.event_name {
                Some(n) => preview::names_in(records, map).push(n),
                None => preview::names_in(records, map),
            }
        }),
        ndjson::event_of(log_type, record, line, 0, 0, false) matches Some(e)
            ==> preview::ndjson_mapped(log_type, records.push(record)) == preview::ndjson_mapped(
            log_type,
            records,
        ) + if e.event_time is Some && e.event_name is Some {
            1nat
        } else {
            0
        } && preview::ndjson_names(log_type, records.push(record)) == match e.event_name {
            Some(n) => preview::ndjson_names(log_type, records).push(n),
            None => preview::ndjson_names(log_type, records),
        },
        preview::alb_mapped(lines.push(line)) == preview::alb_mapped(lines) + match alb::line_event(
            line,
            0,
            0,
            false,
        ) {
            Some(e) => if e.event_time is Some && e.event_name is Some {
                1nat
            } else {
                0nat
            },
            None => 0nat,
        },
        preview::mapped_in(Seq::empty(), map) == 0 && preview::alb_mapped(Seq::empty()) == 0,
{
    assert(records.push(record).drop_last() =~= records);
    assert(lines.push(line).drop_last() =~= lines);
    let e = parse::mapped_event(record, 0, 0, false, map);
    match e.event_name {
        Some(n) => {
            assert(preview::names_in(records.push(record), map) =~= preview::names_in(
                records,
                map,
            ).push(n));
        },
        None => {
            assert(preview::names_in(records.push(record), map) =~= preview::names_in(
                records,
                map,
            ));
        },
    }
    match ndjson::event_of(log_type, record, line, 0, 0, false) {
        Some(f) => {
            match f.event_name {
                Some(n) => {
                    assert(preview::ndjson_names(log_type, records.push(record))
                        =~= preview::ndjson_names(log_type, records).push(n));
                },
                None => {
                    assert(preview::ndjson_names(log_type, records.push(record))
                        =~= preview::ndjson_names(log_type, records));
                },
            }
        },
        None => {},
    }
}

/// A preview counts its records, shows the first, and can be edited only
/// where a mapping applies.
pub proof fn previews_show_the_first_record(
    records: Seq<Json>,
    map: FieldMap,
    log_type: LogType,
    lines: Seq<Seq<char>>,
    s: Seq<char>,
)
    ensures
        preview::cloudtrail_preview(records, map).records == records.len()
            && preview::cloudtrail_preview(records, map).editable,
        preview::ndjson_preview(records, log_type).records == records.len()
            && !preview::ndjson_preview(records, log_type).editable,
        preview::alb_preview(lines).records == lines.len() && !preview::alb_preview(lines).editable,
        !preview::unknown_preview(s).editable && preview::unknown_preview(s).mapped == 0,
        records.len() > 0 ==> preview::cloudtrail_preview(records, map).pieces
            == preview::cloudtrail_pieces(records[0], map) && preview::ndjson_preview(
            records,
            log_type,
        ).pieces == preview::ndjson_pieces(log_type, records[0]),
        preview::HEAD_RECORDS == 200,
{
}

/// Which preview a log type has; a digest and a snapshot have none.
pub proof fn log_types_have_their_own_preview(s: Seq<char>, map: FieldMap)
    ensures
        preview::previewed(s, LogType::CloudTrail, map) == Some(
            preview::cloudtrail_preview(preview::head_records(s), map),
        ),
        preview::previewed(s, LogType::AlbAccess, map) == Some(
            preview::alb_preview(preview::alb_kept(split::lines(s), 0, 200)),
        ),
        preview::previewed(s, LogType::WafAcl, map) == Some(
            preview::ndjson_preview(
                preview::lines_kept(LogType::WafAcl, split::lines(s), 0, 200),
                LogType::WafAcl,
            ),
        ),
        preview::previewed(s, LogType::ApigwAccess, map) == Some(
            preview::ndjson_preview(
                preview::lines_kept(LogType::ApigwAccess, split::lines(s), 0, 200),
                LogType::ApigwAccess,
            ),
        ),
        preview::previewed(s, LogType::NginxAccess, map) == Some(
            preview::ndjson_preview(
                preview::lines_kept(LogType::NginxAccess, split::lines(s), 0, 200),
                LogType::NginxAccess,
            ),
        ),
        preview::previewed(s, LogType::Unknown, map) == Some(preview::unknown_preview(s)),
        preview::previewed(s, LogType::CloudTrailDigest, map) is None,
        preview::previewed(s, LogType::ConfigSnapshot, map) is None,
{
}

/// A line that becomes no event is passed over, one that does is a record, up
/// to the limit.
pub proof fn records_are_the_lines_that_become_events(
    log_type: LogType,
    lines: Seq<Seq<char>>,
    i: int,
    left: nat,
)
    requires
        0 <= i < lines.len(),
        left > 0,
    ensures
        json::json_of(lines[i]) is None ==> preview::lines_kept(log_type, lines, i, left)
            == preview::lines_kept(log_type, lines, i + 1, left),
        json::json_of(lines[i]) matches Some(v) ==> (ndjson::event_of(
            log_type,
            v,
            lines[i],
            0,
            0,
            false,
        ) is None ==> preview::lines_kept(log_type, lines, i, left) == preview::lines_kept(
            log_type,
            lines,
            i + 1,
            left,
        )),
        json::json_of(lines[i]) matches Some(v) ==> (ndjson::event_of(
            log_type,
            v,
            lines[i],
            0,
            0,
            false,
        ) is Some ==> preview::lines_kept(log_type, lines, i, left) == seq![v]
            + preview::lines_kept(log_type, lines, i + 1, (left - 1) as nat)),
        preview::lines_kept(log_type, lines, i, 0).len() == 0,
        preview::alb_kept(lines, i, 0).len() == 0,
        lines[i].len() == 0 ==> preview::alb_kept(lines, i, left) == preview::alb_kept(
            lines,
            i + 1,
            left,
        ),
        lines[i].len() > 0 && lines[i].last() != '\r' ==> preview::alb_kept(lines, i, left) == seq![
            lines[i],
        ] + preview::alb_kept(lines, i + 1, (left - 1) as nat),
{
    assert(lines[i].take(lines[i].len() as int) =~= lines[i]);
}

/// Of a file that is no log the lines that say something are counted, and the
/// words of the first of them shown.
pub proof fn unknown_files_show_their_first_words(lines: Seq<Seq<char>>, line: Seq<char>)
    ensures
        preview::spoken_lines(lines.push(line)) == if split::trim(line).len() > 0
            && preview::spoken_lines(lines) < 200 {
            preview::spoken_lines(lines) + 1
        } else {
            preview::spoken_lines(lines)
        },
        split::trim(line).len() > 0 ==> preview::first_spoken(seq![line] + lines, 0) == Some(line),
        split::trim(line).len() == 0 ==> preview::first_spoken(seq![line] + lines, 0)
            == preview::first_spoken(seq![line] + lines, 1),
        preview::first_spoken(Seq::empty(), 0) is None,
{
    assert(lines.push(line).drop_last() =~= lines);
    assert((seq![line] + lines)[0] == line);
}

/// A chunk is read of a file that some rule wants, and of no other.
pub proof fn only_wanted_files_are_read(spans: Seq<pass::FileSpan>, wanted: Seq<bool>, i: int)
    requires
        0 <= i < spans.len(),
    ensures
        !wanted[i] ==> pass::chunks_from(spans, wanted, i) == pass::chunks_from(
            spans,
            wanted,
            i + 1,
        ),
        wanted[i] ==> pass::chunks_from(spans, wanted, i) == pass::chunks_of(
            i as usize,
            0,
            spans[i].end as nat,
        ) + pass::chunks_from(spans, wanted, i + 1),
{
}

/// A piece of a load balancer line is spelled by its position.
pub proof fn pieces_are_spelled_by_position(fields: Seq<Seq<char>>, i: int)
    requires
        0 <= i < fields.len(),
    ensures
        preview::alb_pieces(fields)[i].path == number::decimal(i as nat),
        preview::alb_pieces(fields)[i].value == fields[i],
        preview::alb_pieces(fields)[i].field == preview::alb_column(i),
{
}

// -------------------------------------------------------------------- paths

/// A position leads into a list.
pub proof fn a_position_leads_into_a_list(items: Vec<Json>, k: nat)
    requires
        k < items@.len(),
        k <= usize::MAX,
    ensures
        mapping::value_at(Json::Array(items), number::decimal(k)) == Some(items@[k as int]),
{
    crate::laws::stored::numbers_read_back(k, usize::MAX as nat);
    let key = number::decimal(k);
    crate::laws::stored::lemma_decimal(k);
    assert forall|i: int| 0 <= i < key.len() implies #[trigger] key[i] != '.' by {
        assert(text::is_digit(key[i]));
    }
    texts::splitting_undoes_joining(seq![key], '.');
    assert(texts::joined(seq![key], '.') == key);
    crate::laws::records::lemma_one_step(Json::Array(items), key);
}

// --------------------------------------------------------------------- rest

/// Rules are listed with the matches they have in the window, the most
/// matched first; one that no log of the case is meant for is not.
pub proof fn groups_list_every_rule(w: Window)
    ensures
        window::scope_binds(w) matches Some(binds) ==> (window::groups_model(w) matches Some(q)
            && q.sql == "SELECT r.rule_id, count(e.event_id), r.severity, r.description, "@
            + "r.evaluated, coalesce(r.name, r.rule_id) "@
            + "FROM rules r LEFT JOIN rule_matches e ON e.rule_id = r.rule_id "@
            + window::scope_text(w, Table::Matches) + " WHERE r.log_type IS NULL OR "@ + (
        if w.log_type is Some {
            "r.log_type = ?"@
        } else {
            "r.log_type IN (SELECT f.log_type FROM files f "@
                + "WHERE EXISTS (SELECT 1 FROM events e WHERE e.file_id = f.file_id))"@
        }) + " GROUP BY r.rule_id, r.name, r.severity, r.description, r.evaluated"@
            + " ORDER BY count(e.event_id) DESC, r.rule_id"@ && q.binds == binds + (
        match w.log_type {
            Some(t) => seq![sql::BindModel::Text(t@)],
            None => Seq::empty(),
        })),
{
}

/// The bytes that count towards a commit are those of the four bodies.
pub proof fn bodies_count_towards_a_commit(event: NormalizedEvent)
    ensures
        rows::body_size(event) == rows::text_size(event.request) + rows::text_size(event.response)
            + rows::text_size(event.resources) + rows::text_size(event.raw),
        event.request matches Some(t) ==> rows::text_size(event.request) == text::byte_len(t@),
        rows::text_size(None) == 0,
        rows::APPENDER_FLUSH_BYTES == 268_435_456,
        rows::SUMMARY_LOOKUP_BATCH == 1000,
{
}

/// A file is read in chunks of fifty thousand records, from its first on.
pub proof fn chunks_follow_each_other(file: usize, from: nat, end: nat)
    requires
        from < end,
        from + 50_000 <= u64::MAX,
    ensures
        pass::chunks_of(file, from, end).len() == 1 + pass::chunks_of(
            file,
            from + 50_000,
            end,
        ).len(),
        pass::chunks_of(file, from, end)[0].file == file,
        pass::chunks_of(file, from, end)[0].from == from,
        pass::chunks_of(file, from, end)[0].to == from + 50_000,
        pass::chunks_of(file, end, end).len() == 0,
{
}

/// What a caller is told of each failure.
pub proof fn failures_are_told_in_words(path: String, why: String, file_id: u32)
    ensures
        (ScanError::Unreadable { path, reason: why }).text() == "cannot read input directory: "@
            + path@ + " ("@ + why@ + ")"@,
        (DetectError::Io { path, reason: why }).text() == "cannot read "@ + path@ + ": "@ + why@,
        StoreError::Db(why).text() == "database error: "@ + why@,
        StoreError::MissingMeta(why).text() == "case metadata missing from "@ + why@,
        StoreError::CaseJson(why).text() == "cannot write case.json: "@ + why@,
        (StoreError::RecordIndexOverflow { file_id }).text() == "file "@ + number::decimal(
            file_id as nat,
        ) + " exceeds the 32-bit record index range"@,
        StoreError::BadDateTime(why).text() == "존재하지 않는 날짜·시각입니다: "@ + text::debug_of(
            why@,
        ),
        StoreError::RuleRun(why).text() == "rule evaluation failed: "@ + why@,
        StoreError::Cancelled.text() == "작업이 취소되었습니다"@,
        parse::ParseError::WorkerPool(why).text() == "cannot create parser worker pool: "@ + why@,
{
}

} // verus!
