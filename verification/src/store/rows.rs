//! Events and hits as rows: their ids, when buffered rows are committed, and
//! how summaries are looked up again.

use vstd::prelude::*;

use crate::json;
use crate::json::{object, push_member, text_member};
use crate::model::NormalizedEvent;
use crate::number;
use crate::number::decimal_text;
use crate::rule::set::Hit;
use crate::split;
use crate::split::joined;
use crate::stamp;
use crate::stamp::{from_unix_nanos, Stamp};
use crate::store::sql;
use crate::store::sql::{Bind, Query};
use crate::store::StoreError;
use crate::text;
use crate::text::byte_count;
use crate::textmap::TextMap;

verus! {

// ----------------------------------------------------------------- event ids

/// The id of an event: its file in the upper half, its record in the lower.
pub open spec fn packed(file_id: u32, record_index: u64) -> int {
    file_id * 0x1_0000_0000 + record_index
}

/// The id of an event. A record index beyond 32 bits has none.
pub fn event_id(file_id: u32, record_index: u64) -> (r: Result<u64, StoreError>)
    ensures
        match r {
            Ok(id) => record_index <= u32::MAX && id == packed(file_id, record_index),
            Err(e) => record_index > u32::MAX && e == (StoreError::RecordIndexOverflow {
                file_id,
            }),
        },
{
    if record_index > u32::MAX as u64 {
        return Err(StoreError::RecordIndexOverflow { file_id });
    }
    Ok(file_id as u64 * 0x1_0000_0000 + record_index)
}

/// The file an event id belongs to.
pub fn file_of(event_id: u64) -> (file_id: u32)
    ensures
        file_id == event_id / 0x1_0000_0000,
{
    (event_id / 0x1_0000_0000) as u32
}

/// Ids tell events apart, name their file, and ascend as the files do and the
/// records within them.
pub proof fn event_ids_order_events(file: u32, record: u64, other_file: u32, other: u64)
    requires
        record <= u32::MAX,
        other <= u32::MAX,
    ensures
        packed(file, record) <= u64::MAX,
        packed(file, record) / 0x1_0000_0000 == file,
        packed(file, record) == packed(other_file, other) <==> file == other_file && record
            == other,
        packed(file, record) < packed(other_file, other) <==> file < other_file || (file
            == other_file && record < other),
{
}

// ------------------------------------------------------------------- writing

/// The appender buffers rows outside the database's memory limit before it
/// commits. Rows with large JSON bodies put that in the gigabytes, so the
/// writer also commits by bytes.
pub const APPENDER_FLUSH_BYTES: usize = 256 * 1024 * 1024;

pub open spec fn text_size(text: Option<String>) -> nat {
    match text {
        Some(t) => text::byte_len(t@),
        None => 0,
    }
}

/// The bytes of an event that count towards the next commit.
pub open spec fn body_size(event: NormalizedEvent) -> nat {
    text_size(event.request) + text_size(event.response) + text_size(event.resources) + text_size(
        event.raw,
    )
}

fn add_size(total: usize, text: &Option<String>) -> (n: usize)
    ensures
        n == (if total + text_size(*text) <= usize::MAX {
            total + text_size(*text)
        } else {
            usize::MAX as int
        }),
{
    match text {
        Some(t) => {
            let size: usize = byte_count(t.as_str());
            if total <= usize::MAX - size {
                total + size
            } else {
                usize::MAX
            }
        },
        None => total,
    }
}

/// What a row of the events table starts with: its id, and the time as the
/// database stores it.
#[derive(Debug, Clone, Copy, PartialEq, Eq, Structural)]
pub struct RowKey {
    pub event_id: u64,
    pub time_micros: Option<i64>,
}

/// Decides, event by event, what is appended and when the appender commits.
pub struct EventWriter {
    pending_bytes: usize,
}

impl EventWriter {
    /// Text bytes handed to the appender since its last commit.
    pub closed spec fn pending(self) -> nat {
        self.pending_bytes as nat
    }

    #[verifier::type_invariant]
    spec fn wf(self) -> bool {
        self.pending_bytes < APPENDER_FLUSH_BYTES
    }

    pub fn new() -> (r: EventWriter)
        ensures
            r.pending() == 0,
    {
        EventWriter { pending_bytes: 0 }
    }

    /// The key of an event's row, and whether the appender has to commit once
    /// the row is in. Between two events less than the commit size is
    /// pending.
    pub fn append(&mut self, event: &NormalizedEvent) -> (r: Result<(RowKey, bool), StoreError>)
        ensures
            match r {
                Ok((key, commit)) => {
                    &&& event.record_index <= u32::MAX
                    &&& key.event_id == packed(event.file_id, event.record_index)
                    &&& key.time_micros == stored_time(*event)
                    &&& commit == (old(self).pending() + body_size(*event) >= APPENDER_FLUSH_BYTES)
                    &&& final(self).pending() == (if commit {
                        0
                    } else {
                        old(self).pending() + body_size(*event)
                    })
                },
                Err(e) => {
                    &&& event.record_index > u32::MAX
                    &&& e == (StoreError::RecordIndexOverflow { file_id: event.file_id })
                    &&& final(self).pending() == old(self).pending()
                },
            },
            final(self).pending() < APPENDER_FLUSH_BYTES,
    {
        proof {
            use_type_invariant(&*self);
        }
        let id: u64 = match event_id(event.file_id, event.record_index) {
            Ok(id) => id,
            Err(e) => return Err(e),
        };
        let time_micros: Option<i64> = match event.event_time {
            Some(at) => at.unix_micros(),
            None => None,
        };
        let a: usize = add_size(self.pending_bytes, &event.request);
        let b: usize = add_size(a, &event.response);
        let c: usize = add_size(b, &event.resources);
        let total: usize = add_size(c, &event.raw);
        let commit = total >= APPENDER_FLUSH_BYTES;
        if commit {
            self.pending_bytes = 0;
        } else {
            self.pending_bytes = total;
        }
        Ok((RowKey { event_id: id, time_micros }, commit))
    }
}

/// The time of an event as the database stores it.
pub open spec fn stored_time(event: NormalizedEvent) -> Option<i64> {
    match event.event_time {
        Some(at) => {
            let us = stamp::truncated(at.unix_nanos(), 1000);
            if i64::MIN <= us <= i64::MAX {
                Some(us as i64)
            } else {
                None
            }
        },
        None => None,
    }
}

/// A time in UTC, in whole microseconds and within the calendar.
pub open spec fn is_storable(at: Stamp) -> bool {
    at.offset == 0 && at.local % 1000 == 0 && stamp::in_calendar(at.local as int)
}

/// The time that stored microseconds name, in UTC.
pub open spec fn time_at(micros: Option<i64>) -> Option<Stamp> {
    match micros {
        Some(us) => if stamp::in_calendar(us * 1000) {
            Some(Stamp { local: (us * 1000) as i128, offset: 0 })
        } else {
            None
        },
        None => None,
    }
}

/// The time of an event as a pass reads it back.
pub fn read_time(micros: Option<i64>) -> (r: Option<Stamp>)
    ensures
        r == time_at(micros),
{
    match micros {
        Some(us) => from_unix_nanos(us as i128 * 1000),
        None => None,
    }
}

pub proof fn lemma_storable(event: NormalizedEvent)
    requires
        event.event_time matches Some(at) && is_storable(at),
    ensures
        time_at(stored_time(event)) == event.event_time,
{
    let nanos = event.event_time->Some_0.local as int;
    assert(nanos % 1000 == 0);
    if nanos < 0 {
        assert((-nanos) % 1000 == 0);
    }
    assert(stamp::truncated(nanos, 1000) * 1000 == nanos);
}

// ------------------------------------------------------------------- matches

/// The log type of a file, empty for one the case does not hold.
pub open spec fn type_from(types: Seq<(u32, String)>, file_id: u32, i: int) -> Seq<char>
    decreases types.len() - i,
{
    if i < 0 || i >= types.len() {
        Seq::empty()
    } else if types[i].0 == file_id {
        types[i].1@
    } else {
        type_from(types, file_id, i + 1)
    }
}

/// The log type of the file an event belongs to.
pub fn type_of_event(types: &Vec<(u32, String)>, event_id: u64) -> (out: String)
    ensures
        out@ == type_from(types@, (event_id / 0x1_0000_0000) as u32, 0),
{
    let file_id: u32 = file_of(event_id);
    let n: usize = types.len();
    let mut i: usize = 0;
    while i < n
        invariant
            i <= n,
            n == types@.len(),
            file_id == (event_id / 0x1_0000_0000) as u32,
            type_from(types@, file_id, 0) == type_from(types@, file_id, i as int),
        decreases n - i,
    {
        let entry = &types[i];
        if entry.0 == file_id {
            return entry.1.as_str().to_owned();
        }
        i = i + 1;
    }
    String::new()
}

/// A row of the match table, but for the summary of its event.
#[derive(Debug)]
pub struct MatchRecord {
    pub match_id: u64,
    pub rule_id: String,
    pub event_id: u64,
    /// JSON object of `$var` to the value that satisfied it.
    pub fields: String,
    pub log_type: String,
}

pub ghost struct RecordModel {
    pub match_id: int,
    pub rule_id: Seq<char>,
    pub event_id: u64,
    pub fields: Seq<char>,
    pub log_type: Seq<char>,
}

impl View for MatchRecord {
    type V = RecordModel;

    open spec fn view(&self) -> RecordModel {
        RecordModel {
            match_id: self.match_id as int,
            rule_id: self.rule_id@,
            event_id: self.event_id,
            fields: self.fields@,
            log_type: self.log_type@,
        }
    }
}

/// The members that evidence is stored as, in the order of their names.
pub open spec fn evidence_members(keys: Seq<Seq<char>>, values: Seq<String>) -> Seq<json::Member> {
    Seq::new(
        keys.len(),
        |i: int| json::Member { key: keys[i], value: json::quote(values[i]@) },
    )
}

/// Evidence as a JSON object.
pub fn evidence_text(fields: &TextMap<String>) -> (out: String)
    ensures
        out@ == json::object_text(evidence_members(fields.keys(), fields.values())),
{
    let n: usize = fields.len();
    let mut members: Vec<(String, String)> = Vec::new();
    let ghost all = evidence_members(fields.keys(), fields.values());
    let mut i: usize = 0;
    assert(json::member_models(members@) =~= all.take(0));
    while i < n
        invariant
            i <= n,
            n == fields.keys().len(),
            all == evidence_members(fields.keys(), fields.values()),
            json::member_models(members@) == all.take(i as int),
        decreases n - i,
    {
        let (key, value): (&str, &String) = fields.entry(i);
        push_member(&mut members, key, text_member(Some(value.as_str())));
        i = i + 1;
        assert(json::member_models(members@) =~= all.take(i as int));
    }
    assert(all.take(n as int) =~= all);
    object(&members)
}

/// The row that a hit becomes.
pub open spec fn record_of(
    match_id: int,
    rule_id: Seq<char>,
    hit: Hit,
    types: Seq<(u32, String)>,
) -> RecordModel {
    RecordModel {
        match_id,
        rule_id,
        event_id: hit.event_id,
        fields: json::object_text(
            evidence_members(hit.matched_fields.keys(), hit.matched_fields.values()),
        ),
        log_type: type_from(types, (hit.event_id / 0x1_0000_0000) as u32, 0),
    }
}

// ----------------------------------------------------------------- summaries

/// Ids per list when fetching summaries by event id.
pub const SUMMARY_LOOKUP_BATCH: usize = 1_000;

pub open spec fn smallest(ids: Seq<u64>) -> u64
    decreases ids.len(),
{
    if ids.len() <= 1 {
        ids[0]
    } else if ids.last() < smallest(ids.drop_last()) {
        ids.last()
    } else {
        smallest(ids.drop_last())
    }
}

pub open spec fn largest(ids: Seq<u64>) -> u64
    decreases ids.len(),
{
    if ids.len() <= 1 {
        ids[0]
    } else if ids.last() > largest(ids.drop_last()) {
        ids.last()
    } else {
        largest(ids.drop_last())
    }
}

/// The range to read at once, where there is one.
pub open spec fn dense(ids: Seq<u64>) -> Option<(u64, u64)> {
    if ids.len() < SUMMARY_LOOKUP_BATCH {
        None
    } else if largest(ids) - smallest(ids) < 2 * ids.len() {
        Some((smallest(ids), largest(ids)))
    } else {
        None
    }
}

proof fn lemma_extremes(ids: Seq<u64>)
    requires
        ids.len() > 0,
    ensures
        smallest(ids) <= largest(ids),
        forall|i: int| 0 <= i < ids.len() ==> smallest(ids) <= #[trigger] ids[i] <= largest(ids),
    decreases ids.len(),
{
    if ids.len() > 1 {
        lemma_extremes(ids.drop_last());
        assert forall|i: int| 0 <= i < ids.len() implies smallest(ids) <= #[trigger] ids[i]
            <= largest(ids) by {
            if i < ids.len() - 1 {
                assert(ids.drop_last()[i] == ids[i]);
            }
        }
    }
}

/// A range read in place of ids holds every one of them, and at most twice as
/// many rows as were asked for.
pub proof fn dense_ranges_hold_their_ids(ids: Seq<u64>, i: int)
    requires
        dense(ids) is Some,
        0 <= i < ids.len(),
    ensures
        ({
            let (first, last) = dense(ids)->Some_0;
            &&& first <= ids[i] <= last
            &&& last - first + 1 <= 2 * ids.len()
        }),
{
    lemma_extremes(ids);
}

/// The id range to read in one scan, for a batch long enough to be worth it
/// and packed tightly enough that reading the gaps costs less than a lookup
/// per id. A batch that spans two files spans billions and has none.
pub fn dense_range(ids: &Vec<u64>) -> (r: Option<(u64, u64)>)
    ensures
        r == dense(ids@),
{
    let n: usize = ids.len();
    if n < SUMMARY_LOOKUP_BATCH {
        return None;
    }
    let mut first: u64 = ids[0];
    let mut last: u64 = ids[0];
    let mut i: usize = 1;
    assert(ids@.take(1)[0] == ids@[0]);
    while i < n
        invariant
            1 <= i <= n,
            n == ids@.len(),
            first == smallest(ids@.take(i as int)),
            last == largest(ids@.take(i as int)),
        decreases n - i,
    {
        assert(ids@.take(i + 1).drop_last() =~= ids@.take(i as int));
        let id: u64 = ids[i];
        if id < first {
            first = id;
        }
        if id > last {
            last = id;
        }
        i = i + 1;
    }
    proof {
        assert(ids@.take(n as int) =~= ids@);
        lemma_extremes(ids@);
    }
    let spread: u64 = last - first;
    if (spread as u128) < 2 * (n as u128) {
        Some((first, last))
    } else {
        None
    }
}

pub open spec fn decimals(ids: Seq<u64>) -> Seq<Seq<char>> {
    ids.map_values(|id: u64| number::decimal(id as nat))
}

/// Where list number `k` of ids ends.
pub open spec fn list_end(len: nat, k: nat) -> nat {
    if (k + 1) * SUMMARY_LOOKUP_BATCH <= len {
        (k + 1) * SUMMARY_LOOKUP_BATCH as nat
    } else {
        len
    }
}

/// List number `k` of the ids.
pub open spec fn id_list(ids: Seq<u64>, k: nat) -> Seq<char> {
    split::join(
        decimals(
            ids.subrange(
                k * SUMMARY_LOOKUP_BATCH as int,
                list_end(ids.len(), k) as int,
            ),
        ),
        ","@,
    )
}

/// The ids as lists of constants of bounded length. They are integers the
/// store computed, never user text, and a bound list would not reach the
/// index.
pub fn id_lists(ids: &Vec<u64>) -> (lists: Vec<String>)
    ensures
        lists@.len() * SUMMARY_LOOKUP_BATCH >= ids@.len(),
        ids@.len() > 0 ==> (lists@.len() - 1) * SUMMARY_LOOKUP_BATCH < ids@.len(),
        ids@.len() == 0 ==> lists@.len() == 0,
        forall|k: int|
            0 <= k < lists@.len() ==> (#[trigger] lists@[k])@ == id_list(ids@, k as nat),
{
    let n: usize = ids.len();
    let mut lists: Vec<String> = Vec::new();
    let mut i: usize = 0;
    while i < n
        invariant
            i <= n,
            n == ids@.len(),
            i < n ==> i == lists@.len() * SUMMARY_LOOKUP_BATCH,
            i == n ==> lists@.len() * SUMMARY_LOOKUP_BATCH >= n,
            i == n && n > 0 ==> (lists@.len() - 1) * SUMMARY_LOOKUP_BATCH < n,
            n == 0 ==> lists@.len() == 0,
            forall|k: int|
                0 <= k < lists@.len() ==> (#[trigger] lists@[k])@ == id_list(ids@, k as nat),
        decreases n - i,
    {
        let ghost k = lists@.len();
        let end: usize = if n - i >= SUMMARY_LOOKUP_BATCH {
            i + SUMMARY_LOOKUP_BATCH
        } else {
            n
        };
        assert(end == list_end(n as nat, k));
        let ghost part = ids@.subrange(i as int, end as int);
        let mut texts: Vec<String> = Vec::new();
        let mut j: usize = i;
        while j < end
            invariant
                i <= j <= end,
                end <= n,
                n == ids@.len(),
                texts@.len() == j - i,
                forall|m: int|
                    0 <= m < j - i ==> (#[trigger] texts@[m])@ == number::decimal(
                        ids@[i + m] as nat,
                    ),
            decreases end - j,
        {
            texts.push(decimal_text(ids[j]));
            j = j + 1;
        }
        assert(text::texts(texts@) =~= decimals(part));
        lists.push(joined(&texts, ","));
        i = end;
    }
    lists
}

/// The summary a results row shows, projected from the events: the id, the
/// time twice (raw for storing and comparing, KST text for display), then the
/// display columns. HTTP-style fields come out of the JSON bodies.
pub open spec fn summary_columns() -> Seq<char> {
    "e.event_id, epoch_us(e.event_time), "@
        + "strftime(e.event_time + INTERVAL 9 HOUR, '%Y-%m-%d %H:%M:%S.%g'), "@
        + "e.event_name, e.event_source, e.identity_arn, e.source_ip, "@
        + "json_extract_string(e.request, '$.url'), "@
        + "coalesce(json_extract_string(e.response, '$.elb_status_code'), "@
        + "json_extract_string(e.response, '$.status')), "@
        + "coalesce(json_extract_string(e.resources, '$.target'), "@
        + "json_extract_string(e.resources, '$.host')), "@
        + "e.user_agent, e.aws_region, e.error_code, "@
        + "json_extract_string(e.resources, '$[0].ARN'), "@
        + "json_extract_string(e.request, '$.country'), "@
        + "json_extract_string(e.response, '$.terminating_rule_id'), "@
        + "json_extract_string(e.request, '$.method')"@
}

fn summary_head() -> (out: String)
    ensures
        out@ == "SELECT "@ + summary_columns() + " FROM events e WHERE "@,
{
    let mut out = String::new();
    out.push_str("e.event_id, epoch_us(e.event_time), ");
    out.push_str("strftime(e.event_time + INTERVAL 9 HOUR, '%Y-%m-%d %H:%M:%S.%g'), ");
    out.push_str("e.event_name, e.event_source, e.identity_arn, e.source_ip, ");
    out.push_str("json_extract_string(e.request, '$.url'), ");
    out.push_str("coalesce(json_extract_string(e.response, '$.elb_status_code'), ");
    out.push_str("json_extract_string(e.response, '$.status')), ");
    out.push_str("coalesce(json_extract_string(e.resources, '$.target'), ");
    out.push_str("json_extract_string(e.resources, '$.host')), ");
    out.push_str("e.user_agent, e.aws_region, e.error_code, ");
    out.push_str("json_extract_string(e.resources, '$[0].ARN'), ");
    out.push_str("json_extract_string(e.request, '$.country'), ");
    out.push_str("json_extract_string(e.response, '$.terminating_rule_id'), ");
    out.push_str("json_extract_string(e.request, '$.method')");
    assert(out@ =~= summary_columns());
    let mut whole = "SELECT ".to_owned();
    whole.push_str(out.as_str());
    whole.push_str(" FROM events e WHERE ");
    whole
}

/// One of the queries that fetch the summaries of these ids.
pub open spec fn summary_query(ids: Seq<u64>, k: nat) -> sql::QueryModel {
    match dense(ids) {
        Some((first, last)) => sql::QueryModel {
            sql: "SELECT "@ + summary_columns() + " FROM events e WHERE "@
                + "e.event_id >= ? AND e.event_id <= ?"@,
            binds: seq![sql::BindModel::Unsigned(first), sql::BindModel::Unsigned(last)],
        },
        None => sql::QueryModel {
            sql: "SELECT "@ + summary_columns() + " FROM events e WHERE "@ + "e.event_id IN ("@
                + id_list(ids, k) + ")"@,
            binds: Seq::empty(),
        },
    }
}

/// The queries that fetch the summaries of these ids: lists of constants,
/// which go through the primary key index, or one range where the ids are
/// dense.
pub fn summary_queries(ids: &Vec<u64>) -> (queries: Vec<Query>)
    ensures
        dense(ids@) is Some ==> queries@.len() == 1,
        dense(ids@) is None ==> queries@.len() * SUMMARY_LOOKUP_BATCH >= ids@.len() && (ids@.len()
            == 0 ==> queries@.len() == 0) && (ids@.len() > 0 ==> (queries@.len() - 1)
            * SUMMARY_LOOKUP_BATCH < ids@.len()),
        forall|k: int|
            0 <= k < queries@.len() ==> (#[trigger] queries@[k])@ == summary_query(
                ids@,
                k as nat,
            ),
{
    let mut queries: Vec<Query> = Vec::new();
    match dense_range(ids) {
        Some((first, last)) => {
            let mut sql = summary_head();
            sql.push_str("e.event_id >= ? AND e.event_id <= ?");
            let mut binds: Vec<Bind> = Vec::new();
            binds.push(Bind::Unsigned(first));
            binds.push(Bind::Unsigned(last));
            assert(sql::bind_models(binds@) =~= seq![
                sql::BindModel::Unsigned(first),
                sql::BindModel::Unsigned(last),
            ]);
            queries.push(Query { sql, binds });
        },
        None => {
            let lists = id_lists(ids);
            let n: usize = lists.len();
            let mut k: usize = 0;
            while k < n
                invariant
                    k <= n,
                    n == lists@.len(),
                    dense(ids@) is None,
                    forall|j: int|
                        0 <= j < lists@.len() ==> (#[trigger] lists@[j])@ == id_list(
                            ids@,
                            j as nat,
                        ),
                    queries@.len() == k,
                    forall|j: int|
                        0 <= j < k ==> (#[trigger] queries@[j])@ == summary_query(ids@, j as nat),
                decreases n - k,
            {
                let mut sql = summary_head();
                sql.push_str("e.event_id IN (");
                sql.push_str(lists[k].as_str());
                sql.push_str(")");
                let binds: Vec<Bind> = Vec::new();
                assert(sql::bind_models(binds@) =~= Seq::empty());
                queries.push(Query { sql, binds });
                k = k + 1;
            }
        },
    }
    queries
}

// -------------------------------------------------------------- detail view

/// The stored columns of the detail view, in the order they are read.
pub open spec fn detail_key(i: int) -> Seq<char> {
    if i == 0 {
        "event_time"@
    } else if i == 1 {
        "event_source"@
    } else if i == 2 {
        "event_name"@
    } else if i == 3 {
        "aws_region"@
    } else if i == 4 {
        "account_id"@
    } else if i == 5 {
        "source_ip"@
    } else if i == 6 {
        "user_agent"@
    } else if i == 7 {
        "identity_type"@
    } else if i == 8 {
        "identity_arn"@
    } else if i == 9 {
        "identity_name"@
    } else if i == 10 {
        "mfa_authenticated"@
    } else if i == 11 {
        "error_code"@
    } else if i == 12 {
        "error_message"@
    } else if i == 13 {
        "read_only"@
    } else if i == 14 {
        "management_event"@
    } else if i == 15 {
        "request"@
    } else if i == 16 {
        "response"@
    } else {
        "resources"@
    }
}

fn key_at(i: usize) -> (r: &'static str)
    requires
        i < 18,
    ensures
        r@ == detail_key(i as int),
{
    match i {
        0 => "event_time",
        1 => "event_source",
        2 => "event_name",
        3 => "aws_region",
        4 => "account_id",
        5 => "source_ip",
        6 => "user_agent",
        7 => "identity_type",
        8 => "identity_arn",
        9 => "identity_name",
        10 => "mfa_authenticated",
        11 => "error_code",
        12 => "error_message",
        13 => "read_only",
        14 => "management_event",
        15 => "request",
        16 => "response",
        _ => "resources",
    }
}

/// One event's stored columns, keyed by field name. An event the case does
/// not hold has no columns.
pub fn event_fields(values: Option<Vec<Option<String>>>) -> (fields: Vec<(String, Option<String>)>)
    requires
        values matches Some(row) ==> row@.len() == 18,
    ensures
        values is None ==> fields@.len() == 0,
        values matches Some(row) ==> {
            &&& fields@.len() == 18
            &&& forall|i: int|
                0 <= i < 18 ==> (#[trigger] fields@[i]).0@ == detail_key(i) && text::opt(
                    fields@[i].1,
                ) == text::opt(row@[i])
        },
{
    let mut fields: Vec<(String, Option<String>)> = Vec::new();
    match &values {
        None => fields,
        Some(row) => {
            let mut i: usize = 0;
            while i < 18
                invariant
                    i <= 18,
                    row@.len() == 18,
                    fields@.len() == i,
                    forall|k: int|
                        0 <= k < i ==> (#[trigger] fields@[k]).0@ == detail_key(k) && text::opt(
                            fields@[k].1,
                        ) == text::opt(row@[k]),
                decreases 18 - i,
            {
                fields.push((key_at(i).to_owned(), text::copied(&row[i])));
                i = i + 1;
            }
            fields
        },
    }
}

} // verus!
