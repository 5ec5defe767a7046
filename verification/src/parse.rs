//! Records into normalized events, and what becomes of each file on the way.
//! Records are taken one at a time and handed on in batches, so memory stays
//! flat regardless of input size.

use vstd::prelude::*;

use crate::detect::LogType;
use crate::json;
use crate::json::{to_text, Json};
use crate::logging;
use crate::logging::redact;
use crate::mapping;
use crate::mapping::{Field, FieldMap};
use crate::model;
use crate::model::NormalizedEvent;
use crate::ndjson;
use crate::number;
use crate::number::decimal_text;
use crate::scan::ScanError;
use crate::split::concat;
use crate::store::StoreError;
use crate::text;
use crate::text::{chars_of, same, string_of};

pub mod alb;
pub mod found;

verus! {

#[derive(Debug)]
pub enum ParseError {
    Scan(ScanError),
    WorkerPool(String),
    Store(StoreError),
}

impl ParseError {
    pub open spec fn text(self) -> Seq<char> {
        match self {
            ParseError::Scan(e) => e.text(),
            ParseError::WorkerPool(why) => "cannot create parser worker pool: "@ + why@,
            ParseError::Store(e) => e.text(),
        }
    }

    pub fn message(&self) -> (out: String)
        ensures
            out@ == self.text(),
    {
        match self {
            ParseError::Scan(e) => e.message(),
            ParseError::WorkerPool(why) => concat(
                "cannot create parser worker pool: ",
                why.as_str(),
            ),
            ParseError::Store(e) => e.message(),
        }
    }
}

pub struct ParseOptions {
    /// Rows buffered before a flush. Bounds peak memory per file.
    pub batch_size: usize,
    /// Keep the original record for the rule engine's `raw` escape hatch.
    pub keep_raw: bool,
    /// Which JSON path feeds each column. Defaults to CloudTrail.
    pub mapping: FieldMap,
    /// Display paths the user kept in the review step. `None` parses every
    /// candidate; deselected files are never opened or registered.
    pub selected: Option<Vec<String>>,
}

impl Default for ParseOptions {
    fn default() -> (r: Self)
        ensures
            r.batch_size == 10_000,
            r.keep_raw,
            forall|field: Field| #[trigger] r.mapping.paths(field) == field.default_paths(),
            r.selected is None,
    {
        let mapping = FieldMap::cloudtrail();
        assert forall|field: Field| #[trigger] mapping.paths(field) == field.default_paths() by {
            assert(mapping.named().dom().contains(field.key_text()));
        }
        ParseOptions { batch_size: 10_000, keep_raw: true, mapping, selected: None }
    }
}

#[derive(Debug, Clone, Copy, PartialEq, Eq, Structural)]
pub struct Progress {
    pub files_done: usize,
    pub files_total: usize,
    pub records_parsed: u64,
}

// --------------------------------------------------------- mapped records

pub open spec fn kept_json(value: Option<Json>) -> Option<Seq<char>> {
    match value {
        Some(v) => Some(json::json_text(v)),
        None => None,
    }
}

/// The event that a record becomes under a mapping. Every column goes through
/// the mapping; service-specific shapes stay as JSON text.
pub open spec fn mapped_event(
    record: Json,
    file_id: u32,
    record_index: u64,
    keep_raw: bool,
    map: FieldMap,
) -> model::EventModel {
    model::EventModel {
        file_id,
        record_index,
        event_time: mapping::time_in(record, map.paths(Field::EventTime)),
        event_source: mapping::text_in(record, map.paths(Field::EventSource)),
        event_name: mapping::text_in(record, map.paths(Field::EventName)),
        aws_region: mapping::text_in(record, map.paths(Field::AwsRegion)),
        account_id: mapping::text_in(record, map.paths(Field::AccountId)),
        source_ip: mapping::text_in(record, map.paths(Field::SourceIp)),
        user_agent: mapping::text_in(record, map.paths(Field::UserAgent)),
        identity_type: mapping::text_in(record, map.paths(Field::IdentityType)),
        identity_arn: mapping::text_in(record, map.paths(Field::IdentityArn)),
        identity_name: mapping::text_in(record, map.paths(Field::IdentityName)),
        mfa_authenticated: mapping::flag_in(record, map.paths(Field::MfaAuthenticated)),
        error_code: mapping::text_in(record, map.paths(Field::ErrorCode)),
        error_message: mapping::text_in(record, map.paths(Field::ErrorMessage)),
        read_only: mapping::flag_in(record, map.paths(Field::ReadOnly)),
        management_event: mapping::flag_in(record, map.paths(Field::ManagementEvent)),
        request: kept_json(mapping::value_in(record, map.paths(Field::Request))),
        response: kept_json(mapping::value_in(record, map.paths(Field::Response))),
        resources: kept_json(mapping::value_in(record, map.paths(Field::Resources))),
        raw: if keep_raw {
            Some(json::json_text(record))
        } else {
            None
        },
    }
}

fn json_column(record: &Json, field: Field, map: &FieldMap) -> (r: Option<String>)
    ensures
        text::opt(r) == kept_json(mapping::value_in(*record, map.paths(field))),
{
    match map.lookup(record, field) {
        Some(v) => Some(to_text(v)),
        None => None,
    }
}

/// One CloudTrail record into a normalized event, column by column through
/// the mapping.
pub fn normalize(
    record: &Json,
    file_id: u32,
    record_index: u64,
    keep_raw: bool,
    map: &FieldMap,
) -> (event: NormalizedEvent)
    ensures
        event@ == mapped_event(*record, file_id, record_index, keep_raw, *map),
{
    NormalizedEvent {
        file_id,
        record_index,
        event_time: map.lookup_time(record, Field::EventTime),
        event_source: map.lookup_text(record, Field::EventSource),
        event_name: map.lookup_text(record, Field::EventName),
        aws_region: map.lookup_text(record, Field::AwsRegion),
        account_id: map.lookup_text(record, Field::AccountId),
        source_ip: map.lookup_text(record, Field::SourceIp),
        user_agent: map.lookup_text(record, Field::UserAgent),
        identity_type: map.lookup_text(record, Field::IdentityType),
        identity_arn: map.lookup_text(record, Field::IdentityArn),
        identity_name: map.lookup_text(record, Field::IdentityName),
        mfa_authenticated: map.lookup_flag(record, Field::MfaAuthenticated),
        error_code: map.lookup_text(record, Field::ErrorCode),
        error_message: map.lookup_text(record, Field::ErrorMessage),
        read_only: map.lookup_flag(record, Field::ReadOnly),
        management_event: map.lookup_flag(record, Field::ManagementEvent),
        request: json_column(record, Field::Request, map),
        response: json_column(record, Field::Response, map),
        resources: json_column(record, Field::Resources, map),
        raw: if keep_raw {
            Some(to_text(record))
        } else {
            None
        },
    }
}

// ------------------------------------------------------ records in batches

pub open spec fn event_models(events: Seq<NormalizedEvent>) -> Seq<model::EventModel> {
    events.map_values(|event: NormalizedEvent| event@)
}

/// What a record sink holds: the events not handed on yet, and how many
/// records it has taken.
pub ghost struct SinkModel {
    pub pending: Seq<model::EventModel>,
    pub count: nat,
}

/// Takes the records of one document stream and hands them on in batches, so
/// peak memory is bounded by the batch size.
pub struct RecordSink<'a> {
    options: &'a ParseOptions,
    file_id: u32,
    batch: Vec<NormalizedEvent>,
    count: u64,
}

impl<'a> View for RecordSink<'a> {
    type V = SinkModel;

    closed spec fn view(&self) -> SinkModel {
        SinkModel { pending: event_models(self.batch@), count: self.count as nat }
    }
}

/// One record into the sink: what it holds then, and the batch that is due.
pub open spec fn sink_step(
    sink: SinkModel,
    event: model::EventModel,
    batch_size: nat,
) -> (SinkModel, Option<Seq<model::EventModel>>) {
    let batch = sink.pending.push(event);
    if batch.len() >= batch_size {
        (SinkModel { pending: Seq::empty(), count: sink.count + 1 }, Some(batch))
    } else {
        (SinkModel { pending: batch, count: sink.count + 1 }, None)
    }
}

pub open spec fn opt_batch(batch: Option<Vec<NormalizedEvent>>) -> Option<
    Seq<model::EventModel>,
> {
    match batch {
        Some(events) => Some(event_models(events@)),
        None => None,
    }
}

impl<'a> RecordSink<'a> {
    pub closed spec fn settings(self) -> ParseOptions {
        *self.options
    }

    pub closed spec fn file(self) -> u32 {
        self.file_id
    }

    pub fn new(file_id: u32, options: &'a ParseOptions) -> (sink: RecordSink<'a>)
        ensures
            sink@ == (SinkModel { pending: Seq::empty(), count: 0 }),
            sink.settings() == *options,
            sink.file() == file_id,
    {
        let batch: Vec<NormalizedEvent> = Vec::new();
        assert(event_models(batch@) =~= Seq::empty());
        RecordSink { options, file_id, batch, count: 0 }
    }

    /// Takes one record, numbered by its position in the file. Returns the
    /// batch that is due for the store.
    pub fn push(&mut self, record: &Json) -> (due: Option<Vec<NormalizedEvent>>)
        requires
            old(self)@.count < u64::MAX,
        ensures
            (final(self)@, opt_batch(due)) == sink_step(
                old(self)@,
                mapped_event(
                    *record,
                    old(self).file(),
                    old(self)@.count as u64,
                    old(self).settings().keep_raw,
                    old(self).settings().mapping,
                ),
                old(self).settings().batch_size as nat,
            ),
            final(self).settings() == old(self).settings(),
            final(self).file() == old(self).file(),
    {
        let ghost before = event_models(self.batch@);
        let event = normalize(
            record,
            self.file_id,
            self.count,
            self.options.keep_raw,
            &self.options.mapping,
        );
        let ghost added = event@;
        self.batch.push(event);
        self.count = self.count + 1;
        assert(event_models(self.batch@) =~= before.push(added));
        if self.batch.len() >= self.options.batch_size {
            let mut due: Vec<NormalizedEvent> = Vec::new();
            assert(event_models(due@) =~= Seq::empty());
            core::mem::swap(&mut due, &mut self.batch);
            Some(due)
        } else {
            None
        }
    }

    /// What is left when the stream ends; nothing where nothing is pending.
    pub fn flush(&mut self) -> (due: Option<Vec<NormalizedEvent>>)
        ensures
            final(self)@ == (SinkModel { pending: Seq::empty(), count: old(self)@.count }),
            opt_batch(due) == (if old(self)@.pending.len() == 0 {
                None
            } else {
                Some(old(self)@.pending)
            }),
            final(self).settings() == old(self).settings(),
            final(self).file() == old(self).file(),
    {
        let mut due: Vec<NormalizedEvent> = Vec::new();
        assert(event_models(due@) =~= Seq::empty());
        if self.batch.len() == 0 {
            assert(event_models(self.batch@) =~= Seq::empty());
            return None;
        }
        core::mem::swap(&mut due, &mut self.batch);
        Some(due)
    }

    /// How the file ended. Trailing damage after usable records is reported
    /// elsewhere, not fatal.
    pub fn finish(&self, damage: Option<String>) -> (r: Result<u64, String>)
        ensures
            match r {
                Ok(n) => n == self@.count && (damage is None || self@.count > 0),
                Err(note) => damage == Some(note) && self@.count == 0,
            },
    {
        match damage {
            Some(message) => {
                if self.count == 0 {
                    Err(message)
                } else {
                    Ok(self.count)
                }
            },
            None => Ok(self.count),
        }
    }
}

/// What the first `n` events leave in a sink, and everything handed on so far.
pub open spec fn sink_run(events: Seq<model::EventModel>, n: nat, batch_size: nat) -> (
    SinkModel,
    Seq<model::EventModel>,
)
    decreases n,
{
    if n == 0 {
        (SinkModel { pending: Seq::empty(), count: 0 }, Seq::empty())
    } else {
        let (sink, out) = sink_run(events, (n - 1) as nat, batch_size);
        match sink_step(sink, events[n - 1], batch_size) {
            (next, Some(batch)) => (next, out + batch),
            (next, None) => (next, out),
        }
    }
}

/// Batching neither loses, doubles nor reorders an event: what was handed on
/// followed by what is pending is what came in, and never more than a batch
/// is pending.
pub proof fn batching_keeps_every_event(events: Seq<model::EventModel>, n: nat, batch_size: nat)
    requires
        n <= events.len(),
    ensures
        ({
            let (sink, out) = sink_run(events, n, batch_size);
            &&& out + sink.pending == events.take(n as int)
            &&& sink.count == n
            &&& batch_size > 0 ==> sink.pending.len() < batch_size
            &&& batch_size == 0 ==> sink.pending.len() == 0
        }),
    decreases n,
{
    let (sink, out) = sink_run(events, n, batch_size);
    if n > 0 {
        batching_keeps_every_event(events, (n - 1) as nat, batch_size);
        let (before, sent) = sink_run(events, (n - 1) as nat, batch_size);
        assert(events.take(n as int) =~= events.take(n - 1).push(events[n - 1]));
        assert(sent + before.pending.push(events[n - 1]) =~= (sent + before.pending).push(
            events[n - 1],
        ));
        if before.pending.len() + 1 >= batch_size {
            assert(out + sink.pending =~= out);
        }
    } else {
        assert(out + sink.pending =~= events.take(0));
    }
}

// -------------------------------------------------------- lines in batches

/// What a file gave: events stored, and records that were malformed.
#[derive(Debug, Clone, Copy, PartialEq, Eq, Structural)]
pub struct ParsedFile {
    pub count: u64,
    pub malformed: u64,
}

/// Where a line ends once its line break is gone.
pub open spec fn line_end(s: Seq<char>, n: int) -> int
    decreases n,
{
    if 0 < n <= s.len() && (s[n - 1] == '\r' || s[n - 1] == '\n') {
        line_end(s, n - 1)
    } else {
        n
    }
}

/// A line without its line break.
pub open spec fn chomped(s: Seq<char>) -> Seq<char> {
    s.take(line_end(s, s.len() as int))
}

fn chomp(line: &str) -> (out: String)
    ensures
        out@ == chomped(line@),
{
    let s = chars_of(line);
    let len: usize = s.len();
    let mut end: usize = len;
    while end > 0 && (s[end - 1] == '\r' || s[end - 1] == '\n')
        invariant
            end <= len,
            len == s@.len(),
            line_end(s@, len as int) == line_end(s@, end as int),
        decreases end,
    {
        end = end - 1;
    }
    assert(s@.subrange(0, end as int) =~= s@.take(end as int));
    string_of(&s, 0, end)
}

/// The event a line of a log type becomes; `None` marks a malformed line.
pub open spec fn line_event(
    log_type: LogType,
    line: Seq<char>,
    file_id: u32,
    record_index: u64,
    keep_raw: bool,
) -> Option<model::EventModel> {
    if log_type == LogType::AlbAccess {
        alb::line_event(line, file_id, record_index, keep_raw)
    } else {
        ndjson::line_event(log_type, line, file_id, record_index, keep_raw)
    }
}

/// One line of a line-per-record log type into an event. `Err` marks a
/// malformed line.
pub fn normalize_line(
    log_type: LogType,
    line: &str,
    file_id: u32,
    record_index: u64,
    keep_raw: bool,
) -> (r: Result<NormalizedEvent, ()>)
    ensures
        match r {
            Ok(event) => line_event(log_type, line@, file_id, record_index, keep_raw) == Some(
                event@,
            ),
            Err(_) => line_event(log_type, line@, file_id, record_index, keep_raw) is None,
        },
{
    if log_type == LogType::AlbAccess {
        alb::normalize_alb(line, file_id, record_index, keep_raw)
    } else {
        ndjson::normalize(log_type, line, file_id, record_index, keep_raw)
    }
}

/// The events among the outcomes of lines, in order.
pub open spec fn survivors(outcomes: Seq<Option<model::EventModel>>) -> Seq<model::EventModel>
    decreases outcomes.len(),
{
    if outcomes.len() == 0 {
        Seq::empty()
    } else {
        match outcomes.last() {
            Some(event) => survivors(outcomes.drop_last()).push(event),
            None => survivors(outcomes.drop_last()),
        }
    }
}

/// What becomes of the lines of a batch whose first line has number `base`.
pub open spec fn batch_outcomes(
    log_type: LogType,
    lines: Seq<Seq<char>>,
    file_id: u32,
    base: nat,
    keep_raw: bool,
) -> Seq<Option<model::EventModel>> {
    Seq::new(
        lines.len(),
        |i: int| line_event(log_type, lines[i], file_id, (base + i) as u64, keep_raw),
    )
}

pub open spec fn outcome_models(outcomes: Seq<Result<NormalizedEvent, ()>>) -> Seq<
    Option<model::EventModel>,
> {
    outcomes.map_values(
        |o: Result<NormalizedEvent, ()>|
            match o {
                Ok(event) => Some(event@),
                Err(_) => None,
            },
    )
}

/// What a line file holds: the lines not normalized yet, how many came before
/// them, and what those became.
pub ghost struct LinesModel {
    pub pending: Seq<Seq<char>>,
    pub base: nat,
    pub count: nat,
    pub malformed: nat,
}

impl LinesModel {
    /// Every line taken so far became an event, was malformed, or is pending.
    pub open spec fn accounted(self) -> bool {
        self.count + self.malformed == self.base
    }

    pub open spec fn taken(self) -> nat {
        self.base + self.pending.len()
    }
}

/// Takes the lines of one line-per-record file (ALB text, NDJSON) and turns
/// them into events a batch at a time. A malformed line is counted and
/// skipped.
pub struct LineFile {
    log_type: LogType,
    file_id: u32,
    keep_raw: bool,
    lines: Vec<String>,
    base: u64,
    parsed: ParsedFile,
}

impl View for LineFile {
    type V = LinesModel;

    closed spec fn view(&self) -> LinesModel {
        LinesModel {
            pending: text::texts(self.lines@),
            base: self.base as nat,
            count: self.parsed.count as nat,
            malformed: self.parsed.malformed as nat,
        }
    }
}

impl LineFile {
    #[verifier::type_invariant]
    spec fn wf(self) -> bool {
        self.parsed.count + self.parsed.malformed == self.base
    }

    pub closed spec fn kind(self) -> LogType {
        self.log_type
    }

    pub closed spec fn file(self) -> u32 {
        self.file_id
    }

    pub closed spec fn keeps_raw(self) -> bool {
        self.keep_raw
    }

    pub fn new(log_type: LogType, file_id: u32, keep_raw: bool) -> (r: LineFile)
        ensures
            r@ == (LinesModel { pending: Seq::empty(), base: 0, count: 0, malformed: 0 }),
            r.kind() == log_type,
            r.file() == file_id,
            r.keeps_raw() == keep_raw,
    {
        let lines: Vec<String> = Vec::new();
        assert(text::texts(lines@) =~= Seq::empty());
        LineFile {
            log_type,
            file_id,
            keep_raw,
            lines,
            base: 0,
            parsed: ParsedFile { count: 0, malformed: 0 },
        }
    }

    /// Takes one line as read, line break included. A blank line is no record.
    pub fn accept(&mut self, line: &str)
        ensures
            final(self)@ == (LinesModel {
                pending: if chomped(line@).len() == 0 {
                    old(self)@.pending
                } else {
                    old(self)@.pending.push(chomped(line@))
                },
                ..old(self)@
            }),
            final(self).kind() == old(self).kind(),
            final(self).file() == old(self).file(),
            final(self).keeps_raw() == old(self).keeps_raw(),
    {
        proof {
            use_type_invariant(&*self);
        }
        let line = chomp(line);
        if !line.as_str().is_empty() {
            let ghost before = text::texts(self.lines@);
            let ghost added = line@;
            let mut lines: Vec<String> = Vec::new();
            core::mem::swap(&mut lines, &mut self.lines);
            lines.push(line);
            self.lines = lines;
            assert(text::texts(self.lines@) =~= before.push(added));
        }
    }

    /// The lines waiting to be normalized.
    pub fn pending(&self) -> (r: &Vec<String>)
        ensures
            text::texts(r@) == self@.pending,
    {
        &self.lines
    }

    /// The record number of the first pending line.
    pub fn base(&self) -> (n: u64)
        ensures
            n == self@.base,
    {
        self.base
    }

    /// Takes what the pending lines became, in their order, and returns the
    /// events for the store.
    pub fn settle(&mut self, outcomes: Vec<Result<NormalizedEvent, ()>>) -> (events: Vec<
        NormalizedEvent,
    >)
        requires
            outcomes@.len() == old(self)@.pending.len(),
            old(self)@.taken() <= u64::MAX,
        ensures
            event_models(events@) == survivors(outcome_models(outcomes@)),
            final(self)@.pending == Seq::<Seq<char>>::empty(),
            final(self)@.base == old(self)@.taken(),
            final(self)@.count == old(self)@.count + events@.len(),
            final(self)@.accounted(),
            final(self).kind() == old(self).kind(),
            final(self).file() == old(self).file(),
            final(self).keeps_raw() == old(self).keeps_raw(),
    {
        proof {
            use_type_invariant(&*self);
        }
        let ghost models = outcome_models(outcomes@);
        let total: usize = outcomes.len();
        let mut outcomes = outcomes;
        let mut back: Vec<NormalizedEvent> = Vec::new();
        let ghost all = outcomes@;
        proof {
            assert(all.take(total as int) =~= all);
            assert(models.take(total as int) =~= models);
            assert(event_models(back@).reverse() =~= Seq::empty());
            assert(survivors(models) + Seq::<model::EventModel>::empty() =~= survivors(models));
        }
        while outcomes.len() > 0
            invariant
                total == all.len(),
                outcomes@.len() <= total,
                outcomes@ == all.take(outcomes@.len() as int),
                models == outcome_models(all),
                back@.len() <= total - outcomes@.len(),
                survivors(models) == survivors(models.take(outcomes@.len() as int))
                    + event_models(back@).reverse(),
            decreases outcomes@.len(),
        {
            let ghost k = outcomes@.len() as int;
            let ghost held = event_models(back@);
            proof {
                assert(models.take(k).drop_last() =~= models.take(k - 1));
                assert(models.take(k).last() == models[k - 1]);
                assert(all.take(k).drop_last() =~= all.take(k - 1));
            }
            match outcomes.pop() {
                Some(Ok(event)) => {
                    let ghost added = event@;
                    back.push(event);
                    proof {
                        assert(event_models(back@) =~= held.push(added));
                        assert(held.push(added).reverse() =~= seq![added] + held.reverse());
                        assert(survivors(models.take(k - 1)).push(added) + held.reverse()
                            =~= survivors(models.take(k - 1)) + (seq![added] + held.reverse()));
                    }
                },
                _ => {},
            }
        }
        proof {
            assert(models.take(0) =~= Seq::empty());
            assert(survivors(models) =~= event_models(back@).reverse());
        }
        let mut events: Vec<NormalizedEvent> = Vec::new();
        let ghost held = event_models(back@);
        while back.len() > 0
            invariant
                held.len() <= total,
                back@.len() <= held.len(),
                event_models(back@) == held.take(back@.len() as int),
                event_models(events@) == held.reverse().take(held.len() - back@.len()),
                back@.len() + events@.len() == held.len(),
            decreases back@.len(),
        {
            let ghost k = back@.len() as int;
            let ghost sent = event_models(events@);
            let ghost whole = back@;
            match back.pop() {
                Some(event) => {
                    let ghost added = event@;
                    assert(added == event_models(whole)[k - 1]);
                    events.push(event);
                    assert(event_models(back@) =~= held.take(k - 1));
                    assert(event_models(events@) =~= sent.push(added));
                    assert(held.reverse()[held.len() - k] == held[k - 1]);
                    assert(sent.push(added) =~= held.reverse().take(held.len() - (k - 1)));
                },
                None => {},
            }
        }
        assert(held.reverse().take(held.len() as int) =~= held.reverse());
        let kept: usize = events.len();
        let lines: Vec<String> = Vec::new();
        assert(text::texts(lines@) =~= Seq::empty());
        *self = LineFile {
            log_type: self.log_type,
            file_id: self.file_id,
            keep_raw: self.keep_raw,
            lines,
            base: self.base + total as u64,
            parsed: ParsedFile {
                count: self.parsed.count + kept as u64,
                malformed: self.parsed.malformed + (total - kept) as u64,
            },
        };
        events
    }

    /// Normalizes the pending lines one after the other and returns their
    /// events, numbered on from those before.
    pub fn drain(&mut self) -> (events: Vec<NormalizedEvent>)
        requires
            old(self)@.taken() <= u64::MAX,
        ensures
            event_models(events@) == survivors(
                batch_outcomes(
                    old(self).kind(),
                    old(self)@.pending,
                    old(self).file(),
                    old(self)@.base,
                    old(self).keeps_raw(),
                ),
            ),
            final(self)@.pending == Seq::<Seq<char>>::empty(),
            final(self)@.base == old(self)@.taken(),
            final(self)@.count == old(self)@.count + events@.len(),
            final(self)@.accounted(),
            final(self).kind() == old(self).kind(),
            final(self).file() == old(self).file(),
            final(self).keeps_raw() == old(self).keeps_raw(),
    {
        let len: usize = self.lines.len();
        let mut outcomes: Vec<Result<NormalizedEvent, ()>> = Vec::new();
        let ghost expected = batch_outcomes(
            self.kind(),
            self@.pending,
            self.file(),
            self@.base,
            self.keeps_raw(),
        );
        let mut i: usize = 0;
        while i < len
            invariant
                *self == *old(self),
                len == self.lines@.len(),
                i <= len,
                self@.taken() <= u64::MAX,
                expected == batch_outcomes(
                    self.kind(),
                    self@.pending,
                    self.file(),
                    self@.base,
                    self.keeps_raw(),
                ),
                outcomes@.len() == i,
                outcome_models(outcomes@) == expected.take(i as int),
            decreases len - i,
        {
            let ghost before = outcome_models(outcomes@);
            let outcome = normalize_line(
                self.log_type,
                self.lines[i].as_str(),
                self.file_id,
                self.base + i as u64,
                self.keep_raw,
            );
            assert(self@.pending[i as int] == self.lines@[i as int]@);
            outcomes.push(outcome);
            i = i + 1;
            assert(outcome_models(outcomes@) =~= expected.take(i as int));
        }
        assert(expected.take(len as int) =~= expected);
        self.settle(outcomes)
    }

    /// How the file ended: one without a single valid record fails.
    pub fn finish(&self) -> (r: Result<ParsedFile, String>)
        ensures
            match r {
                Ok(parsed) => {
                    &&& parsed.count == self@.count
                    &&& parsed.malformed == self@.malformed
                    &&& self@.count > 0 || self@.malformed == 0
                },
                Err(note) => {
                    &&& self@.count == 0
                    &&& self@.malformed > 0
                    &&& note@ == no_valid_records(kind_name(self.kind()), self@.malformed)
                },
            },
    {
        if self.parsed.count == 0 && self.parsed.malformed > 0 {
            let mut note = "no valid ".to_owned();
            note.push_str(record_kind(self.log_type));
            note.push_str(" records; ");
            note.push_str(decimal_text(self.parsed.malformed).as_str());
            note.push_str(" malformed records");
            Err(note)
        } else {
            Ok(self.parsed)
        }
    }
}

/// What the records of a log type are called in a failure note.
pub open spec fn kind_name(log_type: LogType) -> Seq<char> {
    if log_type == LogType::AlbAccess {
        "ALB"@
    } else {
        log_type.name()
    }
}

fn record_kind(log_type: LogType) -> (r: &'static str)
    ensures
        r@ == kind_name(log_type),
{
    if log_type == LogType::AlbAccess {
        "ALB"
    } else {
        log_type.as_str()
    }
}

pub open spec fn no_valid_records(kind: Seq<char>, malformed: nat) -> Seq<char> {
    "no valid "@ + kind + " records; "@ + number::decimal(malformed) + " malformed records"@
}

// ----------------------------------------------------------- a run of files

/// Whether the review step kept a file.
pub open spec fn is_selected(selected: Option<Vec<String>>, display: Seq<char>) -> bool {
    match selected {
        Some(kept) => text::texts(kept@).contains(display),
        None => true,
    }
}

fn keeps(selected: &Option<Vec<String>>, display: &str) -> (b: bool)
    ensures
        b == is_selected(*selected, display@),
{
    match selected {
        Some(kept) => {
            let mut i: usize = 0;
            let len: usize = kept.len();
            while i < len
                invariant
                    i <= len,
                    len == kept@.len(),
                    *selected == Some(*kept),
                    forall|j: int| 0 <= j < i ==> kept@[j]@ != display@,
                decreases len - i,
            {
                if same(kept[i].as_str(), display) {
                    assert(text::texts(kept@)[i as int] == display@);
                    return true;
                }
                i = i + 1;
            }
            proof {
                if text::texts(kept@).contains(display@) {
                    let j = text::texts(kept@).index_of(display@);
                    assert(kept@[j]@ == display@);
                }
            }
            false
        },
        None => true,
    }
}

/// The file ids to parse: a file's id is its position among all candidates,
/// so ids and later reports stay the same whatever was deselected.
pub fn chosen_files(displays: &Vec<String>, selected: &Option<Vec<String>>) -> (ids: Vec<u32>)
    requires
        displays@.len() <= u32::MAX,
    ensures
        forall|i: int, j: int| 0 <= i < j < ids@.len() ==> ids@[i] < ids@[j],
        forall|id: u32| #[trigger]
            ids@.contains(id) <==> id < displays@.len() && is_selected(
                *selected,
                displays@[id as int]@,
            ),
{
    let len: usize = displays.len();
    let mut ids: Vec<u32> = Vec::new();
    let mut i: usize = 0;
    while i < len
        invariant
            i <= len,
            len == displays@.len(),
            len <= u32::MAX,
            forall|a: int, b: int| 0 <= a < b < ids@.len() ==> ids@[a] < ids@[b],
            forall|a: int| 0 <= a < ids@.len() ==> #[trigger] ids@[a] < i,
            forall|id: u32| #[trigger]
                ids@.contains(id) <==> id < i && is_selected(*selected, displays@[id as int]@),
        decreases len - i,
    {
        let ghost before = ids@;
        if keeps(selected, displays[i].as_str()) {
            ids.push(i as u32);
            assert forall|id: u32| #[trigger]
                ids@.contains(id) implies id < i + 1 && is_selected(
                *selected,
                displays@[id as int]@,
            ) by {
                let k = ids@.index_of(id);
                if k < before.len() {
                    assert(before[k] == id);
                    assert(before.contains(id));
                }
            }
            assert forall|id: u32|
                id < i + 1 && is_selected(*selected, displays@[id as int]@) implies #[trigger]
            ids@.contains(id) by {
                if id < i {
                    assert(before.contains(id));
                    let k = before.index_of(id);
                    assert(ids@[k] == id);
                } else {
                    assert(ids@[before.len() as int] == id);
                }
            }
        }
        i = i + 1;
    }
    ids
}

/// Decoders to run: four keep gzip and JSON work parallel without multiplying
/// each worker's bounded batch; a lone file still gets a second thread.
pub open spec fn workers_for(available: Option<usize>) -> int {
    match available {
        Some(n) => if n < 2 {
            2
        } else if n > 4 {
            4
        } else {
            n as int
        },
        None => 2,
    }
}

/// Decoders to run on a machine with this much parallelism.
pub fn worker_count(available: Option<usize>) -> (n: usize)
    ensures
        n == workers_for(available),
{
    match available {
        Some(n) => {
            if n < 2 {
                2
            } else if n > 4 {
                4
            } else {
                n
            }
        },
        None => 2,
    }
}

/// The files of worker `b` among the first `n`.
pub open spec fn bucket(n: nat, workers: nat, b: int) -> Seq<usize>
    decreases n,
{
    if n == 0 {
        Seq::empty()
    } else if (n - 1) % workers as int == b {
        bucket((n - 1) as nat, workers, b).push((n - 1) as usize)
    } else {
        bucket((n - 1) as nat, workers, b)
    }
}

/// A worker gets the files whose number leaves its own number as remainder:
/// every file goes to exactly one worker.
pub proof fn every_file_has_one_worker(n: nat, workers: nat, b: int, file: usize)
    requires
        0 < workers,
        n <= usize::MAX,
    ensures
        bucket(n, workers, b).contains(file) <==> file < n && file as nat % workers == b,
    decreases n,
{
    if n > 0 {
        every_file_has_one_worker((n - 1) as nat, workers, b, file);
        let rest = bucket((n - 1) as nat, workers, b);
        if (n - 1) % workers as int == b {
            let all = rest.push((n - 1) as usize);
            if rest.contains(file) {
                let k = rest.index_of(file);
                assert(all[k] == file);
            }
            if file == n - 1 {
                assert(all[rest.len() as int] == file);
            }
            if all.contains(file) && !rest.contains(file) {
                let k = all.index_of(file);
                if k < rest.len() {
                    assert(rest[k] == file);
                }
            }
        }
    }
}

proof fn lemma_bucket_is_empty(n: nat, workers: nat, b: int)
    requires
        0 < workers,
        n <= usize::MAX,
        0 <= b < workers,
    ensures
        bucket(n, workers, b).len() == 0 <==> n <= b,
    decreases n,
{
    if n > 0 {
        lemma_bucket_is_empty((n - 1) as nat, workers, b);
        if n - 1 < workers {
            vstd::arithmetic::div_mod::lemma_small_mod((n - 1) as nat, workers);
        }
    }
}

/// Deals the files out to the workers; a worker without a file is not made.
pub fn buckets(files: usize, workers: usize) -> (r: Vec<Vec<usize>>)
    requires
        0 < workers,
    ensures
        r@.len() == (if files < workers {
            files
        } else {
            workers
        }),
        forall|b: int|
            0 <= b < r@.len() ==> (#[trigger] r@[b])@ == bucket(files as nat, workers as nat, b),
{
    let mut r: Vec<Vec<usize>> = Vec::new();
    let made: usize = if files < workers {
        files
    } else {
        workers
    };
    let mut b: usize = 0;
    while b < made
        invariant
            b <= made,
            made <= files,
            made <= workers,
            0 < workers,
            r@.len() == b,
            forall|k: int|
                0 <= k < b ==> (#[trigger] r@[k])@ == bucket(files as nat, workers as nat, k),
        decreases made - b,
    {
        let mut jobs: Vec<usize> = Vec::new();
        let mut i: usize = 0;
        while i < files
            invariant
                i <= files,
                0 < workers,
                jobs@ == bucket(i as nat, workers as nat, b as int),
            decreases files - i,
        {
            if i % workers == b {
                jobs.push(i);
            }
            i = i + 1;
        }
        r.push(jobs);
        b = b + 1;
    }
    r
}

/// Nobody left without a worker, nobody waiting for one that was not made.
pub proof fn made_workers_have_files(files: nat, workers: nat, b: int)
    requires
        0 < workers,
        files <= usize::MAX,
        0 <= b < workers,
    ensures
        bucket(files, workers, b).len() > 0 <==> b < files,
{
    lemma_bucket_is_empty(files, workers, b);
}

/// What to do with a registered file.
#[derive(Debug)]
pub enum Plan {
    /// The run was cancelled before the file's turn.
    Skip,
    /// Detection failed; the note says why.
    Fail(String),
    /// One record per line.
    Lines,
    /// A `Records` document; an undetected file is tried as one.
    Records,
    /// A known file kind that holds no events.
    Ignore,
}

/// What to do with a file, decided when its turn comes.
pub fn plan(cancelled: bool, detection_error: Option<String>, log_type: LogType) -> (r: Plan)
    ensures
        r is Skip <==> cancelled,
        r is Fail <==> !cancelled && detection_error is Some,
        r matches Plan::Fail(note) ==> detection_error == Some(note),
        !cancelled && detection_error is None ==> {
            &&& r is Lines <==> (log_type == LogType::AlbAccess || log_type == LogType::WafAcl
                || log_type == LogType::ApigwAccess || log_type == LogType::NginxAccess)
            &&& r is Records <==> (log_type == LogType::CloudTrail || log_type
                == LogType::Unknown)
            &&& r is Ignore <==> (log_type == LogType::CloudTrailDigest || log_type
                == LogType::ConfigSnapshot)
        },
{
    if cancelled {
        return Plan::Skip;
    }
    match detection_error {
        Some(note) => Plan::Fail(note),
        None => match log_type {
            LogType::AlbAccess | LogType::WafAcl | LogType::ApigwAccess | LogType::NginxAccess =>
            Plan::Lines,
            LogType::CloudTrail | LogType::Unknown => Plan::Records,
            LogType::CloudTrailDigest | LogType::ConfigSnapshot => Plan::Ignore,
        },
    }
}

/// The log type a file is registered under, and the note it fails with where
/// detection failed.
pub fn registered(detection: Result<LogType, String>) -> (r: (LogType, Option<String>))
    ensures
        match detection {
            Ok(log_type) => r.0 == log_type && r.1 is None,
            Err(reason) => r.0 == LogType::Unknown && text::opt(r.1) == Some(
                logging::redacted(reason@),
            ),
        },
{
    match detection {
        Ok(log_type) => (log_type, None),
        Err(reason) => (LogType::Unknown, Some(redact(reason.as_str()))),
    }
}

// --------------------------------------------------------------- the outcome

/// A file that could not be parsed, with the reason already redacted.
#[derive(Debug, Clone)]
pub struct FileFailure {
    pub display_path: String,
    pub reason: String,
}

#[derive(Debug, Clone)]
pub struct Outcome {
    pub files_parsed: usize,
    /// Readable but not an AWS log we handle.
    pub files_skipped: usize,
    /// Damaged input; reported per file instead of aborting.
    pub files_failed: usize,
    pub records_parsed: u64,
    pub cancelled: bool,
    /// Per-file damage, for the warnings log and the UI.
    pub failures: Vec<FileFailure>,
}

/// What a worker reports of one file; nothing where the run was cancelled
/// before its turn.
#[derive(Debug)]
pub struct JobResult {
    pub file_id: u32,
    pub display: String,
    pub parsed: Option<Result<ParsedFile, String>>,
}

/// What the store is told of a file.
#[derive(Debug)]
pub struct FileMark {
    pub file_id: u32,
    pub status: FileStatus,
    pub record_count: Option<u64>,
    pub note: Option<String>,
}

#[derive(Debug, Clone, Copy, PartialEq, Eq, Structural)]
pub enum FileStatus {
    Parsed,
    Skipped,
    Failed,
}

impl FileStatus {
    pub open spec fn name(self) -> Seq<char> {
        match self {
            FileStatus::Parsed => "parsed"@,
            FileStatus::Skipped => "skipped"@,
            FileStatus::Failed => "failed"@,
        }
    }

    pub fn as_str(self) -> (r: &'static str)
        ensures
            r@ == self.name(),
    {
        match self {
            FileStatus::Parsed => "parsed",
            FileStatus::Skipped => "skipped",
            FileStatus::Failed => "failed",
        }
    }
}

pub ghost struct FailureModel {
    pub display_path: Seq<char>,
    pub reason: Seq<char>,
}

pub ghost struct MarkModel {
    pub file_id: u32,
    pub status: FileStatus,
    pub record_count: Option<u64>,
    pub note: Option<Seq<char>>,
}

impl View for FileFailure {
    type V = FailureModel;

    open spec fn view(&self) -> FailureModel {
        FailureModel { display_path: self.display_path@, reason: self.reason@ }
    }
}

impl View for FileMark {
    type V = MarkModel;

    open spec fn view(&self) -> MarkModel {
        MarkModel {
            file_id: self.file_id,
            status: self.status,
            record_count: self.record_count,
            note: text::opt(self.note),
        }
    }
}

pub open spec fn malformed_note(malformed: u64) -> Seq<char> {
    number::decimal(malformed as nat) + " malformed ALB records skipped"@
}

/// What the store is told of a file with this result.
pub open spec fn mark_of(job: JobResult) -> MarkModel {
    match job.parsed {
        None => MarkModel {
            file_id: job.file_id,
            status: FileStatus::Skipped,
            record_count: Some(0),
            note: Some("cancelled before parse"@),
        },
        Some(Ok(parsed)) => if parsed.count == 0 {
            MarkModel {
                file_id: job.file_id,
                status: FileStatus::Skipped,
                record_count: Some(0),
                note: Some("no supported log records"@),
            }
        } else {
            MarkModel {
                file_id: job.file_id,
                status: FileStatus::Parsed,
                record_count: Some(parsed.count),
                note: if parsed.malformed > 0 {
                    Some(malformed_note(parsed.malformed))
                } else {
                    None
                },
            }
        },
        Some(Err(note)) => MarkModel {
            file_id: job.file_id,
            status: FileStatus::Failed,
            record_count: None,
            note: Some(note@),
        },
    }
}

/// The damage to report for a file: any note on one that was not skipped.
pub open spec fn failure_of(job: JobResult) -> Seq<FailureModel> {
    match mark_of(job).note {
        Some(reason) => if mark_of(job).status == FileStatus::Skipped {
            Seq::empty()
        } else {
            seq![FailureModel { display_path: job.display@, reason }]
        },
        None => Seq::empty(),
    }
}

pub open spec fn files_with(jobs: Seq<JobResult>, status: FileStatus) -> nat
    decreases jobs.len(),
{
    if jobs.len() == 0 {
        0
    } else {
        files_with(jobs.drop_last(), status) + if mark_of(jobs.last()).status == status {
            1nat
        } else {
            0
        }
    }
}

pub open spec fn records_in(jobs: Seq<JobResult>) -> nat
    decreases jobs.len(),
{
    if jobs.len() == 0 {
        0
    } else {
        records_in(jobs.drop_last()) + mark_of(jobs.last()).record_count.unwrap_or(0) as nat
    }
}

pub open spec fn failures_in(jobs: Seq<JobResult>) -> Seq<FailureModel>
    decreases jobs.len(),
{
    if jobs.len() == 0 {
        Seq::empty()
    } else {
        failures_in(jobs.drop_last()) + failure_of(jobs.last())
    }
}

/// Every file ends up parsed, skipped or failed, and in one of them only.
pub proof fn every_file_is_settled(jobs: Seq<JobResult>)
    ensures
        files_with(jobs, FileStatus::Parsed) + files_with(jobs, FileStatus::Skipped) + files_with(
            jobs,
            FileStatus::Failed,
        ) == jobs.len(),
    decreases jobs.len(),
{
    if jobs.len() > 0 {
        every_file_is_settled(jobs.drop_last());
    }
}

/// A file that failed is reported, so damage is never silent.
pub proof fn failed_files_are_reported(jobs: Seq<JobResult>, k: int)
    requires
        0 <= k < jobs.len(),
        mark_of(jobs[k]).status == FileStatus::Failed,
    ensures
        exists|j: int|
            0 <= j < failures_in(jobs).len() && (#[trigger] failures_in(jobs)[j]).display_path
                == jobs[k].display@,
    decreases jobs.len(),
{
    let rest = failures_in(jobs.drop_last());
    let added = failure_of(jobs.last());
    if k == jobs.len() - 1 {
        assert(failures_in(jobs)[rest.len() as int] == added[0]);
    } else {
        failed_files_are_reported(jobs.drop_last(), k);
        let j = choose|j: int|
            0 <= j < rest.len() && (#[trigger] rest[j]).display_path == jobs[k].display@;
        assert(failures_in(jobs)[j] == rest[j]);
    }
}

proof fn lemma_records_prefix(jobs: Seq<JobResult>, k: int)
    requires
        0 <= k <= jobs.len(),
    ensures
        records_in(jobs.take(k)) <= records_in(jobs),
    decreases jobs.len() - k,
{
    if k < jobs.len() {
        assert(jobs.take(k + 1).drop_last() =~= jobs.take(k));
        lemma_records_prefix(jobs, k + 1);
    } else {
        assert(jobs.take(k) =~= jobs);
    }
}

fn mark_file(job: &JobResult) -> (mark: FileMark)
    ensures
        mark@ == mark_of(*job),
{
    match &job.parsed {
        None => FileMark {
            file_id: job.file_id,
            status: FileStatus::Skipped,
            record_count: Some(0),
            note: Some("cancelled before parse".to_owned()),
        },
        Some(Ok(parsed)) => {
            if parsed.count == 0 {
                FileMark {
                    file_id: job.file_id,
                    status: FileStatus::Skipped,
                    record_count: Some(0),
                    note: Some("no supported log records".to_owned()),
                }
            } else {
                let note: Option<String> = if parsed.malformed > 0 {
                    let mut text = decimal_text(parsed.malformed);
                    text.push_str(" malformed ALB records skipped");
                    Some(text)
                } else {
                    None
                };
                FileMark {
                    file_id: job.file_id,
                    status: FileStatus::Parsed,
                    record_count: Some(parsed.count),
                    note,
                }
            }
        },
        Some(Err(note)) => FileMark {
            file_id: job.file_id,
            status: FileStatus::Failed,
            record_count: None,
            note: Some(note.as_str().to_owned()),
        },
    }
}

pub open spec fn failure_models(failures: Seq<FileFailure>) -> Seq<FailureModel> {
    failures.map_values(|f: FileFailure| f@)
}

/// What a run comes to, and what the store is told of each file.
pub fn tally(jobs: &Vec<JobResult>, cancelled: bool) -> (r: (Outcome, Vec<FileMark>))
    requires
        records_in(jobs@) <= u64::MAX,
    ensures
        r.0.files_parsed == files_with(jobs@, FileStatus::Parsed),
        r.0.files_skipped == files_with(jobs@, FileStatus::Skipped),
        r.0.files_failed == files_with(jobs@, FileStatus::Failed),
        r.0.records_parsed == records_in(jobs@),
        r.0.cancelled == cancelled,
        failure_models(r.0.failures@) == failures_in(jobs@),
        r.1@.len() == jobs@.len(),
        forall|i: int| 0 <= i < jobs@.len() ==> (#[trigger] r.1@[i])@ == mark_of(jobs@[i]),
{
    let len: usize = jobs.len();
    let mut parsed: usize = 0;
    let mut skipped: usize = 0;
    let mut failed: usize = 0;
    let mut records: u64 = 0;
    let mut failures: Vec<FileFailure> = Vec::new();
    let mut marks: Vec<FileMark> = Vec::new();
    let mut i: usize = 0;
    proof {
        assert(jobs@.take(0) =~= Seq::empty());
        assert(failure_models(failures@) =~= Seq::empty());
    }
    while i < len
        invariant
            i <= len,
            len == jobs@.len(),
            records_in(jobs@) <= u64::MAX,
            parsed == files_with(jobs@.take(i as int), FileStatus::Parsed),
            skipped == files_with(jobs@.take(i as int), FileStatus::Skipped),
            failed == files_with(jobs@.take(i as int), FileStatus::Failed),
            parsed + skipped + failed == i,
            records == records_in(jobs@.take(i as int)),
            failure_models(failures@) == failures_in(jobs@.take(i as int)),
            marks@.len() == i,
            forall|k: int| 0 <= k < i ==> (#[trigger] marks@[k])@ == mark_of(jobs@[k]),
        decreases len - i,
    {
        let ghost listed = failure_models(failures@);
        proof {
            assert(jobs@.take(i + 1).drop_last() =~= jobs@.take(i as int));
            assert(jobs@.take(i + 1).last() == jobs@[i as int]);
            lemma_records_prefix(jobs@, i + 1);
        }
        let mark = mark_file(&jobs[i]);
        match mark.status {
            FileStatus::Parsed => {
                parsed = parsed + 1;
            },
            FileStatus::Skipped => {
                skipped = skipped + 1;
            },
            FileStatus::Failed => {
                failed = failed + 1;
            },
        }
        match mark.record_count {
            Some(n) => {
                records = records + n;
            },
            None => {},
        }
        if mark.status != FileStatus::Skipped {
            match &mark.note {
                Some(reason) => {
                    let failure = FileFailure {
                        display_path: jobs[i].display.as_str().to_owned(),
                        reason: reason.as_str().to_owned(),
                    };
                    let ghost added = failure@;
                    failures.push(failure);
                    assert(failure_models(failures@) =~= listed + seq![added]);
                    assert(failure_of(jobs@[i as int]) =~= seq![added]);
                },
                None => {
                    assert(listed + failure_of(jobs@[i as int]) =~= listed);
                },
            }
        } else {
            assert(listed + failure_of(jobs@[i as int]) =~= listed);
        }
        marks.push(mark);
        i = i + 1;
    }
    assert(jobs@.take(len as int) =~= jobs@);
    (
        Outcome {
            files_parsed: parsed,
            files_skipped: skipped,
            files_failed: failed,
            records_parsed: records,
            cancelled,
            failures,
        },
        marks,
    )
}

} // verus!
