//! Event summaries: how the rows the database returns become pages, and how
//! hits are stored together with the summary of their event.

use vstd::prelude::*;

use crate::number;
use crate::results::{EventPage, MatchRow};
use crate::rule::Hit;
use crate::store::rows;
use crate::store::rows::{evidence_text, type_of_event, MatchRecord};
use crate::store::window::next_cursor;
use crate::text;
use crate::text::copied;

verus! {

/// One event's summary with the time it is sorted by.
#[derive(Debug, Clone)]
pub struct EventSummary {
    pub time_micros: Option<i64>,
    pub row: MatchRow,
}

/// A summary, its text columns in the order they are read.
pub ghost struct SummaryModel {
    pub event_id: u64,
    pub time_micros: Option<i64>,
    pub columns: Seq<Option<Seq<char>>>,
    pub log_type: Seq<char>,
    pub matched_fields: Seq<char>,
}

/// The text columns of a row in the order they are read.
pub open spec fn columns_of(row: MatchRow) -> Seq<Option<Seq<char>>> {
    seq![
        text::opt(row.event_time),
        text::opt(row.event_name),
        text::opt(row.event_source),
        text::opt(row.identity_arn),
        text::opt(row.source_ip),
        text::opt(row.url),
        text::opt(row.status),
        text::opt(row.target),
        text::opt(row.user_agent),
        text::opt(row.aws_region),
        text::opt(row.error_code),
        text::opt(row.resource),
        text::opt(row.country),
        text::opt(row.rule),
        text::opt(row.method),
    ]
}

pub open spec fn row_model(row: MatchRow, time_micros: Option<i64>) -> SummaryModel {
    SummaryModel {
        event_id: row.event_id,
        time_micros,
        columns: columns_of(row),
        log_type: row.log_type@,
        matched_fields: row.matched_fields@,
    }
}

impl View for EventSummary {
    type V = SummaryModel;

    open spec fn view(&self) -> SummaryModel {
        row_model(self.row, self.time_micros)
    }
}

pub open spec fn opts(columns: Seq<Option<String>>) -> Seq<Option<Seq<char>>> {
    Seq::new(columns.len(), |i: int| text::opt(columns[i]))
}

/// Builds a summary from the columns of one row. The log type comes from the
/// event's file rather than the row.
pub fn read_summary(
    event_id: u64,
    time_micros: Option<i64>,
    columns: &Vec<Option<String>>,
    types: &Vec<(u32, String)>,
    matched_fields: String,
) -> (r: EventSummary)
    requires
        columns@.len() == 15,
    ensures
        r@ == (SummaryModel {
            event_id,
            time_micros,
            columns: opts(columns@),
            log_type: rows::type_from(types@, (event_id / 0x1_0000_0000) as u32, 0),
            matched_fields: matched_fields@,
        }),
{
    let r = EventSummary {
        time_micros,
        row: MatchRow {
            event_id,
            event_time: copied(&columns[0]),
            event_name: copied(&columns[1]),
            event_source: copied(&columns[2]),
            identity_arn: copied(&columns[3]),
            source_ip: copied(&columns[4]),
            log_type: type_of_event(types, event_id),
            user_agent: copied(&columns[8]),
            aws_region: copied(&columns[9]),
            error_code: copied(&columns[10]),
            resource: copied(&columns[11]),
            url: copied(&columns[5]),
            status: copied(&columns[6]),
            target: copied(&columns[7]),
            country: copied(&columns[12]),
            rule: copied(&columns[13]),
            method: copied(&columns[14]),
            matched_fields,
        },
    };
    assert(r@.columns =~= opts(columns@));
    r
}

fn copy_row(row: &MatchRow) -> (out: MatchRow)
    ensures
        forall|time: Option<i64>| #[trigger] row_model(out, time) == row_model(*row, time),
{
    let out = MatchRow {
        event_id: row.event_id,
        event_time: copied(&row.event_time),
        event_name: copied(&row.event_name),
        event_source: copied(&row.event_source),
        identity_arn: copied(&row.identity_arn),
        source_ip: copied(&row.source_ip),
        log_type: row.log_type.as_str().to_owned(),
        user_agent: copied(&row.user_agent),
        aws_region: copied(&row.aws_region),
        error_code: copied(&row.error_code),
        resource: copied(&row.resource),
        url: copied(&row.url),
        status: copied(&row.status),
        target: copied(&row.target),
        country: copied(&row.country),
        rule: copied(&row.rule),
        method: copied(&row.method),
        matched_fields: row.matched_fields.as_str().to_owned(),
    };
    assert(columns_of(out) =~= columns_of(*row));
    out
}

// --------------------------------------------------------------------- lookup

pub open spec fn summaries(found: Seq<EventSummary>) -> Seq<SummaryModel> {
    Seq::new(found.len(), |i: int| found[i]@)
}

/// The summary of an event among the first `n` that were found.
pub open spec fn summary_of(found: Seq<SummaryModel>, event_id: u64, n: nat) -> Option<SummaryModel>
    decreases n,
{
    if n == 0 || n > found.len() {
        None
    } else if found[n - 1].event_id == event_id {
        Some(found[n - 1])
    } else {
        summary_of(found, event_id, (n - 1) as nat)
    }
}

/// Where the summary of an event stands among those found.
fn position(found: &Vec<EventSummary>, event_id: u64) -> (r: Option<usize>)
    ensures
        match r {
            Some(i) => i < found@.len() && summary_of(
                summaries(found@),
                event_id,
                found@.len(),
            ) == Some(found@[i as int]@),
            None => summary_of(summaries(found@), event_id, found@.len()) is None,
        },
{
    let n: usize = found.len();
    let mut i: usize = n;
    while i > 0
        invariant
            i <= n,
            n == found@.len(),
            summary_of(summaries(found@), event_id, n as nat) == summary_of(
                summaries(found@),
                event_id,
                i as nat,
            ),
        decreases i,
    {
        assert(summaries(found@)[i - 1] == found@[i - 1]@);
        if found[i - 1].row.event_id == event_id {
            return Some(i - 1);
        }
        i = i - 1;
    }
    None
}

// ---------------------------------------------------------------------- pages

/// The rows of a page: the events in their sort order, each once, without
/// those that have no summary.
pub open spec fn page_of(ids: Seq<u64>, found: Seq<SummaryModel>, n: nat) -> Seq<SummaryModel>
    decreases n,
{
    if n == 0 || n > ids.len() {
        Seq::empty()
    } else {
        let before = page_of(ids, found, (n - 1) as nat);
        match summary_of(found, ids[n - 1], found.len()) {
            Some(summary) => if ids.take(n - 1).contains(ids[n - 1]) {
                before
            } else {
                before.push(summary)
            },
            None => before,
        }
    }
}

pub open spec fn ids_of(keys: Seq<(u64, Option<i64>)>) -> Seq<u64> {
    Seq::new(keys.len(), |i: int| keys[i].0)
}

/// The cursor behind the last key of a page.
pub open spec fn is_behind(page: EventPage, last: Option<(u64, Option<i64>)>) -> bool {
    &&& page.next_cursor is Some <==> last is Some
    &&& last matches Some((id, time)) ==> {
        &&& page.next_cursor->Some_0.event_id@ == number::decimal(id as nat)
        &&& text::opt(page.next_cursor->Some_0.time_micros) == (match time {
            Some(us) => Some(number::signed_decimal(us as int)),
            None => None,
        })
    }
}

/// The rows without their sort time.
pub open spec fn shown_rows(rows: Seq<MatchRow>) -> Seq<SummaryModel> {
    Seq::new(rows.len(), |i: int| row_model(rows[i], None))
}

pub open spec fn untimed(found: Seq<SummaryModel>) -> Seq<SummaryModel> {
    Seq::new(found.len(), |i: int| SummaryModel { time_micros: None, ..found[i] })
}

fn seen_before(keys: &Vec<(u64, Option<i64>)>, n: usize) -> (b: bool)
    requires
        n < keys@.len(),
    ensures
        b == ids_of(keys@).take(n as int).contains(ids_of(keys@)[n as int]),
{
    let id: u64 = keys[n].0;
    let ghost before = ids_of(keys@).take(n as int);
    let mut i: usize = 0;
    while i < n
        invariant
            i <= n,
            n < keys@.len(),
            id == keys@[n as int].0,
            before == ids_of(keys@).take(n as int),
            forall|k: int| 0 <= k < i ==> (#[trigger] before[k]) != id,
        decreases n - i,
    {
        if keys[i].0 == id {
            assert(before[i as int] == id);
            return true;
        }
        i = i + 1;
    }
    false
}

/// A page of events: their keys in sort order, and the summaries fetched for
/// them, in any order.
pub fn event_page(keys: &Vec<(u64, Option<i64>)>, found: &Vec<EventSummary>) -> (page: EventPage)
    ensures
        shown_rows(page.rows@) == untimed(
            page_of(ids_of(keys@), summaries(found@), keys@.len()),
        ),
        page.total is None,
        is_behind(
            page,
            if keys@.len() > 0 {
                Some(keys@.last())
            } else {
                None
            },
        ),
{
    let n: usize = keys.len();
    let ghost ids = ids_of(keys@);
    let ghost all = summaries(found@);
    let mut out: Vec<MatchRow> = Vec::new();
    let mut i: usize = 0;
    assert(shown_rows(out@) =~= untimed(page_of(ids, all, 0)));
    while i < n
        invariant
            i <= n,
            n == keys@.len(),
            ids == ids_of(keys@),
            all == summaries(found@),
            shown_rows(out@) == untimed(page_of(ids, all, i as nat)),
        decreases n - i,
    {
        let id: u64 = keys[i].0;
        assert(ids[i as int] == id);
        let ghost before = shown_rows(out@);
        match position(found, id) {
            Some(at) => {
                if !seen_before(keys, i) {
                    out.push(copy_row(&found[at].row));
                    proof {
                        let summary = found@[at as int]@;
                        assert(shown_rows(out@) =~= before.push(
                            SummaryModel { time_micros: None, ..summary },
                        ));
                        assert(untimed(page_of(ids, all, (i + 1) as nat)) =~= untimed(
                            page_of(ids, all, i as nat),
                        ).push(SummaryModel { time_micros: None, ..summary }));
                    }
                }
            },
            None => {},
        }
        i = i + 1;
    }
    let last: Option<(u64, Option<i64>)> = if n > 0 {
        Some(keys[n - 1])
    } else {
        None
    };
    EventPage { rows: out, total: None, next_cursor: next_cursor(last) }
}

/// A page of matches, which come with their summaries in sort order.
pub fn match_page(found: &Vec<EventSummary>) -> (page: EventPage)
    ensures
        shown_rows(page.rows@) == untimed(summaries(found@)),
        page.total is None,
        is_behind(
            page,
            if found@.len() > 0 {
                Some((found@.last().row.event_id, found@.last().time_micros))
            } else {
                None
            },
        ),
{
    let n: usize = found.len();
    let mut out: Vec<MatchRow> = Vec::new();
    let mut i: usize = 0;
    while i < n
        invariant
            i <= n,
            n == found@.len(),
            out@.len() == i,
            forall|k: int|
                0 <= k < i ==> row_model(#[trigger] out@[k], None) == row_model(
                    found@[k].row,
                    None,
                ),
        decreases n - i,
    {
        out.push(copy_row(&found[i].row));
        i = i + 1;
    }
    assert(shown_rows(out@) =~= untimed(summaries(found@)));
    let last: Option<(u64, Option<i64>)> = if n > 0 {
        Some((found[n - 1].row.event_id, found[n - 1].time_micros))
    } else {
        None
    };
    EventPage { rows: out, total: None, next_cursor: next_cursor(last) }
}

/// A page holds no event twice, only events that were asked for, and every
/// one of them whose summary was found.
pub proof fn pages_hold_each_event_once(ids: Seq<u64>, found: Seq<SummaryModel>, n: nat)
    requires
        n <= ids.len(),
    ensures
        forall|i: int, j: int|
            0 <= i < j < page_of(ids, found, n).len() ==> (#[trigger] page_of(
                ids,
                found,
                n,
            )[i]).event_id != (#[trigger] page_of(ids, found, n)[j]).event_id,
        forall|i: int|
            0 <= i < page_of(ids, found, n).len() ==> ids.take(n as int).contains(
                (#[trigger] page_of(ids, found, n)[i]).event_id,
            ),
        forall|k: int|
            0 <= k < n && summary_of(found, #[trigger] ids[k], found.len()) is Some ==> exists|
                i: int,
            |
                0 <= i < page_of(ids, found, n).len() && (#[trigger] page_of(
                    ids,
                    found,
                    n,
                )[i]).event_id == ids[k],
    decreases n,
{
    if n > 0 {
        let m = (n - 1) as nat;
        pages_hold_each_event_once(ids, found, m);
        let before = page_of(ids, found, m);
        let page = page_of(ids, found, n);
        let id = ids[m as int];
        lemma_summary_has_id(found, id, found.len());
        assert(ids.take(n as int).take(m as int) =~= ids.take(m as int));
        assert forall|i: int| 0 <= i < before.len() implies ids.take(n as int).contains(
            (#[trigger] before[i]).event_id,
        ) by {
            let k = choose|k: int|
                0 <= k < m && ids.take(m as int)[k] == before[i].event_id;
            assert(ids.take(n as int)[k] == before[i].event_id);
        }
        assert(ids.take(n as int)[m as int] == id);
        assert forall|k: int|
            0 <= k < n && summary_of(found, #[trigger] ids[k], found.len()) is Some implies exists|
                i: int,
            |
            0 <= i < page.len() && (#[trigger] page[i]).event_id == ids[k] by {
            if k < m {
                let i = choose|i: int|
                    0 <= i < before.len() && (#[trigger] before[i]).event_id == ids[k];
                assert(page[i].event_id == ids[k]);
            } else if ids.take(m as int).contains(id) {
                let j = choose|j: int| 0 <= j < m && ids.take(m as int)[j] == id;
                assert(ids[j] == id);
                let i = choose|i: int|
                    0 <= i < before.len() && (#[trigger] before[i]).event_id == ids[j];
                assert(page[i].event_id == ids[k]);
            } else {
                assert(page[before.len() as int].event_id == id);
            }
        }
    }
}

proof fn lemma_summary_has_id(found: Seq<SummaryModel>, event_id: u64, n: nat)
    ensures
        summary_of(found, event_id, n) matches Some(summary) ==> summary.event_id == event_id,
    decreases n,
{
    if 0 < n <= found.len() && found[n - 1].event_id != event_id {
        lemma_summary_has_id(found, event_id, (n - 1) as nat);
    }
}

// ---------------------------------------------------------------- stored hits

/// A row of the match table: a hit with the summary of its event.
#[derive(Debug)]
pub struct MatchInsert {
    pub record: MatchRecord,
    pub time_micros: Option<i64>,
    /// The summary's text columns in the table's order.
    pub columns: Vec<Option<String>>,
}

/// Where the `i`th stored column stands among those that are read.
pub open spec fn read_at(i: int) -> int {
    if i < 4 {
        i + 1
    } else if i < 7 {
        i + 4
    } else if i < 10 {
        i - 2
    } else {
        i + 1
    }
}

/// The stored columns of a summary; an unknown event leaves them empty.
pub open spec fn stored_columns(summary: Option<SummaryModel>) -> Seq<Option<Seq<char>>> {
    Seq::new(
        14,
        |i: int|
            match summary {
                Some(s) => s.columns[read_at(i)],
                None => None,
            },
    )
}

pub open spec fn stored_time(summary: Option<SummaryModel>) -> Option<i64> {
    match summary {
        Some(s) => s.time_micros,
        None => None,
    }
}

fn row_columns(row: &MatchRow) -> (columns: Vec<Option<String>>)
    ensures
        forall|time: Option<i64>|
            opts(columns@) == stored_columns(Some(#[trigger] row_model(*row, time))),
{
    let mut columns: Vec<Option<String>> = Vec::new();
    columns.push(copied(&row.event_name));
    columns.push(copied(&row.event_source));
    columns.push(copied(&row.identity_arn));
    columns.push(copied(&row.source_ip));
    columns.push(copied(&row.user_agent));
    columns.push(copied(&row.aws_region));
    columns.push(copied(&row.error_code));
    columns.push(copied(&row.url));
    columns.push(copied(&row.status));
    columns.push(copied(&row.target));
    columns.push(copied(&row.resource));
    columns.push(copied(&row.country));
    columns.push(copied(&row.rule));
    columns.push(copied(&row.method));
    assert forall|time: Option<i64>|
        opts(columns@) == stored_columns(Some(#[trigger] row_model(*row, time))) by {
        assert(opts(columns@) =~= stored_columns(Some(row_model(*row, time))));
    }
    columns
}

fn no_columns() -> (columns: Vec<Option<String>>)
    ensures
        opts(columns@) == stored_columns(None),
{
    let mut columns: Vec<Option<String>> = Vec::new();
    let mut i: usize = 0;
    while i < 14
        invariant
            i <= 14,
            columns@.len() == i,
            forall|k: int| 0 <= k < i ==> (#[trigger] columns@[k]) is None,
        decreases 14 - i,
    {
        columns.push(None);
        i = i + 1;
    }
    assert(opts(columns@) =~= stored_columns(None));
    columns
}

/// The rows of a batch of hits, numbered on from `next`. A hit for an unknown
/// event keeps its evidence and the type of its file; its summary is empty.
pub fn match_inserts(
    next: u64,
    batch: &Vec<(String, Hit)>,
    types: &Vec<(u32, String)>,
    found: &Vec<EventSummary>,
) -> (out: Vec<MatchInsert>)
    requires
        next + batch@.len() <= u64::MAX,
    ensures
        out@.len() == batch@.len(),
        forall|i: int|
            0 <= i < batch@.len() ==> {
                let summary = summary_of(
                    summaries(found@),
                    batch@[i].1.event_id,
                    found@.len(),
                );
                &&& (#[trigger] out@[i]).record@ == rows::record_of(
                    next + i,
                    batch@[i].0@,
                    batch@[i].1,
                    types@,
                )
                &&& out@[i].time_micros == stored_time(summary)
                &&& opts(out@[i].columns@) == stored_columns(summary)
            },
{
    let n: usize = batch.len();
    let mut out: Vec<MatchInsert> = Vec::new();
    let mut i: usize = 0;
    while i < n
        invariant
            i <= n,
            n == batch@.len(),
            next + n <= u64::MAX,
            out@.len() == i,
            forall|k: int|
                0 <= k < i ==> {
                    let summary = summary_of(
                        summaries(found@),
                        batch@[k].1.event_id,
                        found@.len(),
                    );
                    &&& (#[trigger] out@[k]).record@ == rows::record_of(
                        next + k,
                        batch@[k].0@,
                        batch@[k].1,
                        types@,
                    )
                    &&& out@[k].time_micros == stored_time(summary)
                    &&& opts(out@[k].columns@) == stored_columns(summary)
                },
        decreases n - i,
    {
        let entry = &batch[i];
        let event_id: u64 = entry.1.event_id;
        let record = MatchRecord {
            match_id: next + i as u64,
            rule_id: entry.0.as_str().to_owned(),
            event_id,
            fields: evidence_text(&entry.1.matched_fields),
            log_type: type_of_event(types, event_id),
        };
        let (time_micros, columns): (Option<i64>, Vec<Option<String>>) = match position(
            found,
            event_id,
        ) {
            Some(at) => (found[at].time_micros, row_columns(&found[at].row)),
            None => (None, no_columns()),
        };
        out.push(MatchInsert { record, time_micros, columns });
        i = i + 1;
    }
    out
}

} // verus!
