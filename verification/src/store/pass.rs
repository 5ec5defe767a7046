//! One pass over the stored events for rule evaluation: which columns are
//! read, which files, and in what chunks.

use vstd::prelude::*;

use crate::model::NormalizedEvent;
use crate::rule;
use crate::rule::eval;
use crate::rule::Rule;
use crate::split;
use crate::split::{concat, joined};
use crate::store::candidate;
use crate::store::rows;
use crate::store::sql;
use crate::store::sql::Query;
use crate::store::StoreError;
use crate::text;
use crate::textmap::TextMap;

verus! {

// ------------------------------------------------------------------- columns

/// Event columns in the order a pass reads them.
pub open spec fn event_column(i: int) -> Seq<char> {
    if i == 0 {
        "event_source"@
    } else if i == 1 {
        "event_name"@
    } else if i == 2 {
        "aws_region"@
    } else if i == 3 {
        "account_id"@
    } else if i == 4 {
        "source_ip"@
    } else if i == 5 {
        "user_agent"@
    } else if i == 6 {
        "identity_type"@
    } else if i == 7 {
        "identity_arn"@
    } else if i == 8 {
        "identity_name"@
    } else if i == 9 {
        "mfa_authenticated"@
    } else if i == 10 {
        "error_code"@
    } else if i == 11 {
        "error_message"@
    } else if i == 12 {
        "read_only"@
    } else if i == 13 {
        "management_event"@
    } else if i == 14 {
        "request"@
    } else if i == 15 {
        "response"@
    } else if i == 16 {
        "resources"@
    } else if i == 17 {
        "raw"@
    } else {
        "event_time"@
    }
}

fn column_at(i: usize) -> (r: &'static str)
    requires
        i < 19,
    ensures
        r@ == event_column(i as int),
{
    match i {
        0 => "event_source",
        1 => "event_name",
        2 => "aws_region",
        3 => "account_id",
        4 => "source_ip",
        5 => "user_agent",
        6 => "identity_type",
        7 => "identity_arn",
        8 => "identity_name",
        9 => "mfa_authenticated",
        10 => "error_code",
        11 => "error_message",
        12 => "read_only",
        13 => "management_event",
        14 => "request",
        15 => "response",
        16 => "resources",
        17 => "raw",
        _ => "event_time",
    }
}

/// A column is read: every one where nothing was chosen.
pub open spec fn is_wanted(columns: Option<Set<Seq<char>>>, name: Seq<char>) -> bool {
    match columns {
        Some(chosen) => chosen.contains(name),
        None => true,
    }
}

pub open spec fn projected_column(columns: Option<Set<Seq<char>>>, i: int) -> Seq<char> {
    if is_wanted(columns, event_column(i)) {
        if i == 18 {
            "epoch_us(event_time)"@
        } else {
            event_column(i)
        }
    } else {
        "NULL AS "@ + event_column(i)
    }
}

/// The selected columns, the time as microseconds since the Unix epoch; the
/// others are projected as NULL so row positions stay fixed.
pub open spec fn projection_text(columns: Option<Set<Seq<char>>>) -> Seq<char> {
    split::join(Seq::new(19, |i: int| projected_column(columns, i)), ", "@)
}

pub open spec fn chosen(columns: Option<&TextMap<()>>) -> Option<Set<Seq<char>>> {
    match columns {
        Some(map) => Some(map@.dom()),
        None => None,
    }
}

fn projection(columns: Option<&TextMap<()>>) -> (out: String)
    ensures
        out@ == projection_text(chosen(columns)),
{
    let mut parts: Vec<String> = Vec::new();
    let mut i: usize = 0;
    while i < 19
        invariant
            i <= 19,
            parts@.len() == i,
            forall|k: int|
                0 <= k < i ==> (#[trigger] parts@[k])@ == projected_column(chosen(columns), k),
        decreases 19 - i,
    {
        let name: &'static str = column_at(i);
        let wanted: bool = match columns {
            Some(map) => map.get(name).is_some(),
            None => true,
        };
        if wanted {
            if i == 18 {
                parts.push("epoch_us(event_time)".to_owned());
            } else {
                parts.push(name.to_owned());
            }
        } else {
            parts.push(concat("NULL AS ", name));
        }
        i = i + 1;
    }
    assert(text::texts(parts@) =~= Seq::new(19, |i: int| projected_column(chosen(columns), i)));
    joined(&parts, ", ")
}

/// The query that reads one chunk. Its values are the file, the first record
/// index and the one past the last, then those of the narrowing filter.
pub open spec fn scan_text(columns: Option<Set<Seq<char>>>, filter: Option<sql::QueryModel>) -> Seq<
    char,
> {
    "SELECT event_id, file_id, record_index, "@ + projection_text(columns)
        + " FROM events WHERE file_id = ? AND record_index >= ? AND record_index < ?"@ + (
    match filter {
        Some(q) => q.sql,
        None => Seq::empty(),
    }) + " ORDER BY record_index"@
}

/// The query that reads one chunk of a file, limited to the given columns
/// and narrowed by the given filter.
pub fn scan_query(columns: Option<&TextMap<()>>, filter: &Option<Query>) -> (out: String)
    ensures
        out@ == scan_text(chosen(columns), candidate::opt_query(*filter)),
{
    let mut out = "SELECT event_id, file_id, record_index, ".to_owned();
    out.push_str(projection(columns).as_str());
    out.push_str(" FROM events WHERE file_id = ? AND record_index >= ? AND record_index < ?");
    let ghost head = out@;
    match filter {
        Some(q) => out.push_str(q.sql.as_str()),
        None => {
            assert(out@ + Seq::<char>::empty() =~= out@);
        },
    }
    out.push_str(" ORDER BY record_index");
    out
}

// ---------------------------------------------------- what a pass hands over

pub open spec fn only_if(flag: bool, value: Option<String>) -> Option<String> {
    if flag {
        value
    } else {
        None
    }
}

pub open spec fn flag_if(flag: bool, value: Option<bool>) -> Option<bool> {
    if flag {
        value
    } else {
        None
    }
}

/// The event as the database keeps it: its time in whole microseconds, in UTC.
pub open spec fn kept(event: NormalizedEvent) -> NormalizedEvent {
    NormalizedEvent { event_time: rows::time_at(rows::stored_time(event)), ..event }
}

/// The event as a pass over these columns hands it over: what was not read is
/// absent.
pub open spec fn seen(event: NormalizedEvent, columns: Option<Set<Seq<char>>>) -> NormalizedEvent {
    NormalizedEvent {
        file_id: event.file_id,
        record_index: event.record_index,
        event_time: if is_wanted(columns, "event_time"@) {
            rows::time_at(rows::stored_time(event))
        } else {
            None
        },
        event_source: only_if(is_wanted(columns, "event_source"@), event.event_source),
        event_name: only_if(is_wanted(columns, "event_name"@), event.event_name),
        aws_region: only_if(is_wanted(columns, "aws_region"@), event.aws_region),
        account_id: only_if(is_wanted(columns, "account_id"@), event.account_id),
        source_ip: only_if(is_wanted(columns, "source_ip"@), event.source_ip),
        user_agent: only_if(is_wanted(columns, "user_agent"@), event.user_agent),
        identity_type: only_if(is_wanted(columns, "identity_type"@), event.identity_type),
        identity_arn: only_if(is_wanted(columns, "identity_arn"@), event.identity_arn),
        identity_name: only_if(is_wanted(columns, "identity_name"@), event.identity_name),
        mfa_authenticated: flag_if(
            is_wanted(columns, "mfa_authenticated"@),
            event.mfa_authenticated,
        ),
        error_code: only_if(is_wanted(columns, "error_code"@), event.error_code),
        error_message: only_if(is_wanted(columns, "error_message"@), event.error_message),
        read_only: flag_if(is_wanted(columns, "read_only"@), event.read_only),
        management_event: flag_if(
            is_wanted(columns, "management_event"@),
            event.management_event,
        ),
        request: only_if(is_wanted(columns, "request"@), event.request),
        response: only_if(is_wanted(columns, "response"@), event.response),
        resources: only_if(is_wanted(columns, "resources"@), event.resources),
        raw: only_if(is_wanted(columns, "raw"@), event.raw),
    }
}

/// A set of columns that holds all a rule reads.
pub open spec fn covers(columns: Option<Set<Seq<char>>>, rule: rule::RuleModel) -> bool {
    forall|column: Seq<char>| #[trigger] rule.reads(column) ==> is_wanted(columns, column)
}

proof fn lemma_segment(field: Seq<char>, i: int)
    requires
        0 <= i <= field.len(),
        forall|j: int| 0 <= j < i ==> field[j] != '.' && field[j] != '[',
    ensures
        i <= rule::segment_end(field, i) <= field.len(),
        forall|j: int|
            0 <= j < rule::segment_end(field, i) ==> field[j] != '.' && field[j] != '[',
        rule::segment_end(field, i) < field.len() ==> field[rule::segment_end(field, i)] == '.'
            || field[rule::segment_end(field, i)] == '[',
    decreases field.len() - i,
{
    if i < field.len() && field[i] != '.' && field[i] != '[' {
        lemma_segment(field, i + 1);
    }
}

spec fn is_stored(name: Seq<char>) -> bool {
    exists|i: int| 0 <= i < 19 && name == #[trigger] event_column(i)
}

proof fn lemma_stored_plain(i: int, k: int)
    requires
        0 <= i < 19,
        0 <= k < event_column(i).len(),
    ensures
        event_column(i)[k] != '[',
        event_column(i)[k] != '.',
{
    reveal_strlit("event_source");
    reveal_strlit("event_name");
    reveal_strlit("aws_region");
    reveal_strlit("account_id");
    reveal_strlit("source_ip");
    reveal_strlit("user_agent");
    reveal_strlit("identity_type");
    reveal_strlit("identity_arn");
    reveal_strlit("identity_name");
    reveal_strlit("mfa_authenticated");
    reveal_strlit("error_code");
    reveal_strlit("error_message");
    reveal_strlit("read_only");
    reveal_strlit("management_event");
    reveal_strlit("request");
    reveal_strlit("response");
    reveal_strlit("resources");
    reveal_strlit("raw");
    reveal_strlit("event_time");
}

/// A column that is read keeps its value.
proof fn lemma_column_kept(event: NormalizedEvent, columns: Option<Set<Seq<char>>>, name: Seq<char>)
    requires
        is_stored(name) ==> is_wanted(columns, name),
    ensures
        eval::column(seen(event, columns), name) == eval::column(kept(event), name),
        eval::column_json(seen(event, columns), name) == eval::column_json(kept(event), name),
{
    assert(event_column(0) == "event_source"@);
    assert(event_column(1) == "event_name"@);
    assert(event_column(2) == "aws_region"@);
    assert(event_column(3) == "account_id"@);
    assert(event_column(4) == "source_ip"@);
    assert(event_column(5) == "user_agent"@);
    assert(event_column(6) == "identity_type"@);
    assert(event_column(7) == "identity_arn"@);
    assert(event_column(8) == "identity_name"@);
    assert(event_column(9) == "mfa_authenticated"@);
    assert(event_column(10) == "error_code"@);
    assert(event_column(11) == "error_message"@);
    assert(event_column(12) == "read_only"@);
    assert(event_column(13) == "management_event"@);
    assert(event_column(14) == "request"@);
    assert(event_column(15) == "response"@);
    assert(event_column(16) == "resources"@);
    assert(event_column(17) == "raw"@);
    assert(event_column(18) == "event_time"@);
}

proof fn lemma_field_kept(
    event: NormalizedEvent,
    columns: Option<Set<Seq<char>>>,
    field: Seq<char>,
)
    requires
        is_wanted(columns, rule::column_of(field)),
    ensures
        eval::field_value(field, seen(event, columns)) == eval::field_value(field, kept(event)),
{
    lemma_segment(field, 0);
    let end = rule::segment_end(field, 0);
    let first = rule::column_of(field);
    split::lemma_find_from(field, '.', 0);
    match split::find_from(field, '.', 0) {
        None => {
            if is_stored(field) {
                let i = choose|i: int| 0 <= i < 19 && field == #[trigger] event_column(i);
                if end < field.len() {
                    lemma_stored_plain(i, end);
                }
                assert(first =~= field);
            }
            lemma_column_kept(event, columns, field);
        },
        Some(k) => {
            let name = field.take(k);
            if is_stored(name) {
                let i = choose|i: int| 0 <= i < 19 && name == #[trigger] event_column(i);
                if end < k {
                    assert(field[end] == name[end]);
                    lemma_stored_plain(i, end);
                }
                assert(end == k);
                assert(first =~= name);
            }
            lemma_column_kept(event, columns, name);
        },
    }
}

/// A pass with no choice of columns reads everything: an event comes back as it
/// was appended, where its time is in UTC and whole microseconds.
pub proof fn whole_passes_read_everything(event: NormalizedEvent)
    ensures
        seen(event, None) == kept(event),
        event.event_time is None || rows::is_storable(event.event_time->Some_0) ==> seen(event, None)
            == event,
{
    if let Some(at) = event.event_time {
        if rows::is_storable(at) {
            rows::lemma_storable(event);
        }
    }
}

/// A rule only looks at the columns it names: handed an event with the other
/// columns left out, each of its field conditions fires on the same value as on
/// the stored event.
pub proof fn unread_columns_do_not_matter(
    rule: rule::RuleModel,
    event: NormalizedEvent,
    columns: Option<Set<Seq<char>>>,
    k: int,
)
    requires
        covers(columns, rule),
        0 <= k < rule.fields.len(),
    ensures
        eval::fires(rule.fields[k], seen(event, columns)) == eval::fires(rule.fields[k], kept(event)),
{
    assert(rule.reads(rule::column_of(rule.fields[k].field)));
    lemma_field_kept(event, columns, rule.fields[k].field);
}

proof fn lemma_firing_kept(
    rule: rule::RuleModel,
    event: NormalizedEvent,
    columns: Option<Set<Seq<char>>>,
    vars: Seq<Seq<char>>,
    i: int,
)
    requires
        covers(columns, rule),
    ensures
        eval::firing_from(rule.fields, seen(event, columns), vars, i) == eval::firing_from(
            rule.fields,
            kept(event),
            vars,
            i,
        ),
    decreases vars.len() - i,
{
    if 0 <= i < vars.len() {
        lemma_firing_kept(rule, event, columns, vars, i + 1);
        lemma_var_kept(rule, event, columns, vars[i]);
    }
}

proof fn lemma_var_kept(
    rule: rule::RuleModel,
    event: NormalizedEvent,
    columns: Option<Set<Seq<char>>>,
    var: Seq<char>,
)
    requires
        covers(columns, rule),
    ensures
        eval::var_fires(rule.fields, seen(event, columns), var) == eval::var_fires(
            rule.fields,
            kept(event),
            var,
        ),
{
    assert forall|k: int| 0 <= k < rule.fields.len() implies eval::fires(
        #[trigger] rule.fields[k],
        seen(event, columns),
    ) == eval::fires(rule.fields[k], kept(event)) by {
        unread_columns_do_not_matter(rule, event, columns, k);
    }
}

proof fn lemma_holds_kept(
    rule: rule::RuleModel,
    condition: rule::ConditionModel,
    event: NormalizedEvent,
    columns: Option<Set<Seq<char>>>,
)
    requires
        covers(columns, rule),
    ensures
        eval::holds(condition, rule.fields, seen(event, columns)) == eval::holds(
            condition,
            rule.fields,
            kept(event),
        ),
    decreases condition,
{
    match condition {
        rule::ConditionModel::Var(var) => lemma_var_kept(rule, event, columns, var),
        rule::ConditionModel::Not(inner) => lemma_holds_kept(rule, *inner, event, columns),
        rule::ConditionModel::And(a, b) => {
            lemma_holds_kept(rule, *a, event, columns);
            lemma_holds_kept(rule, *b, event, columns);
        },
        rule::ConditionModel::Or(a, b) => {
            lemma_holds_kept(rule, *a, event, columns);
            lemma_holds_kept(rule, *b, event, columns);
        },
        rule::ConditionModel::NOf(_, vars) => lemma_firing_kept(rule, event, columns, vars, 0),
    }
}

proof fn lemma_evidence_kept(
    rule: rule::RuleModel,
    event: NormalizedEvent,
    columns: Option<Set<Seq<char>>>,
    n: nat,
)
    requires
        covers(columns, rule),
    ensures
        eval::evidence_of(rule.fields, seen(event, columns), n) == eval::evidence_of(
            rule.fields,
            kept(event),
            n,
        ),
    decreases n,
{
    if 0 < n <= rule.fields.len() {
        lemma_evidence_kept(rule, event, columns, (n - 1) as nat);
        unread_columns_do_not_matter(rule, event, columns, n - 1);
    }
}

/// Reading only the columns a rule names changes neither whether it matches a
/// stored event nor its evidence.
pub proof fn narrow_passes_find_the_same(
    rule: rule::RuleModel,
    event: NormalizedEvent,
    columns: Option<Set<Seq<char>>>,
)
    requires
        covers(columns, rule),
    ensures
        eval::matches(rule, seen(event, columns)) == eval::matches(rule, kept(event)),
        eval::evidence_of(rule.fields, seen(event, columns), rule.fields.len())
            == eval::evidence_of(rule.fields, kept(event), rule.fields.len()),
{
    lemma_holds_kept(rule, rule.condition, event, columns);
    lemma_evidence_kept(rule, event, columns, rule.fields.len());
}

/// The columns that some rule of the set reads.
pub fn columns_of_rules(rules: &Vec<&Rule>) -> (columns: TextMap<()>)
    ensures
        forall|i: int|
            0 <= i < rules@.len() ==> covers(Some(columns@.dom()), (#[trigger] rules@[i])@),
        forall|column: Seq<char>| #[trigger]
            columns@.dom().contains(column) ==> exists|i: int|
                0 <= i < rules@.len() && (#[trigger] rules@[i])@.reads(column),
{
    let mut columns: TextMap<()> = TextMap::new();
    let n: usize = rules.len();
    let mut i: usize = 0;
    while i < n
        invariant
            i <= n,
            n == rules@.len(),
            forall|k: int|
                0 <= k < i ==> covers(Some(columns@.dom()), (#[trigger] rules@[k])@),
            forall|column: Seq<char>| #[trigger]
                columns@.dom().contains(column) ==> exists|k: int|
                    0 <= k < i && (#[trigger] rules@[k])@.reads(column),
        decreases n - i,
    {
        let own = rules[i].columns();
        let m: usize = own.len();
        let ghost before = columns@;
        let mut j: usize = 0;
        while j < m
            invariant
                j <= m,
                m == own.keys().len(),
                i < n,
                n == rules@.len(),
                forall|column: Seq<char>| #[trigger]
                    own@.dom().contains(column) <==> rules@[i as int]@.reads(column),
                forall|column: Seq<char>| #[trigger]
                    columns@.dom().contains(column) <==> before.dom().contains(column)
                        || own.keys().take(j as int).contains(column),
            decreases m - j,
        {
            let ghost sofar = columns@;
            let (name, _): (&str, &()) = own.entry(j);
            let ghost less = own.keys().take(j as int);
            let ghost more = own.keys().take(j + 1);
            let ghost here = name@;
            columns.insert(name.to_owned(), ());
            proof {
                assert(more =~= less.push(here));
                assert forall|column: Seq<char>| #[trigger]
                    columns@.dom().contains(column) <==> before.dom().contains(column)
                        || more.contains(column) by {
                    if less.contains(column) {
                        assert(more[less.index_of(column)] == column);
                    }
                    assert(more[j as int] == here);
                    if more.contains(column) {
                        let k = more.index_of(column);
                        if k < j {
                            assert(less[k] == column);
                        }
                    }
                    assert(sofar.dom().contains(column) <==> before.dom().contains(column)
                        || less.contains(column));
                }
            }
            j = j + 1;
        }
        proof {
            assert(own.keys().take(m as int) =~= own.keys());
            assert forall|column: Seq<char>| #[trigger]
                columns@.dom().contains(column) <==> before.dom().contains(column)
                    || rules@[i as int]@.reads(column) by {
                assert(own@.dom().contains(column) <==> own.keys().contains(column));
            }
            assert forall|k: int| 0 <= k < i + 1 implies covers(
                Some(columns@.dom()),
                (#[trigger] rules@[k])@,
            ) by {
                if k < i {
                    assert(covers(Some(before.dom()), rules@[k]@));
                    assert forall|column: Seq<char>| #[trigger]
                        rules@[k]@.reads(column) implies columns@.dom().contains(column) by {
                        assert(is_wanted(Some(before.dom()), column));
                    }
                } else {
                    assert forall|column: Seq<char>| #[trigger]
                        rules@[k]@.reads(column) implies columns@.dom().contains(column) by {}
                }
            }
            assert forall|column: Seq<char>| #[trigger]
                columns@.dom().contains(column) implies exists|k: int|
                0 <= k < i + 1 && (#[trigger] rules@[k])@.reads(column) by {
                if before.dom().contains(column) {
                    let k = choose|k: int| 0 <= k < i && (#[trigger] rules@[k])@.reads(column);
                    assert(rules@[k]@.reads(column));
                } else {
                    assert(rules@[i as int]@.reads(column));
                }
            }
        }
        i = i + 1;
    }
    columns
}

// -------------------------------------------------------------------- chunks

/// Record indexes per chunk. The database hands a whole result over at once,
/// so reads go in bounded chunks, not one query over the table.
pub const CHUNK: u64 = 50_000;

/// One file's place in a pass: the type that decides whether a rule reads it,
/// how many events it holds and one past its highest record index.
#[derive(Debug)]
pub struct FileSpan {
    pub file_id: u32,
    pub log_type: String,
    pub rows: u64,
    pub end: u64,
}

/// One past the highest record index of a file; none stored means zero. The
/// row count is another number: a record that failed to normalize leaves a
/// hole in the indexes.
pub fn span_end(last: Option<u64>) -> (end: u64)
    requires
        last matches Some(n) ==> n <= u32::MAX,
    ensures
        end == (match last {
            Some(n) => n + 1,
            None => 0,
        }),
{
    match last {
        Some(n) => n + 1,
        None => 0,
    }
}

/// A file of this log type is read for the rules.
pub open spec fn some_rule_runs(rules: Seq<&Rule>, log_type: Seq<char>) -> bool {
    exists|i: int| 0 <= i < rules.len() && (#[trigger] rules[i])@.runs_on(log_type)
}

/// Whether a file of this log type has to be read: no rule that runs on it
/// means no event in it can match.
pub fn wants_type(rules: &Vec<&Rule>, log_type: &str) -> (b: bool)
    ensures
        b == some_rule_runs(rules@, log_type@),
{
    let n: usize = rules.len();
    let mut i: usize = 0;
    while i < n
        invariant
            i <= n,
            n == rules@.len(),
            forall|k: int| 0 <= k < i ==> !(#[trigger] rules@[k])@.runs_on(log_type@),
        decreases n - i,
    {
        if rules[i].applies_to(log_type) {
            assert(rules@[i as int]@.runs_on(log_type@));
            return true;
        }
        i = i + 1;
    }
    false
}

/// A range of records of one file, read at once.
#[derive(Debug, Clone, Copy, PartialEq, Eq, Structural)]
pub struct Chunk {
    /// The file's position among the spans.
    pub file: usize,
    pub from: u64,
    pub to: u64,
}

/// The chunks of a file from record index `from` on.
pub open spec fn chunks_of(file: usize, from: nat, end: nat) -> Seq<Chunk>
    decreases (if from < end { end - from } else { 0 }),
{
    if from >= end {
        Seq::empty()
    } else {
        seq![Chunk { file, from: from as u64, to: (from + CHUNK) as u64 }] + chunks_of(
            file,
            from + CHUNK as nat,
            end,
        )
    }
}

/// The chunks of the files from position `i` on.
pub open spec fn chunks_from(spans: Seq<FileSpan>, wanted: Seq<bool>, i: int) -> Seq<Chunk>
    decreases spans.len() - i,
{
    if i < 0 || i >= spans.len() {
        Seq::empty()
    } else if wanted[i] {
        chunks_of(i as usize, 0, spans[i].end as nat) + chunks_from(spans, wanted, i + 1)
    } else {
        chunks_from(spans, wanted, i + 1)
    }
}

/// The events a case holds.
pub open spec fn rows_in(spans: Seq<FileSpan>) -> nat
    decreases spans.len(),
{
    if spans.len() == 0 {
        0
    } else {
        rows_in(spans.drop_last()) + spans.last().rows as nat
    }
}

proof fn lemma_rows_prefix(spans: Seq<FileSpan>, k: int)
    requires
        0 <= k <= spans.len(),
    ensures
        rows_in(spans.take(k)) <= rows_in(spans),
    decreases spans.len() - k,
{
    if k < spans.len() {
        assert(spans.take(k + 1).drop_last() =~= spans.take(k));
        lemma_rows_prefix(spans, k + 1);
    } else {
        assert(spans.take(k) =~= spans);
    }
}

/// What a pass does next.
#[derive(Debug)]
pub enum Step {
    /// Read this chunk.
    Read(Chunk),
    /// The pass is over; the case holds this many events, read or not.
    Done(u64),
}

/// A pass over the stored events, chunk by chunk.
pub struct Pass {
    spans: Vec<FileSpan>,
    wanted: Vec<bool>,
    stored: u64,
    file: usize,
    from: u64,
}

impl Pass {
    #[verifier::type_invariant]
    spec fn wf(self) -> bool {
        &&& self.wanted@.len() == self.spans@.len()
        &&& self.file <= self.spans@.len()
        &&& self.from <= 0x2_0000_0000
        &&& forall|i: int|
            0 <= i < self.spans@.len() ==> (#[trigger] self.spans@[i]).end <= 0x1_0000_0000
    }

    /// The chunks still to be read.
    pub closed spec fn left(self) -> Seq<Chunk> {
        if self.file < self.spans@.len() && self.wanted@[self.file as int] {
            chunks_of(
                self.file,
                self.from as nat,
                self.spans@[self.file as int].end as nat,
            ) + chunks_from(self.spans@, self.wanted@, self.file + 1)
        } else {
            chunks_from(self.spans@, self.wanted@, self.file as int)
        }
    }

    /// How many events the case holds.
    pub closed spec fn total(self) -> u64 {
        self.stored
    }

    /// Starts a pass over these files, unless it was abandoned already.
    pub fn start(spans: Vec<FileSpan>, wanted: Vec<bool>, cancelled: bool) -> (r: Result<
        Pass,
        StoreError,
    >)
        requires
            wanted@.len() == spans@.len(),
            rows_in(spans@) <= u64::MAX,
            forall|i: int|
                0 <= i < spans@.len() ==> (#[trigger] spans@[i]).end <= 0x1_0000_0000,
        ensures
            match r {
                Ok(pass) => {
                    &&& !cancelled
                    &&& pass.left() == chunks_from(spans@, wanted@, 0)
                    &&& pass.total() == rows_in(spans@)
                },
                Err(e) => cancelled && e is Cancelled,
            },
    {
        if cancelled {
            return Err(StoreError::Cancelled);
        }
        let n: usize = spans.len();
        let mut stored: u64 = 0;
        let mut i: usize = 0;
        assert(spans@.take(0) =~= Seq::empty());
        while i < n
            invariant
                i <= n,
                n == spans@.len(),
                rows_in(spans@) <= u64::MAX,
                stored == rows_in(spans@.take(i as int)),
            decreases n - i,
        {
            proof {
                assert(spans@.take(i + 1).drop_last() =~= spans@.take(i as int));
                lemma_rows_prefix(spans@, i + 1);
            }
            stored = stored + spans[i].rows;
            i = i + 1;
        }
        assert(spans@.take(n as int) =~= spans@);
        Ok(Pass { spans, wanted, stored, file: 0, from: 0 })
    }

    /// What comes next. Polled before every chunk and once the pass is over,
    /// so a run the user abandoned stops promptly and never reports success.
    pub fn next(&mut self, cancelled: bool) -> (r: Result<Step, StoreError>)
        ensures
            match r {
                Err(e) => cancelled && e is Cancelled && final(self).left() == old(self).left(),
                Ok(Step::Read(chunk)) => {
                    &&& !cancelled
                    &&& old(self).left().len() > 0
                    &&& chunk == old(self).left()[0]
                    &&& final(self).left() == old(self).left().drop_first()
                },
                Ok(Step::Done(stored)) => {
                    &&& !cancelled
                    &&& old(self).left().len() == 0
                    &&& stored == old(self).total()
                    &&& final(self).left() == old(self).left()
                },
            },
            final(self).total() == old(self).total(),
    {
        if cancelled {
            return Err(StoreError::Cancelled);
        }
        proof {
            use_type_invariant(&*self);
        }
        let n: usize = self.spans.len();
        let ghost whole = self.left();
        while self.file < n
            invariant
                !cancelled,
                n == self.spans@.len(),
                self.wf(),
                self.left() == whole,
                whole == old(self).left(),
                self.total() == old(self).total(),
            decreases n - self.file,
        {
            let file: usize = self.file;
            if self.wanted[file] && self.from < self.spans[file].end {
                let chunk = Chunk { file, from: self.from, to: self.from + CHUNK };
                proof {
                    let end = self.spans@[file as int].end as nat;
                    let rest = chunks_of(file, (self.from + CHUNK) as nat, end);
                    let behind = chunks_from(self.spans@, self.wanted@, file + 1);
                    assert(whole == seq![chunk] + rest + behind);
                    assert(whole[0] == chunk);
                    assert(whole.drop_first() =~= rest + behind);
                }
                self.from = self.from + CHUNK;
                assert(self.left() == whole.drop_first());
                return Ok(Step::Read(chunk));
            }
            proof {
                let behind = chunks_from(self.spans@, self.wanted@, file + 1);
                assert(Seq::<Chunk>::empty() + behind =~= behind);
            }
            self.from = 0;
            self.file = file + 1;
            proof {
                if self.file < n && self.wanted@[self.file as int] {
                    assert(chunks_from(self.spans@, self.wanted@, self.file as int)
                        == chunks_of(self.file, 0, self.spans@[self.file as int].end as nat)
                        + chunks_from(self.spans@, self.wanted@, self.file + 1));
                }
            }
        }
        Ok(Step::Done(self.stored))
    }
}

/// Every record of a file that is read falls into exactly one of its chunks.
pub proof fn chunks_cover_a_file_once(file: usize, from: nat, end: nat, record: nat)
    requires
        from <= record < end,
        end <= 0x1_0000_0000,
    ensures
        exists|k: int|
            0 <= k < chunks_of(file, from, end).len() && (#[trigger] chunks_of(
                file,
                from,
                end,
            )[k]).from <= record < chunks_of(file, from, end)[k].to,
        forall|j: int, k: int|
            0 <= j < k < chunks_of(file, from, end).len() ==> (#[trigger] chunks_of(
                file,
                from,
                end,
            )[j]).to <= (#[trigger] chunks_of(file, from, end)[k]).from,
    decreases end - from,
{
    let all = chunks_of(file, from, end);
    let first = Chunk { file, from: from as u64, to: (from + CHUNK) as u64 };
    let rest = chunks_of(file, from + CHUNK as nat, end);
    assert(all == seq![first] + rest);
    assert(all[0] == first);
    lemma_chunks_ascend(file, from, end);
    if record >= from + CHUNK {
        chunks_cover_a_file_once(file, from + CHUNK as nat, end, record);
        let k = choose|k: int|
            0 <= k < rest.len() && (#[trigger] rest[k]).from <= record < rest[k].to;
        assert(all[k + 1] == rest[k]);
    }
}

proof fn lemma_chunks_ascend(file: usize, from: nat, end: nat)
    requires
        end <= 0x1_0000_0000,
        from <= 0x2_0000_0000,
    ensures
        forall|k: int|
            0 <= k < chunks_of(file, from, end).len() ==> (#[trigger] chunks_of(
                file,
                from,
                end,
            )[k]).from >= from,
        forall|j: int, k: int|
            0 <= j < k < chunks_of(file, from, end).len() ==> (#[trigger] chunks_of(
                file,
                from,
                end,
            )[j]).to <= (#[trigger] chunks_of(file, from, end)[k]).from,
    decreases (if from < end { end - from } else { 0 }),
{
    if from < end {
        let all = chunks_of(file, from, end);
        let first = Chunk { file, from: from as u64, to: (from + CHUNK) as u64 };
        let rest = chunks_of(file, from + CHUNK as nat, end);
        lemma_chunks_ascend(file, from + CHUNK as nat, end);
        assert(all == seq![first] + rest);
        assert forall|k: int| 0 <= k < all.len() implies (#[trigger] all[k]).from >= from by {
            if k > 0 {
                assert(all[k] == rest[k - 1]);
            }
        }
        assert forall|j: int, k: int| 0 <= j < k < all.len() implies (#[trigger] all[j]).to <= (
        #[trigger] all[k]).from by {
            assert(all[k] == rest[k - 1]);
            if j > 0 {
                assert(all[j] == rest[j - 1]);
            }
        }
    }
}

/// A pass narrowed to some files, rows and columns loses no match: where a
/// rule that runs on a file's type matches one of its stored events, the file is read,
/// the event passes the filter, and the rule matches what is read of it with
/// the same evidence.
pub proof fn narrowing_loses_no_match(
    rules: Seq<&Rule>,
    i: int,
    log_type: Seq<char>,
    event: NormalizedEvent,
    columns: Option<Set<Seq<char>>>,
)
    requires
        0 <= i < rules.len(),
        rules[i]@.runs_on(log_type),
        eval::matches(rules[i]@, kept(event)),
        covers(columns, rules[i]@),
    ensures
        some_rule_runs(rules, log_type),
        candidate::admits(rule::set::borrowed_models(rules), kept(event)),
        eval::matches(rules[i]@, seen(event, columns)),
        eval::evidence_of(rules[i]@.fields, seen(event, columns), rules[i]@.fields.len())
            == eval::evidence_of(rules[i]@.fields, kept(event), rules[i]@.fields.len()),
{
    let models = rule::set::borrowed_models(rules);
    assert(models[i] == rules[i]@);
    candidate::matches_pass_the_set_filter(models, kept(event), i);
    narrow_passes_find_the_same(rules[i]@, event, columns);
}

} // verus!
