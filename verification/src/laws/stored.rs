//! What is stored and read back: the columns of a row, of the match table, of
//! the detail view and of a pass, the times, the texts and the numbers.

use vstd::prelude::*;

use crate::detect::SampleRecord;
use crate::json;
use crate::json::Json;
use crate::laws::conditions;
use crate::model::NormalizedEvent;
use crate::number;
use crate::payload;
use crate::report::SampleRow;
use crate::results::MatchRow;
use crate::rule;
use crate::rule::eval;
use crate::rule::Op;
use crate::split;
use crate::stamp::Stamp;
use crate::store::candidate;
use crate::store::pass;
use crate::store::rows;
use crate::store::sql;
use crate::store::summary;
use crate::text;

verus! {

// -------------------------------------------------------------------- rows

/// The columns of a row in the order they are read, and of the match table in
/// the order they are stored.
pub proof fn rows_are_read_and_stored_in_order(row: MatchRow, time_micros: Option<i64>)
    ensures
        ({
            let m = summary::row_model(row, time_micros);
            &&& m.event_id == row.event_id && m.time_micros == time_micros
            &&& m.log_type == row.log_type@ && m.matched_fields == row.matched_fields@
            &&& m.columns == seq![
                text::opt(row.event_time),
                text::opt(row.event_name),
                text::opt(row.event_source),
                text::opt(row.identity_arn),
                text::opt(row.source_ip),
                text::opt(row.url),
                text::opt(row.status),
                text::opt(row.target),
                text::opt(row.user_agent),
                text::opt(row.aws_region),
                text::opt(row.error_code),
                text::opt(row.resource),
                text::opt(row.country),
                text::opt(row.rule),
                text::opt(row.method),
            ]
            &&& summary::stored_columns(Some(m)) == seq![
                text::opt(row.event_name),
                text::opt(row.event_source),
                text::opt(row.identity_arn),
                text::opt(row.source_ip),
                text::opt(row.user_agent),
                text::opt(row.aws_region),
                text::opt(row.error_code),
                text::opt(row.url),
                text::opt(row.status),
                text::opt(row.target),
                text::opt(row.resource),
                text::opt(row.country),
                text::opt(row.rule),
                text::opt(row.method),
            ]
            &&& summary::stored_time(Some(m)) == time_micros
        }),
        forall|i: int|
            0 <= i < 14 ==> #[trigger] summary::stored_columns(None)[i] is None,
        summary::stored_columns(None).len() == 14,
        summary::stored_time(None) is None,
{
    let m = summary::row_model(row, time_micros);
    assert(summary::stored_columns(Some(m)) =~= seq![
        text::opt(row.event_name),
        text::opt(row.event_source),
        text::opt(row.identity_arn),
        text::opt(row.source_ip),
        text::opt(row.user_agent),
        text::opt(row.aws_region),
        text::opt(row.error_code),
        text::opt(row.url),
        text::opt(row.status),
        text::opt(row.target),
        text::opt(row.resource),
        text::opt(row.country),
        text::opt(row.rule),
        text::opt(row.method),
    ]);
}

/// The columns of the detail view, by name and in order.
pub proof fn details_are_read_in_order()
    ensures
        Seq::new(18, |i: int| rows::detail_key(i)) == seq![
            "event_time"@,
            "event_source"@,
            "event_name"@,
            "aws_region"@,
            "account_id"@,
            "source_ip"@,
            "user_agent"@,
            "identity_type"@,
            "identity_arn"@,
            "identity_name"@,
            "mfa_authenticated"@,
            "error_code"@,
            "error_message"@,
            "read_only"@,
            "management_event"@,
            "request"@,
            "response"@,
            "resources"@,
        ],
{
    assert(Seq::new(18, |i: int| rows::detail_key(i)) =~= seq![
        "event_time"@,
        "event_source"@,
        "event_name"@,
        "aws_region"@,
        "account_id"@,
        "source_ip"@,
        "user_agent"@,
        "identity_type"@,
        "identity_arn"@,
        "identity_name"@,
        "mfa_authenticated"@,
        "error_code"@,
        "error_message"@,
        "read_only"@,
        "management_event"@,
        "request"@,
        "response"@,
        "resources"@,
    ]);
}

/// An event's id is its file in the upper half and its record in the lower.
pub proof fn ids_hold_file_and_record(file_id: u32, record_index: u64)
    requires
        record_index < 0x1_0000_0000,
    ensures
        rows::packed(file_id, record_index) / 0x1_0000_0000 == file_id,
        rows::packed(file_id, record_index) % 0x1_0000_0000 == record_index,
{
}

/// The model of an event has each of its columns under its own name, and so
/// have the models of a sample and of its row.
pub proof fn models_keep_columns_apart(
    event: NormalizedEvent,
    sample: SampleRecord,
    row: SampleRow,
)
    ensures
        event@.file_id == event.file_id,
        event@.record_index == event.record_index,
        event@.event_time == event.event_time,
        event@.mfa_authenticated == event.mfa_authenticated,
        event@.read_only == event.read_only,
        event@.management_event == event.management_event,
        event@.event_source == text::opt(event.event_source),
        event@.event_name == text::opt(event.event_name),
        event@.aws_region == text::opt(event.aws_region),
        event@.account_id == text::opt(event.account_id),
        event@.source_ip == text::opt(event.source_ip),
        event@.user_agent == text::opt(event.user_agent),
        event@.identity_type == text::opt(event.identity_type),
        event@.identity_arn == text::opt(event.identity_arn),
        event@.identity_name == text::opt(event.identity_name),
        event@.error_code == text::opt(event.error_code),
        event@.error_message == text::opt(event.error_message),
        event@.request == text::opt(event.request),
        event@.response == text::opt(event.response),
        event@.resources == text::opt(event.resources),
        event@.raw == text::opt(event.raw),
        sample@.raw == text::opt(sample.raw),
        sample@.event_time == text::opt(sample.event_time),
        sample@.event_source == text::opt(sample.event_source),
        sample@.event_name == text::opt(sample.event_name),
        sample@.aws_region == text::opt(sample.aws_region),
        sample@.user_identity_type == text::opt(sample.user_identity_type),
        sample@.user_identity_arn == text::opt(sample.user_identity_arn),
        sample@.source_ip_address == text::opt(sample.source_ip_address),
        row@.raw == text::opt(row.raw),
        row@.event_time == text::opt(row.event_time),
        row@.event_source == text::opt(row.event_source),
        row@.event_name == text::opt(row.event_name),
        row@.aws_region == text::opt(row.aws_region),
        row@.user_identity_type == text::opt(row.user_identity_type),
        row@.user_identity_arn == text::opt(row.user_identity_arn),
        row@.source_ip_address == text::opt(row.source_ip_address),
{
}

// -------------------------------------------------------------------- passes

/// The columns of a pass, by name and in order.
pub proof fn passes_read_columns_in_order()
    ensures
        Seq::new(19, |i: int| pass::event_column(i)) == seq![
            "event_source"@,
            "event_name"@,
            "aws_region"@,
            "account_id"@,
            "source_ip"@,
            "user_agent"@,
            "identity_type"@,
            "identity_arn"@,
            "identity_name"@,
            "mfa_authenticated"@,
            "error_code"@,
            "error_message"@,
            "read_only"@,
            "management_event"@,
            "request"@,
            "response"@,
            "resources"@,
            "raw"@,
            "event_time"@,
        ],
{
    assert(Seq::new(19, |i: int| pass::event_column(i)) =~= seq![
        "event_source"@,
        "event_name"@,
        "aws_region"@,
        "account_id"@,
        "source_ip"@,
        "user_agent"@,
        "identity_type"@,
        "identity_arn"@,
        "identity_name"@,
        "mfa_authenticated"@,
        "error_code"@,
        "error_message"@,
        "read_only"@,
        "management_event"@,
        "request"@,
        "response"@,
        "resources"@,
        "raw"@,
        "event_time"@,
    ]);
}

/// A pass hands over the columns it read as they are stored, and no other;
/// only the time is stored otherwise than it was parsed.
pub proof fn passes_hand_over_what_they_read(event: NormalizedEvent, columns: Set<Seq<char>>)
    ensures
        ({
            let seen = pass::seen(event, Some(columns));
            let all = pass::seen(event, None);
            &&& seen.file_id == event.file_id && seen.record_index == event.record_index
            &&& all.event_source == event.event_source && seen.event_source == if columns.contains("event_source"@) {
                event.event_source
            } else {
                None
            }
            &&& all.event_name == event.event_name && seen.event_name == if columns.contains("event_name"@) {
                event.event_name
            } else {
                None
            }
            &&& all.aws_region == event.aws_region && seen.aws_region == if columns.contains("aws_region"@) {
                event.aws_region
            } else {
                None
            }
            &&& all.account_id == event.account_id && seen.account_id == if columns.contains("account_id"@) {
                event.account_id
            } else {
                None
            }
            &&& all.source_ip == event.source_ip && seen.source_ip == if columns.contains("source_ip"@) {
                event.source_ip
            } else {
                None
            }
            &&& all.user_agent == event.user_agent && seen.user_agent == if columns.contains("user_agent"@) {
                event.user_agent
            } else {
                None
            }
            &&& all.identity_type == event.identity_type && seen.identity_type == if columns.contains("identity_type"@) {
                event.identity_type
            } else {
                None
            }
            &&& all.identity_arn == event.identity_arn && seen.identity_arn == if columns.contains("identity_arn"@) {
                event.identity_arn
            } else {
                None
            }
            &&& all.identity_name == event.identity_name && seen.identity_name == if columns.contains("identity_name"@) {
                event.identity_name
            } else {
                None
            }
            &&& all.mfa_authenticated == event.mfa_authenticated && seen.mfa_authenticated == if columns.contains("mfa_authenticated"@) {
                event.mfa_authenticated
            } else {
                None
            }
            &&& all.error_code == event.error_code && seen.error_code == if columns.contains("error_code"@) {
                event.error_code
            } else {
                None
            }
            &&& all.error_message == event.error_message && seen.error_message == if columns.contains("error_message"@) {
                event.error_message
            } else {
                None
            }
            &&& all.read_only == event.read_only && seen.read_only == if columns.contains("read_only"@) {
                event.read_only
            } else {
                None
            }
            &&& all.management_event == event.management_event && seen.management_event == if columns.contains("management_event"@) {
                event.management_event
            } else {
                None
            }
            &&& all.request == event.request && seen.request == if columns.contains("request"@) {
                event.request
            } else {
                None
            }
            &&& all.response == event.response && seen.response == if columns.contains("response"@) {
                event.response
            } else {
                None
            }
            &&& all.resources == event.resources && seen.resources == if columns.contains("resources"@) {
                event.resources
            } else {
                None
            }
            &&& all.raw == event.raw && seen.raw == if columns.contains("raw"@) {
                event.raw
            } else {
                None
            }
            &&& seen.event_time == if columns.contains("event_time"@) {
                rows::time_at(rows::stored_time(event))
            } else {
                None
            }
            &&& all == pass::kept(event)
        }),
{
}

/// A pass selects each column it reads by name, the time in microseconds, and
/// nothing in place of the others.
pub proof fn passes_select_what_they_read(columns: Option<Set<Seq<char>>>, i: int)
    requires
        0 <= i < 19,
    ensures
        ({
            let name = pass::event_column(i);
            let read = match columns {
                Some(chosen) => chosen.contains(name),
                None => true,
            };
            pass::projected_column(columns, i) == if !read {
                "NULL AS "@ + name
            } else if i == 18 {
                "epoch_us(event_time)"@
            } else {
                name
            }
        }),
{
}

/// The query of a pass: one file, a range of its records, in their order.
pub proof fn passes_read_a_range_of_a_file(columns: Option<Set<Seq<char>>>, q: sql::QueryModel)
    ensures
        pass::scan_text(columns, None) == "SELECT event_id, file_id, record_index, "@ + split::join(
            Seq::new(19, |i: int| pass::projected_column(columns, i)),
            ", "@,
        ) + " FROM events WHERE file_id = ? AND record_index >= ? AND record_index < ?"@
            + " ORDER BY record_index"@,
        pass::scan_text(columns, Some(q)) == "SELECT event_id, file_id, record_index, "@
            + split::join(Seq::new(19, |i: int| pass::projected_column(columns, i)), ", "@)
            + " FROM events WHERE file_id = ? AND record_index >= ? AND record_index < ?"@ + q.sql
            + " ORDER BY record_index"@,
{
    let head = "SELECT event_id, file_id, record_index, "@ + split::join(
        Seq::new(19, |i: int| pass::projected_column(columns, i)),
        ", "@,
    ) + " FROM events WHERE file_id = ? AND record_index >= ? AND record_index < ?"@;
    assert(head + Seq::<char>::empty() =~= head);
}

// ------------------------------------------------------------------ filters

/// A column is tested in the database for equality with a text, or for being
/// one of a list of texts, when it is a text column of its own.
pub proof fn filters_test_text_columns(field: Seq<char>, t: Seq<char>, items: Seq<Seq<char>>)
    ensures
        ({
            let plain = field == "event_source"@ || field == "event_name"@ || field
                == "aws_region"@ || field == "account_id"@ || field == "source_ip"@ || field
                == "user_agent"@ || field == "identity_type"@ || field == "identity_arn"@ || field
                == "identity_name"@ || field == "error_code"@ || field == "error_message"@;
            let eq = conditions::one(field, Op::Eq, rule::LiteralModel::Str(t));
            let listed = conditions::one(field, Op::In, rule::LiteralModel::OneOf(items));
            &&& plain ==> (candidate::test_of(eq) matches Some(test) && candidate::test_sql(test)
                == field + " = ?"@ && test.values == seq![t])
            &&& plain && items.len() > 0 ==> (candidate::test_of(listed) matches Some(test)
                && candidate::test_sql(test) == field + " IN ("@ + split::join(
                Seq::new(items.len(), |i: int| "?"@),
                ", "@,
            ) + ")"@ && test.values == items)
            &&& items.len() == 0 ==> candidate::test_of(listed) is None
            &&& !plain ==> candidate::test_of(eq) is None && candidate::test_of(listed) is None
        }),
        forall|op: Op, value: rule::LiteralModel|
            op != Op::Eq && op != Op::In ==> #[trigger] candidate::test_of(
                conditions::one(field, op, value),
            ) is None,
{
    assert(candidate::mark_list(items.len()) =~= Seq::new(items.len(), |i: int| "?"@));
}

/// A rule's tests must all hold, one rule of a set must; a set with a rule
/// that has no test is not narrowed.
pub proof fn filters_join_their_tests(r: rule::RuleModel, rules: Seq<rule::RuleModel>)
    ensures
        candidate::rule_tests(r).len() == 0 ==> candidate::rule_filter(r) is None,
        candidate::rule_tests(r).len() > 0 ==> (candidate::rule_filter(r) matches Some(q) && q.sql
            == "("@ + split::join(
            candidate::rule_tests(r).map_values(|t: candidate::TestModel| candidate::test_sql(t)),
            " AND "@,
        ) + ")"@),
        rules.len() == 0 || (exists|i: int|
            0 <= i < rules.len() && candidate::rule_filter(#[trigger] rules[i]) is None)
            ==> candidate::set_filter(rules) is None,
        candidate::set_filter(rules) matches Some(q) ==> q.sql == " AND ("@ + split::join(
            rules.map_values(|x: rule::RuleModel| candidate::rule_filter(x)->Some_0.sql),
            " OR "@,
        ) + ")"@,
{
}

// ------------------------------------------------------------------- payload

/// A plain member of a payload column is discovered under the column's name,
/// a dot and its key.
pub proof fn plain_members_are_discovered(
    event: NormalizedEvent,
    column: Seq<char>,
    value: Json,
    pairs: Vec<(String, Json)>,
    k: int,
)
    requires
        column == "request"@ || column == "response"@ || column == "resources"@,
        value == Json::Object(pairs),
        0 <= k < pairs@.len(),
        pairs@[k].1 is Text || pairs@[k].1 is Number || pairs@[k].1 is Bool,
    ensures
        eval::column_json(event, column) == Some(value) ==> payload::event_leaves(event).contains(
            column + "."@ + pairs@[k].0@,
        ),
        payload::MAX_DEPTH == 6 && payload::MAX_INDEX == 4 && payload::MAX_PATHS == 5000,
{
    lemma_pair_leaf(column, pairs@, pairs@.len(), k);
    let leaf = column + "."@ + pairs@[k].0@;
    let all = payload::event_leaves(event);
    let a = payload::column_leaves(event, "request"@);
    let b = payload::column_leaves(event, "response"@);
    let c = payload::column_leaves(event, "resources"@);
    if eval::column_json(event, column) == Some(value) {
        let own = payload::leaves(column, value, 0);
        let at = choose|i: int| 0 <= i < own.len() && own[i] == leaf;
        if column == "request"@ {
            assert(all[at] == a[at]);
        } else if column == "response"@ {
            assert(all[a.len() + at] == b[at]);
        } else {
            assert(all[a.len() + b.len() + at] == c[at]);
        }
    }
}

proof fn lemma_pair_leaf(column: Seq<char>, pairs: Seq<(String, Json)>, n: nat, k: int)
    requires
        0 <= k < n <= pairs.len(),
        pairs[k].1 is Text || pairs[k].1 is Number || pairs[k].1 is Bool,
    ensures
        payload::pair_leaves(column, pairs, n, 0).contains(column + "."@ + pairs[k].0@),
    decreases n,
{
    let leaf = column + "."@ + pairs[k].0@;
    let before = payload::pair_leaves(column, pairs, (n - 1) as nat, 0);
    let last = payload::leaves(payload::below(column, pairs[n - 1].0@), pairs[n - 1].1, 1);
    let all = payload::pair_leaves(column, pairs, n, 0);
    if k == n - 1 {
        assert(last =~= seq![leaf]);
        assert(all[before.len() as int] == leaf);
    } else {
        lemma_pair_leaf(column, pairs, (n - 1) as nat, k);
        let at = choose|i: int| 0 <= i < before.len() && before[i] == leaf;
        assert(all[at] == leaf);
    }
}

// --------------------------------------------------------------------- times

/// A time of this offset is stored in UTC, in whole microseconds.
pub proof fn times_are_stored_in_utc(event: NormalizedEvent, at: Stamp, micros: int)
    requires
        event.event_time == Some(at),
        at.local == micros * 1000 + at.offset * 1_000_000_000,
        i64::MIN <= micros <= i64::MAX,
    ensures
        rows::stored_time(event) == Some(micros as i64),
        -377_705_116_800_000_000 <= micros < 253_402_300_800_000_000 ==> (rows::time_at(
            rows::stored_time(event),
        ) matches Some(t) && t.offset == 0 && t.local == micros * 1000),
{
    assert(at.unix_nanos() == micros * 1000);
}

// --------------------------------------------------------------------- texts

/// A member is the value of the first pair with its key.
pub proof fn members_are_found_by_key(pairs: Vec<(String, Json)>, key: Seq<char>, k: int)
    ensures
        0 <= k < pairs@.len() && pairs@[k].0@ == key && (forall|j: int|
            0 <= j < k ==> (#[trigger] pairs@[j]).0@ != key) ==> Json::Object(pairs).member(key)
            == Some(pairs@[k].1),
        (forall|j: int| 0 <= j < pairs@.len() ==> (#[trigger] pairs@[j]).0@ != key)
            ==> Json::Object(pairs).member(key) is None,
        Json::Null.member(key) is None,
        Json::Bool(true).member(key) is None,
{
    if 0 <= k < pairs@.len() && pairs@[k].0@ == key && (forall|j: int|
        0 <= j < k ==> (#[trigger] pairs@[j]).0@ != key) {
        lemma_pair(pairs@, key, 0, k);
    }
    if forall|j: int| 0 <= j < pairs@.len() ==> (#[trigger] pairs@[j]).0@ != key {
        lemma_no_pair(pairs@, key, 0);
    }
}

proof fn lemma_pair(pairs: Seq<(String, Json)>, key: Seq<char>, i: int, k: int)
    requires
        0 <= i <= k < pairs.len(),
        pairs[k].0@ == key,
        forall|j: int| 0 <= j < k ==> (#[trigger] pairs[j]).0@ != key,
    ensures
        json::pair_from(pairs, key, i) == Some(pairs[k].1),
    decreases k - i,
{
    if i < k {
        assert(pairs[i].0@ != key);
        lemma_pair(pairs, key, i + 1, k);
    }
}

proof fn lemma_no_pair(pairs: Seq<(String, Json)>, key: Seq<char>, i: int)
    requires
        0 <= i,
        forall|j: int| 0 <= j < pairs.len() ==> (#[trigger] pairs[j]).0@ != key,
    ensures
        json::pair_from(pairs, key, i) is None,
    decreases pairs.len() - i,
{
    if i < pairs.len() {
        assert(pairs[i].0@ != key);
        lemma_no_pair(pairs, key, i + 1);
    }
}

/// A cell is written down as what it was made of.
pub proof fn cells_hold_what_they_were_made_of(t: Seq<char>, n: nat, v: Json)
    ensures
        json::Cell::of_text(Some(t)) == json::Cell::Text(t),
        json::Cell::of_text(None) == json::Cell::Null,
        json::Cell::of_integer(Some(n)) == json::Cell::Whole(n),
        json::Cell::of_integer(None) == json::Cell::Null,
        json::Cell::of_value(None) == json::Cell::Null,
        json::Cell::of_value(Some(Json::Null)) == json::Cell::Null,
        v matches Json::Text(s) ==> json::Cell::of_value(Some(v)) == json::Cell::Text(s@),
        !(v is Text) && !(v is Null) ==> json::Cell::of_value(Some(v)) == json::Cell::Part(v),
        json::Cell::Null.text() == "null"@,
        json::Cell::Text(t).text() == json::quote(t),
        json::Cell::Whole(n).text() == number::decimal(n),
        json::Cell::Part(v).text() == json::json_text(v),
{
}

// ------------------------------------------------------------------- numbers

pub proof fn lemma_decimal(n: nat)
    ensures
        number::decimal(n).len() > 0,
        number::all_digits(number::decimal(n)),
        number::digits_value(number::decimal(n)) == n,
    decreases n,
{
    if n < 10 {
        let s = number::decimal(n);
        assert(s.drop_last() =~= Seq::empty());
        assert(number::digits_value(Seq::empty()) == 0);
        assert(s.last() as u32 == 0x30 + n);
    } else {
        lemma_decimal(n / 10);
        let s = number::decimal(n);
        assert(s.drop_last() =~= number::decimal(n / 10));
        assert(s.last() as u32 == 0x30 + n % 10);
        assert forall|i: int| 0 <= i < s.len() implies text::is_digit(#[trigger] s[i]) by {
            if i < s.len() - 1 {
                assert(s[i] == number::decimal(n / 10)[i]);
            }
        }
    }
}

/// The ten digits, and how they follow each other in a number.
pub proof fn numbers_are_written_in_decimal(n: nat)
    ensures
        number::decimal(0) == seq!['0'] && number::decimal(1) == seq!['1'],
        number::decimal(2) == seq!['2'] && number::decimal(3) == seq!['3'],
        number::decimal(4) == seq!['4'] && number::decimal(5) == seq!['5'],
        number::decimal(6) == seq!['6'] && number::decimal(7) == seq!['7'],
        number::decimal(8) == seq!['8'] && number::decimal(9) == seq!['9'],
        n >= 10 ==> number::decimal(n) == number::decimal(n / 10) + number::decimal(n % 10),
{
    if n >= 10 {
        assert(number::decimal(n) =~= number::decimal(n / 10) + number::decimal(n % 10));
    }
}

/// A number reads back from its decimal text, with or without a plus sign,
/// unless it is beyond the limit.
pub proof fn numbers_read_back(n: nat, max: nat)
    ensures
        n <= max ==> number::parse_unsigned(number::decimal(n), max) == Some(n),
        n > max ==> number::parse_unsigned(number::decimal(n), max) is None,
        n <= max ==> number::parse_unsigned(seq!['+'] + number::decimal(n), max) == Some(n),
        number::parse_unsigned(Seq::empty(), max) is None,
        number::signed_decimal(n as int) == number::decimal(n),
        n > 0 ==> number::signed_decimal(-n) == "-"@ + number::decimal(n),
{
    lemma_decimal(n);
    let s = number::decimal(n);
    assert(text::is_digit(s[0]));
    let signed = seq!['+'] + s;
    assert(signed.drop_first() =~= s);
}

} // verus!
