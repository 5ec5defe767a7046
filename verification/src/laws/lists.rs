//! The event and match lists: which columns a row shows and a search tests,
//! what bounds a list, and how it is ordered and paged.

use vstd::prelude::*;

use crate::results;
use crate::results::Window;
use crate::split;
use crate::stamp;
use crate::store::rows;
use crate::store::sql;
use crate::store::window;
use crate::store::window::{SearchShape, Table};
use crate::text;

verus! {

// ---------------------------------------------------------------- columns

/// The first `n` shown columns, as a list in a query.
pub open spec fn listed(table: Table, n: nat) -> Seq<char>
    decreases n,
{
    if n == 0 {
        Seq::empty()
    } else if n == 1 {
        window::shown_column(table, 0)
    } else {
        listed(table, (n - 1) as nat) + ", "@ + window::shown_column(table, n - 1)
    }
}

/// The columns in front of the texts: the id, the time, and the time as shown.
pub open spec fn keys_listed() -> Seq<char> {
    "e.event_id, epoch_us(e.event_time), "@
        + "strftime(e.event_time + INTERVAL 9 HOUR, '%Y-%m-%d %H:%M:%S.%g'), "@
}

/// Each text column of a match, by name.
pub proof fn match_columns_by_name()
    ensures
        window::shown_column(Table::Matches, 0) == "e.event_name"@,
        window::shown_column(Table::Matches, 1) == "e.event_source"@,
        window::shown_column(Table::Matches, 2) == "e.identity_arn"@,
        window::shown_column(Table::Matches, 3) == "e.source_ip"@,
        window::shown_column(Table::Matches, 4) == "e.url"@,
        window::shown_column(Table::Matches, 5) == "e.status"@,
        window::shown_column(Table::Matches, 6) == "e.target"@,
        window::shown_column(Table::Matches, 7) == "e.user_agent"@,
        window::shown_column(Table::Matches, 8) == "e.aws_region"@,
        window::shown_column(Table::Matches, 9) == "e.error_code"@,
        window::shown_column(Table::Matches, 10) == "e.resource"@,
        window::shown_column(Table::Matches, 11) == "e.country"@,
        window::shown_column(Table::Matches, 12) == "e.rule"@,
        window::shown_column(Table::Matches, 13) == "e.method"@,
{
}

/// Each text column of an event, by name or by the place in a JSON column.
pub proof fn event_columns_by_name()
    ensures
        window::shown_column(Table::Events, 0) == "e.event_name"@,
        window::shown_column(Table::Events, 1) == "e.event_source"@,
        window::shown_column(Table::Events, 2) == "e.identity_arn"@,
        window::shown_column(Table::Events, 3) == "e.source_ip"@,
        window::shown_column(Table::Events, 4) == "json_extract_string(e.request, '$.url')"@,
        window::shown_column(Table::Events, 5)
            == "coalesce(json_extract_string(e.response, '$.elb_status_code'), json_extract_string(e.response, '$.status'))"@,
        window::shown_column(Table::Events, 6)
            == "coalesce(json_extract_string(e.resources, '$.target'), json_extract_string(e.resources, '$.host'))"@,
        window::shown_column(Table::Events, 7) == "e.user_agent"@,
        window::shown_column(Table::Events, 8) == "e.aws_region"@,
        window::shown_column(Table::Events, 9) == "e.error_code"@,
        window::shown_column(Table::Events, 10) == "json_extract_string(e.resources, '$[0].ARN')"@,
        window::shown_column(Table::Events, 11) == "json_extract_string(e.request, '$.country')"@,
        window::shown_column(Table::Events, 12)
            == "json_extract_string(e.response, '$.terminating_rule_id')"@,
        window::shown_column(Table::Events, 13) == "json_extract_string(e.request, '$.method')"@,
{
}

/// No text column of a match is tested twice, nor is one of an event.
pub proof fn shown_columns_are_different(table: Table, i: int, j: int)
    requires
        0 <= i < j < 14,
    ensures
        window::shown_column(table, i) != window::shown_column(table, j),
{
    match table {
        Table::Matches => {
            lemma_match_names();
        },
        Table::Events => {
            lemma_event_names();
        },
    }
}

proof fn lemma_match_names()
    ensures
        forall|i: int, j: int|
            0 <= i < j < 14 ==> #[trigger] window::match_shown(i) != #[trigger] window::match_shown(j),
{
    reveal_strlit("e.event_name");
    assert("e.event_name"@.len() == 12);
    reveal_strlit("e.event_source");
    assert("e.event_source"@.len() == 14);
    reveal_strlit("e.identity_arn");
    assert("e.identity_arn"@.len() == 14);
    reveal_strlit("e.source_ip");
    assert("e.source_ip"@.len() == 11);
    reveal_strlit("e.url");
    assert("e.url"@.len() == 5);
    reveal_strlit("e.status");
    assert("e.status"@.len() == 8);
    reveal_strlit("e.target");
    assert("e.target"@.len() == 8);
    reveal_strlit("e.user_agent");
    assert("e.user_agent"@.len() == 12);
    reveal_strlit("e.aws_region");
    assert("e.aws_region"@.len() == 12);
    reveal_strlit("e.error_code");
    assert("e.error_code"@.len() == 12);
    reveal_strlit("e.resource");
    assert("e.resource"@.len() == 10);
    reveal_strlit("e.country");
    assert("e.country"@.len() == 9);
    reveal_strlit("e.rule");
    assert("e.rule"@.len() == 6);
    reveal_strlit("e.method");
    assert("e.method"@.len() == 8);
    assert("e.event_name"@[2] != "e.user_agent"@[2]);
    assert("e.event_name"@[2] != "e.aws_region"@[2]);
    assert("e.event_name"@[3] != "e.error_code"@[3]);
    assert("e.event_source"@[2] != "e.identity_arn"@[2]);
    assert("e.status"@[2] != "e.target"@[2]);
    assert("e.status"@[2] != "e.method"@[2]);
    assert("e.target"@[2] != "e.method"@[2]);
    assert("e.user_agent"@[2] != "e.aws_region"@[2]);
    assert("e.user_agent"@[2] != "e.error_code"@[2]);
    assert("e.aws_region"@[2] != "e.error_code"@[2]);
}

proof fn lemma_event_names()
    ensures
        forall|i: int, j: int|
            0 <= i < j < 14 ==> #[trigger] window::event_shown(i) != #[trigger] window::event_shown(j),
{
    reveal_strlit("e.event_name");
    assert("e.event_name"@.len() == 12);
    reveal_strlit("e.event_source");
    assert("e.event_source"@.len() == 14);
    reveal_strlit("e.identity_arn");
    assert("e.identity_arn"@.len() == 14);
    reveal_strlit("e.source_ip");
    assert("e.source_ip"@.len() == 11);
    reveal_strlit("json_extract_string(e.request, '$.url')");
    assert("json_extract_string(e.request, '$.url')"@.len() == 39);
    reveal_strlit("coalesce(json_extract_string(e.response, '$.elb_status_code'), json_extract_string(e.response, '$.status'))");
    assert("coalesce(json_extract_string(e.response, '$.elb_status_code'), json_extract_string(e.response, '$.status'))"@.len() == 107);
    reveal_strlit("coalesce(json_extract_string(e.resources, '$.target'), json_extract_string(e.resources, '$.host'))");
    assert("coalesce(json_extract_string(e.resources, '$.target'), json_extract_string(e.resources, '$.host'))"@.len() == 98);
    reveal_strlit("e.user_agent");
    assert("e.user_agent"@.len() == 12);
    reveal_strlit("e.aws_region");
    assert("e.aws_region"@.len() == 12);
    reveal_strlit("e.error_code");
    assert("e.error_code"@.len() == 12);
    reveal_strlit("json_extract_string(e.resources, '$[0].ARN')");
    assert("json_extract_string(e.resources, '$[0].ARN')"@.len() == 44);
    reveal_strlit("json_extract_string(e.request, '$.country')");
    assert("json_extract_string(e.request, '$.country')"@.len() == 43);
    reveal_strlit("json_extract_string(e.response, '$.terminating_rule_id')");
    assert("json_extract_string(e.response, '$.terminating_rule_id')"@.len() == 56);
    reveal_strlit("json_extract_string(e.request, '$.method')");
    assert("json_extract_string(e.request, '$.method')"@.len() == 42);
    assert("e.event_name"@[2] != "e.user_agent"@[2]);
    assert("e.event_name"@[2] != "e.aws_region"@[2]);
    assert("e.event_name"@[3] != "e.error_code"@[3]);
    assert("e.event_source"@[2] != "e.identity_arn"@[2]);
    assert("e.user_agent"@[2] != "e.aws_region"@[2]);
    assert("e.user_agent"@[2] != "e.error_code"@[2]);
    assert("e.aws_region"@[2] != "e.error_code"@[2]);
}

/// The columns a search of the matches tests are exactly the text columns
/// that the match page selects, in the same order.
pub proof fn a_match_search_tests_what_the_page_shows()
    ensures
        window::match_columns() == keys_listed() + listed(Table::Matches, 14),
        window::SHOWN_COLUMNS == 14,
{
    reveal_with_fuel(listed, 15);
    lemma_match_chunks();
    let c = ", "@;
    let a = "e.event_name"@ + c + "e.event_source"@ + c + "e.identity_arn"@ + c + "e.source_ip"@;
    let b = "e.url"@ + c + "e.status"@ + c + "e.target"@ + c + "e.user_agent"@ + c
        + "e.aws_region"@ + c + "e.error_code"@;
    let d = "e.resource"@ + c + "e.country"@ + c + "e.rule"@ + c + "e.method"@;
    assert(listed(Table::Matches, 4) == a);
    assert(listed(Table::Matches, 10) =~= a + c + b);
    assert(listed(Table::Matches, 14) =~= listed(Table::Matches, 10) + c + d);
    assert(window::match_columns() =~= keys_listed() + (a + c) + (b + c) + d);
    assert(keys_listed() + (a + c) + (b + c) + d =~= keys_listed() + (a + c + b + c + d));
}

proof fn lemma_match_chunks()
    ensures
        "e.event_name, e.event_source, e.identity_arn, e.source_ip, "@ == "e.event_name"@ + ", "@
            + "e.event_source"@ + ", "@ + "e.identity_arn"@ + ", "@ + "e.source_ip"@ + ", "@,
        "e.url, e.status, e.target, e.user_agent, e.aws_region, e.error_code, "@ == "e.url"@ + ", "@
            + "e.status"@ + ", "@ + "e.target"@ + ", "@ + "e.user_agent"@ + ", "@
            + "e.aws_region"@ + ", "@ + "e.error_code"@ + ", "@,
        "e.resource, e.country, e.rule, e.method"@ == "e.resource"@ + ", "@ + "e.country"@ + ", "@
            + "e.rule"@ + ", "@ + "e.method"@,
{
    reveal_strlit(", ");
    reveal_strlit("e.event_name");
    reveal_strlit("e.event_source");
    reveal_strlit("e.identity_arn");
    reveal_strlit("e.source_ip");
    reveal_strlit("e.url");
    reveal_strlit("e.status");
    reveal_strlit("e.target");
    reveal_strlit("e.user_agent");
    reveal_strlit("e.aws_region");
    reveal_strlit("e.error_code");
    reveal_strlit("e.resource");
    reveal_strlit("e.country");
    reveal_strlit("e.rule");
    reveal_strlit("e.method");
    reveal_strlit("e.event_name, e.event_source, e.identity_arn, e.source_ip, ");
    reveal_strlit("e.url, e.status, e.target, e.user_agent, e.aws_region, e.error_code, ");
    reveal_strlit("e.resource, e.country, e.rule, e.method");
}

/// The columns a search of the events tests are exactly the text columns that
/// the summaries of a page select, in the same order.
pub proof fn an_event_search_tests_what_the_page_shows()
    ensures
        rows::summary_columns() == keys_listed() + listed(Table::Events, 14),
{
    reveal_with_fuel(listed, 15);
    lemma_match_chunks();
    lemma_event_chunks();
    let k = keys_listed();
    let c = ", "@;
    let a = "e.event_name"@ + c + "e.event_source"@ + c + "e.identity_arn"@ + c + "e.source_ip"@;
    assert(listed(Table::Events, 4) == a);
    let t4 = a + c;
    let t5 = t4 + window::shown_column(Table::Events, 4) + c;
    let t6 = t5 + window::shown_column(Table::Events, 5) + c;
    let t7 = t6 + window::shown_column(Table::Events, 6) + c;
    let b = "e.user_agent"@ + c + "e.aws_region"@ + c + "e.error_code"@;
    let t10 = t7 + b + c;
    let t11 = t10 + window::shown_column(Table::Events, 10) + c;
    let t12 = t11 + window::shown_column(Table::Events, 11) + c;
    let t13 = t12 + window::shown_column(Table::Events, 12) + c;
    lemma_next(k, t4, window::shown_column(Table::Events, 4), c);
    lemma_next(k, t5, window::shown_column(Table::Events, 5), c);
    lemma_next(k, t6, window::shown_column(Table::Events, 6), c);
    lemma_next(k, t7, b, c);
    lemma_next(k, t10, window::shown_column(Table::Events, 10), c);
    lemma_next(k, t11, window::shown_column(Table::Events, 11), c);
    lemma_next(k, t12, window::shown_column(Table::Events, 12), c);
    lemma_next(k, t13, window::shown_column(Table::Events, 13), Seq::empty());
    lemma_three(t7, "e.user_agent"@, "e.aws_region"@, "e.error_code"@, c);
    lemma_two(k + t5, "coalesce(json_extract_string(e.response, '$.elb_status_code'), "@, "json_extract_string(e.response, '$.status')), "@);
    lemma_two(k + t6, "coalesce(json_extract_string(e.resources, '$.target'), "@, "json_extract_string(e.resources, '$.host')), "@);
    let method = window::shown_column(Table::Events, 13);
    assert(method + Seq::<char>::empty() =~= method);
    assert(t13 + method + Seq::<char>::empty() =~= t13 + method);
}

proof fn lemma_next(k: Seq<char>, t: Seq<char>, x: Seq<char>, c: Seq<char>)
    ensures
        k + t + (x + c) == k + (t + x + c),
{
    assert(k + t + (x + c) =~= k + (t + x + c));
}

proof fn lemma_two(k: Seq<char>, x: Seq<char>, y: Seq<char>)
    ensures
        k + x + y == k + (x + y),
{
    assert(k + x + y =~= k + (x + y));
}

proof fn lemma_three(t: Seq<char>, x: Seq<char>, y: Seq<char>, z: Seq<char>, c: Seq<char>)
    ensures
        t + (x + c + y + c + z) == t + x + c + y + c + z,
{
    assert(t + (x + c + y + c + z) =~= t + x + c + y + c + z);
}

proof fn lemma_event_chunks()
    ensures
        "json_extract_string(e.request, '$.url'), "@ == "json_extract_string(e.request, '$.url')"@
            + ", "@,
        "coalesce(json_extract_string(e.response, '$.elb_status_code'), "@
            + "json_extract_string(e.response, '$.status')), "@ == window::shown_column(
            Table::Events,
            5,
        ) + ", "@,
        "coalesce(json_extract_string(e.resources, '$.target'), "@
            + "json_extract_string(e.resources, '$.host')), "@ == window::shown_column(
            Table::Events,
            6,
        ) + ", "@,
        "e.user_agent, e.aws_region, e.error_code, "@ == "e.user_agent"@ + ", "@ + "e.aws_region"@
            + ", "@ + "e.error_code"@ + ", "@,
        "json_extract_string(e.resources, '$[0].ARN'), "@
            == "json_extract_string(e.resources, '$[0].ARN')"@ + ", "@,
        "json_extract_string(e.request, '$.country'), "@
            == "json_extract_string(e.request, '$.country')"@ + ", "@,
        "json_extract_string(e.response, '$.terminating_rule_id'), "@
            == "json_extract_string(e.response, '$.terminating_rule_id')"@ + ", "@,
{
    reveal_strlit(", ");
    reveal_strlit("json_extract_string(e.request, '$.url'), ");
    reveal_strlit("json_extract_string(e.request, '$.url')");
    assert("json_extract_string(e.request, '$.url'), "@
        =~= "json_extract_string(e.request, '$.url')"@ + ", "@);
    reveal_strlit("e.user_agent, e.aws_region, e.error_code, ");
    reveal_strlit("e.user_agent");
    reveal_strlit("e.aws_region");
    reveal_strlit("e.error_code");
    reveal_strlit("json_extract_string(e.resources, '$[0].ARN'), ");
    reveal_strlit("json_extract_string(e.resources, '$[0].ARN')");
    reveal_strlit("json_extract_string(e.request, '$.country'), ");
    reveal_strlit("json_extract_string(e.request, '$.country')");
    reveal_strlit("json_extract_string(e.response, '$.terminating_rule_id'), ");
    reveal_strlit("json_extract_string(e.response, '$.terminating_rule_id')");
    lemma_status_chunk();
    lemma_target_chunk();
}

proof fn lemma_status_chunk()
    ensures
        "coalesce(json_extract_string(e.response, '$.elb_status_code'), "@
            + "json_extract_string(e.response, '$.status')), "@
            == "coalesce(json_extract_string(e.response, '$.elb_status_code'), json_extract_string(e.response, '$.status'))"@
            + ", "@,
{
    reveal_strlit(", ");
    reveal_strlit("coalesce(json_extract_string(e.response, '$.elb_status_code'), ");
    reveal_strlit("json_extract_string(e.response, '$.status')), ");
    reveal_strlit(
        "coalesce(json_extract_string(e.response, '$.elb_status_code'), json_extract_string(e.response, '$.status'))",
    );
}

proof fn lemma_target_chunk()
    ensures
        "coalesce(json_extract_string(e.resources, '$.target'), "@
            + "json_extract_string(e.resources, '$.host')), "@
            == "coalesce(json_extract_string(e.resources, '$.target'), json_extract_string(e.resources, '$.host'))"@
            + ", "@,
{
    reveal_strlit(", ");
    reveal_strlit("coalesce(json_extract_string(e.resources, '$.target'), ");
    reveal_strlit("json_extract_string(e.resources, '$.host')), ");
    reveal_strlit(
        "coalesce(json_extract_string(e.resources, '$.target'), json_extract_string(e.resources, '$.host'))",
    );
}

// ----------------------------------------------------------------- search

/// A search tests every shown column for its pattern, letter case aside, one
/// test after the other; one that reads as a time tests the shown time too.
pub proof fn a_search_tests_each_column_once(search: Seq<char>, table: Table, n: nat)
    ensures
        window::column_tests(table, 0) == "AND ("@,
        window::column_tests(table, 1) == "AND ("@ + window::shown_column(table, 0)
            + " ILIKE ? ESCAPE '\\'"@,
        n >= 1 ==> window::column_tests(table, n + 1) == window::column_tests(table, n) + " OR "@
            + window::shown_column(table, n as int) + " ILIKE ? ESCAPE '\\'"@,
        window::search_text(search, table) == match window::shape_of(search) {
            SearchShape::Nothing => Seq::empty(),
            SearchShape::Text => window::column_tests(table, 14) + ")"@,
            SearchShape::TextOrTime => window::column_tests(table, 14)
                + " OR strftime(e.event_time + INTERVAL 9 HOUR, '%Y-%m-%d %H:%M:%S.%g')"@
                + " LIKE ? ESCAPE '\\'"@ + ")"@,
        },
        window::search_binds(search).len() == match window::shape_of(search) {
            SearchShape::Nothing => 0nat,
            SearchShape::Text => 14,
            SearchShape::TextOrTime => 15,
        },
        forall|i: int|
            0 <= i < window::search_binds(search).len() ==> #[trigger] window::search_binds(
                search,
            )[i] == sql::BindModel::Text(window::like_pattern(search)),
{
    reveal_with_fuel(window::column_tests, 2);
    assert(window::column_tests(table, 1) =~= "AND ("@ + window::shown_column(table, 0)
        + " ILIKE ? ESCAPE '\\'"@);
    let columns = window::column_tests(table, 14);
    assert(columns + window::time_search() + ")"@ =~= columns
        + " OR strftime(e.event_time + INTERVAL 9 HOUR, '%Y-%m-%d %H:%M:%S.%g')"@
        + " LIKE ? ESCAPE '\\'"@ + ")"@);
}

pub open spec fn digit(c: char) -> bool {
    '0' as u32 <= c as u32 <= '9' as u32
}

/// A needle is searched in the time when it is all digits, or when it is made
/// of digits and the marks of a time and has a dash or a colon.
pub proof fn times_are_searched_by_what_reads_as_one(search: Seq<char>, i: int)
    ensures
        search.len() == 0 <==> window::shape_of(search) == SearchShape::Nothing,
        0 <= i < search.len() && !digit(search[i]) && search[i] != '-' && search[i] != ':'
            && search[i] != '.' && search[i] != ' ' ==> window::shape_of(search)
            == SearchShape::Text,
        search.len() > 0 && (forall|j: int|
            0 <= j < search.len() ==> digit(#[trigger] search[j])) ==> window::shape_of(
            search,
        ) == SearchShape::TextOrTime,
        search.len() > 0 && (search.contains('-') || search.contains(':')) && (forall|j: int|
            0 <= j < search.len() ==> digit(#[trigger] search[j]) || search[j] == '-'
                || search[j] == ':' || search[j] == '.' || search[j] == ' ') ==> window::shape_of(
            search,
        ) == SearchShape::TextOrTime,
        search.contains('.') && !search.contains('-') && !search.contains(':')
            ==> window::shape_of(search) == SearchShape::Text,
{
    if 0 <= i < search.len() && !digit(search[i]) && search[i] != '-' && search[i] != ':'
        && search[i] != '.' && search[i] != ' ' {
        assert(!window::is_stamp_char(search[i]));
    }
    if search.contains('.') && !search.contains('-') && !search.contains(':') {
        let k = choose|k: int| 0 <= k < search.len() && search[k] == '.';
        assert(!text::is_digit(search[k]));
    }
    if search.len() > 0 && (forall|j: int|
        0 <= j < search.len() ==> digit(#[trigger] search[j])) {
        assert forall|j: int| 0 <= j < search.len() implies text::is_digit(
            #[trigger] search[j],
        ) && window::is_stamp_char(search[j]) by {}
    }
    if search.len() > 0 && (search.contains('-') || search.contains(':')) && (forall|j: int|
        0 <= j < search.len() ==> digit(#[trigger] search[j]) || search[j] == '-'
            || search[j] == ':' || search[j] == '.' || search[j] == ' ') {
        assert forall|j: int| 0 <= j < search.len() implies window::is_stamp_char(
            #[trigger] search[j],
        ) by {}
    }
}

/// A pattern is the needle between two wildcards, with a backslash in front
/// of each character that means something in a pattern and no other.
pub proof fn patterns_escape_what_has_a_meaning(needle: Seq<char>, c: char)
    ensures
        window::like_pattern(needle).len() >= 2,
        window::like_pattern(needle)[0] == '%',
        window::like_pattern(needle).last() == '%',
        window::like_pattern(Seq::empty()) == seq!['%', '%'],
        ({
            let body = window::like_pattern(needle).drop_last();
            if c == '%' || c == '_' || c == '\\' {
                window::like_pattern(needle.push(c)) == body + seq!['\\', c, '%']
            } else {
                window::like_pattern(needle.push(c)) == body + seq![c, '%']
            }
        }),
{
    let body = window::like_pattern(needle).drop_last();
    assert(needle.push(c).drop_last() =~= needle);
    assert(body =~= seq!['%'] + window::like_body(needle));
    assert(window::like_pattern(needle.push(c)) =~= body + window::like_char(c) + seq!['%']);
    if c == '%' || c == '_' || c == '\\' {
        assert(body + window::like_char(c) + seq!['%'] =~= body + seq!['\\', c, '%']);
    } else {
        assert(body + window::like_char(c) + seq!['%'] =~= body + seq![c, '%']);
    }
    assert(window::like_pattern(Seq::empty()) =~= seq!['%', '%']);
}

// ------------------------------------------------------------------ scope

/// A window is bounded by the log type and by the two times it names, and by
/// nothing it does not name. The times are Korean ones; the last is left out.
pub proof fn a_scope_bounds_what_it_names(w: Window, table: Table)
    ensures
        window::scope_text(w, table) == (if w.log_type is Some {
            match table {
                Table::Events =>
                "AND e.file_id IN (SELECT file_id FROM files WHERE log_type = ?)"@,
                Table::Matches => "AND e.log_type = ?"@,
            }
        } else {
            Seq::empty()
        }) + (if w.from is Some {
            " AND e.event_time >= CAST(? AS TIMESTAMP) - INTERVAL 9 HOUR"@
        } else {
            Seq::empty()
        }) + (if w.to is Some {
            " AND e.event_time < CAST(? AS TIMESTAMP) - INTERVAL 9 HOUR"@
        } else {
            Seq::empty()
        }),
{
}

/// The values of a scope, in the order of its conditions. A bound that is no
/// date refuses the window.
pub proof fn a_scope_binds_in_order(w: Window)
    ensures
        ({
            let from = match w.from {
                Some(t) => window::bound_text(t@, false),
                None => None,
            };
            let to = match w.to {
                Some(t) => window::bound_text(t@, true),
                None => None,
            };
            &&& window::scope_binds(w) is None <==> (w.from is Some && from is None) || (w.to
                is Some && to is None)
            &&& window::scope_binds(w) matches Some(binds) ==> {
                &&& w.log_type matches Some(t) ==> binds.len() > 0 && binds[0]
                    == sql::BindModel::Text(t@)
                &&& w.to is Some ==> binds.len() > 0 && binds.last() == sql::BindModel::Text(
                    to->Some_0,
                )
                &&& w.from is Some && w.to is None ==> binds.len() > 0 && binds.last()
                    == sql::BindModel::Text(from->Some_0)
                &&& w.from is Some && w.to is Some ==> binds.len() > 1 && binds[binds.len() - 2]
                    == sql::BindModel::Text(from->Some_0)
            }
        }),
{
}

/// A typed day covers its 86 400 seconds, a minute sixty, a second one: as
/// the lower bound it stands for its start, as the upper for its end.
pub proof fn typed_bounds_cover_what_they_name(typed: Seq<char>)
    ensures
        ({
            let t = split::trim(typed);
            let n = text::byte_len(t);
            let day = stamp::day_seconds(t, "[year]-[month]-[day]"@);
            let minute = stamp::civil_seconds(t, "[year]-[month]-[day] [hour]:[minute]"@);
            let second = stamp::civil_seconds(t, "[year]-[month]-[day] [hour]:[minute]:[second]"@);
            &&& n == 10 && day is Some ==> shown_bound(typed, day->Some_0 as int, 86_400)
            &&& n == 16 && minute is Some ==> shown_bound(typed, minute->Some_0 as int, 60)
            &&& n == 19 && second is Some ==> shown_bound(typed, second->Some_0 as int, 1)
            &&& n != 10 && n != 16 && n != 19 ==> window::bound_text(typed, false) is None
                && window::bound_text(typed, true) is None
            &&& n == 10 && day is None ==> window::bound_text(typed, false) is None
            &&& n == 16 && minute is None ==> window::bound_text(typed, false) is None
            &&& n == 19 && second is None ==> window::bound_text(typed, false) is None
        }),
{
}

/// The two bounds that a typed text stands for.
pub open spec fn shown_bound(typed: Seq<char>, start: int, length: int) -> bool {
    &&& window::bound_text(typed, false) == stamp::civil_text(
        start as i64,
        "[year]-[month]-[day] [hour]:[minute]:[second]"@,
    )
    &&& start + length <= i64::MAX ==> window::bound_text(typed, true) == stamp::civil_text(
        (start + length) as i64,
        "[year]-[month]-[day] [hour]:[minute]:[second]"@,
    )
}

// ------------------------------------------------------------------ order

/// Newest first means later times and larger ids first, oldest first the
/// opposite; rows without a time come last either way.
pub proof fn rows_are_ordered_by_time_then_id(
    newest_first: bool,
    a: window::SortKey,
    b: window::SortKey,
)
    ensures
        a.time is Some && b.time is Some && a.time->Some_0 > b.time->Some_0
            ==> window::listed_before(newest_first, a, b) == newest_first,
        a.time is Some && b.time is Some && a.time->Some_0 < b.time->Some_0
            ==> window::listed_before(newest_first, a, b) == !newest_first,
        a.time == b.time && a.id > b.id ==> window::listed_before(newest_first, a, b)
            == newest_first,
        a.time == b.time && a.id < b.id ==> window::listed_before(newest_first, a, b)
            == !newest_first,
        a.time is Some && b.time is None ==> window::listed_before(newest_first, a, b)
            && !window::listed_before(newest_first, b, a),
        !window::listed_before(newest_first, a, a),
        window::order_text(true) == "ORDER BY e.event_time DESC NULLS LAST, e.event_id DESC"@,
        window::order_text(false) == "ORDER BY e.event_time ASC NULLS LAST, e.event_id ASC"@,
{
}

/// The condition that a page starts with, by the row it starts after.
pub proof fn a_page_starts_behind_its_cursor(w: Window)
    ensures
        w.after is None ==> window::page_text(w) == Seq::<char>::empty() && window::page_binds(w)
            == Seq::<sql::BindModel>::empty(),
        w.after matches Some(after) ==> (after.time_micros matches Some(time) ==> {
            &&& window::page_text(w) == if w.newest_first {
                "AND ((e.event_time, e.event_id) "@ + "<"@
                    + " (make_timestamp(CAST(? AS BIGINT)), CAST(? AS UBIGINT))"@
                    + " OR e.event_time IS NULL)"@
            } else {
                "AND ((e.event_time, e.event_id) "@ + ">"@
                    + " (make_timestamp(CAST(? AS BIGINT)), CAST(? AS UBIGINT))"@
                    + " OR e.event_time IS NULL)"@
            }
            &&& window::page_binds(w) == seq![
                sql::BindModel::Text(time@),
                sql::BindModel::Text(after.event_id@),
            ]
        }),
        w.after matches Some(after) ==> (after.time_micros is None ==> {
            &&& window::page_text(w) == if w.newest_first {
                "AND e.event_time IS NULL AND e.event_id "@ + "<"@ + " CAST(? AS UBIGINT)"@
            } else {
                "AND e.event_time IS NULL AND e.event_id "@ + ">"@ + " CAST(? AS UBIGINT)"@
            }
            &&& window::page_binds(w) == seq![sql::BindModel::Text(after.event_id@)]
        }),
{
}

// ---------------------------------------------------------------- queries

/// The lists and counts ask the table they are named for, inside the window's
/// scope and search; a page asks for one page of it, in order.
pub proof fn queries_ask_their_own_table(w: Window, rule_id: Seq<char>)
    ensures
        window::scope_binds(w) matches Some(binds) ==> {
            let events = window::scope_text(w, Table::Events);
            let matches = window::scope_text(w, Table::Matches);
            let looked = window::search_text(w.search@, Table::Events);
            let found = window::search_text(w.search@, Table::Matches);
            let last = seq![sql::BindModel::Unsigned(results::page_size(w.limit))];
            let tail = " "@ + window::page_text(w) + " "@ + window::order_text(w.newest_first)
                + " LIMIT ?"@;
            &&& window::event_count_model(w) matches Some(q) && q.sql
                == "SELECT count(*) FROM events e WHERE true "@ + events && q.binds == binds
            &&& window::matched_count_model(w) matches Some(q) && q.sql
                == "SELECT count(DISTINCT e.event_id) FROM rule_matches e WHERE true "@ + matches
                && q.binds == binds
            &&& window::search_count_model(w) matches Some(q) && q.sql
                == "SELECT count(*) FROM events e WHERE true "@ + events + " "@ + looked && q.binds
                == binds + window::search_binds(w.search@)
            &&& window::rule_count_model(rule_id, w) matches Some(q) && q.sql
                == "SELECT count(*) FROM rule_matches e WHERE e.rule_id = ? "@ + matches + " "@
                + found && q.binds == seq![sql::BindModel::Text(rule_id)] + binds
                + window::search_binds(w.search@)
            &&& window::event_page_model(w) matches Some(q) && q.sql
                == "SELECT e.event_id, epoch_us(e.event_time) FROM events e WHERE true "@ + (events
                + " "@ + looked + tail) && q.binds == binds + (window::search_binds(w.search@)
                + window::page_binds(w) + last)
            &&& window::match_page_model(rule_id, w) matches Some(q) && q.sql == "SELECT "@ + (
            keys_listed() + listed(Table::Matches, 14))
                + ", e.matched_fields FROM rule_matches e WHERE e.rule_id = ? "@ + (matches + " "@
                + found + tail) && q.binds == seq![sql::BindModel::Text(rule_id)] + binds + (
            window::search_binds(w.search@) + window::page_binds(w) + last)
        },
{
    a_match_search_tests_what_the_page_shows();
    let tail = " "@ + window::page_text(w) + " "@ + window::order_text(w.newest_first)
        + " LIMIT ?"@;
    let events = window::scope_text(w, Table::Events) + " "@ + window::search_text(
        w.search@,
        Table::Events,
    );
    let matches = window::scope_text(w, Table::Matches) + " "@ + window::search_text(
        w.search@,
        Table::Matches,
    );
    assert(window::page_tail(w, Table::Events) =~= events + tail);
    assert(window::page_tail(w, Table::Matches) =~= matches + tail);
}

} // verus!
