//! The queries behind the results view: scope, search, order and paging of a
//! window as query text and bound values.

use vstd::prelude::*;

use crate::number;
use crate::number::{decimal_text, signed_text};
use crate::results;
use crate::results::{EventCursor, Window};
use crate::split;
use crate::split::trimmed;
use crate::stamp;
use crate::stamp::{format_civil, parse_civil, parse_day};
use crate::store::sql;
use crate::store::sql::{Bind, Query};
use crate::store::StoreError;
use crate::text;
use crate::text::{byte_count, chars_of, digit};

verus! {

// -------------------------------------------------------------------- scope

/// The table a window is read from. They carry the log type differently.
#[derive(Debug, Clone, Copy, PartialEq, Eq, Structural)]
pub enum Table {
    /// `events e`: the type is that of the source file.
    Events,
    /// `rule_matches e`: a row carries its type.
    Matches,
}

pub open spec fn type_filter(table: Table) -> Seq<char> {
    match table {
        Table::Events =>
        "AND e.file_id IN (SELECT file_id FROM files WHERE log_type = ?)"@,
        Table::Matches => "AND e.log_type = ?"@,
    }
}

pub open spec fn from_filter() -> Seq<char> {
    " AND e.event_time >= CAST(? AS TIMESTAMP) - INTERVAL 9 HOUR"@
}

pub open spec fn to_filter() -> Seq<char> {
    " AND e.event_time < CAST(? AS TIMESTAMP) - INTERVAL 9 HOUR"@
}

pub open spec fn when(flag: bool, part: Seq<char>) -> Seq<char> {
    if flag {
        part
    } else {
        Seq::empty()
    }
}

/// Conditions that narrow rows to the window's log type and KST range. A row
/// without a time is outside any range.
pub open spec fn scope_text(window: Window, table: Table) -> Seq<char> {
    when(window.log_type is Some, type_filter(table)) + when(window.from is Some, from_filter())
        + when(window.to is Some, to_filter())
}

/// Conditions that narrow rows aliased `e` to the window's log type and KST
/// range. The values are those of `scope_params`, in the same order: log
/// type, from, to.
pub fn scope_filter(window: &Window, table: Table) -> (out: String)
    ensures
        out@ == scope_text(*window, table),
{
    let mut out = String::new();
    if window.log_type.is_some() {
        match table {
            Table::Events => out.push_str(
                "AND e.file_id IN (SELECT file_id FROM files WHERE log_type = ?)",
            ),
            Table::Matches => out.push_str("AND e.log_type = ?"),
        }
    }
    assert(out@ =~= when(window.log_type is Some, type_filter(table)));
    let ghost a = out@;
    if window.from.is_some() {
        out.push_str(" AND e.event_time >= CAST(? AS TIMESTAMP) - INTERVAL 9 HOUR");
    }
    assert(out@ =~= a + when(window.from is Some, from_filter()));
    let ghost b = out@;
    if window.to.is_some() {
        out.push_str(" AND e.event_time < CAST(? AS TIMESTAMP) - INTERVAL 9 HOUR");
    }
    assert(out@ =~= b + when(window.to is Some, to_filter()));
    out
}

/// What a bound names: its first second, and how many seconds it covers.
pub ghost struct Span {
    pub start: i64,
    pub length: i64,
}

/// A day, a minute or a second, told apart by how much was typed.
pub open spec fn span_of(typed: Seq<char>) -> Option<Span> {
    let t = split::trim(typed);
    let n = text::byte_len(t);
    if n == 10 {
        match stamp::day_seconds(t, "[year]-[month]-[day]"@) {
            Some(start) => Some(Span { start, length: 86_400 }),
            None => None,
        }
    } else if n == 16 {
        match stamp::civil_seconds(t, "[year]-[month]-[day] [hour]:[minute]"@) {
            Some(start) => Some(Span { start, length: 60 }),
            None => None,
        }
    } else if n == 19 {
        match stamp::civil_seconds(t, "[year]-[month]-[day] [hour]:[minute]:[second]"@) {
            Some(start) => Some(Span { start, length: 1 }),
            None => None,
        }
    } else {
        None
    }
}

/// The second a bound stands for: its own, or for an end the first one after
/// what it covers.
pub open spec fn edge(span: Span, end: bool) -> Option<i64> {
    let at = if end {
        span.start + span.length
    } else {
        span.start as int
    };
    if i64::MIN <= at <= i64::MAX {
        Some(at as i64)
    } else {
        None
    }
}

/// The text a bound is compared as.
pub open spec fn bound_text(typed: Seq<char>, end: bool) -> Option<Seq<char>> {
    match span_of(typed) {
        None => None,
        Some(span) => match edge(span, end) {
            None => None,
            Some(at) => stamp::civil_text(
                at,
                "[year]-[month]-[day] [hour]:[minute]:[second]"@,
            ),
        },
    }
}

/// The second a bound stands for.
pub fn bound_edge(start: i64, length: i64, end: bool) -> (r: Option<i64>)
    ensures
        r == edge(Span { start, length }, end),
{
    if end {
        start.checked_add(length)
    } else {
        Some(start)
    }
}

/// A KST bound typed by the analyst, as the `YYYY-MM-DD HH:MM:SS` text the
/// query casts. Accepts a day, a minute or a second. `end` turns an inclusive
/// "until" into the exclusive instant one unit later, so `2026-06-06` covers
/// the whole day and `2026-06-06 11:00` the minute.
pub fn bound(typed: &str, end: bool) -> (r: Result<String, StoreError>)
    ensures
        match r {
            Ok(t) => bound_text(typed@, end) == Some(t@),
            Err(e) => bound_text(typed@, end) is None && (e matches StoreError::BadDateTime(t)
                && t@ == typed@),
        },
{
    let t = trimmed(typed);
    let n: usize = byte_count(t.as_str());
    let (start, length): (Option<i64>, i64) = if n == 10 {
        (parse_day(t.as_str(), "[year]-[month]-[day]"), 86_400)
    } else if n == 16 {
        (parse_civil(t.as_str(), "[year]-[month]-[day] [hour]:[minute]"), 60)
    } else if n == 19 {
        (parse_civil(t.as_str(), "[year]-[month]-[day] [hour]:[minute]:[second]"), 1)
    } else {
        (None, 0)
    };
    let at: Option<i64> = match start {
        Some(start) => bound_edge(start, length, end),
        None => None,
    };
    let shown: Option<String> = match at {
        Some(at) => format_civil(at, "[year]-[month]-[day] [hour]:[minute]:[second]"),
        None => None,
    };
    match shown {
        Some(shown) => Ok(shown),
        None => Err(StoreError::BadDateTime(typed.to_owned())),
    }
}

pub open spec fn type_binds(log_type: Option<String>) -> Seq<sql::BindModel> {
    match log_type {
        Some(t) => seq![sql::BindModel::Text(t@)],
        None => Seq::empty(),
    }
}

/// The value of an optional bound; `None` where the bound is no date.
pub open spec fn bound_binds(typed: Option<String>, end: bool) -> Option<Seq<sql::BindModel>> {
    match typed {
        None => Some(Seq::empty()),
        Some(t) => match bound_text(t@, end) {
            Some(shown) => Some(seq![sql::BindModel::Text(shown)]),
            None => None,
        },
    }
}

/// The values of a window's scope; `None` where a bound is no date.
pub open spec fn scope_binds(window: Window) -> Option<Seq<sql::BindModel>> {
    match bound_binds(window.from, false) {
        None => None,
        Some(from) => match bound_binds(window.to, true) {
            None => None,
            Some(to) => Some(type_binds(window.log_type) + from + to),
        },
    }
}

/// The bound that is no date: the first of the two.
pub open spec fn bad_bound(window: Window) -> Seq<char> {
    if bound_binds(window.from, false) is None {
        window.from->Some_0@
    } else {
        window.to->Some_0@
    }
}

/// What a caller is told of a window whose bound is no date.
pub open spec fn refused(window: Window, e: StoreError) -> bool {
    scope_binds(window) is None && (e matches StoreError::BadDateTime(t) && t@ == bad_bound(
        window,
    ))
}

fn push_text(binds: &mut Vec<Bind>, value: String)
    ensures
        sql::bind_models(final(binds)@) == sql::bind_models(old(binds)@) + seq![
            sql::BindModel::Text(value@),
        ],
{
    let ghost before = sql::bind_models(binds@);
    let ghost added = value@;
    binds.push(Bind::Text(value));
    assert(sql::bind_models(binds@) =~= before + seq![sql::BindModel::Text(added)]);
}

fn push_number(binds: &mut Vec<Bind>, value: u64)
    ensures
        sql::bind_models(final(binds)@) == sql::bind_models(old(binds)@) + seq![
            sql::BindModel::Unsigned(value),
        ],
{
    let ghost before = sql::bind_models(binds@);
    binds.push(Bind::Unsigned(value));
    assert(sql::bind_models(binds@) =~= before + seq![sql::BindModel::Unsigned(value)]);
}

fn push_scope(window: &Window, binds: &mut Vec<Bind>) -> (r: Result<(), StoreError>)
    ensures
        match r {
            Ok(_) => scope_binds(*window) matches Some(scope) && sql::bind_models(final(binds)@)
                == sql::bind_models(old(binds)@) + scope,
            Err(e) => refused(*window, e),
        },
{
    let ghost before = sql::bind_models(binds@);
    if let Some(t) = &window.log_type {
        push_text(binds, t.as_str().to_owned());
    }
    let ghost a = type_binds(window.log_type);
    assert(sql::bind_models(binds@) =~= before + a);
    if let Some(t) = &window.from {
        match bound(t.as_str(), false) {
            Ok(shown) => push_text(binds, shown),
            Err(e) => return Err(e),
        }
    }
    let ghost b = bound_binds(window.from, false)->Some_0;
    assert(sql::bind_models(binds@) =~= before + (a + b));
    if let Some(t) = &window.to {
        match bound(t.as_str(), true) {
            Ok(shown) => push_text(binds, shown),
            Err(e) => return Err(e),
        }
    }
    let ghost c = bound_binds(window.to, true)->Some_0;
    assert(sql::bind_models(binds@) =~= before + (a + b + c));
    Ok(())
}

/// The values of a window's scope.
pub fn scope_params(window: &Window) -> (r: Result<Vec<Bind>, StoreError>)
    ensures
        match r {
            Ok(binds) => scope_binds(*window) == Some(sql::bind_models(binds@)),
            Err(e) => refused(*window, e),
        },
{
    let mut binds: Vec<Bind> = Vec::new();
    assert(sql::bind_models(binds@) =~= Seq::empty());
    match push_scope(window, &mut binds) {
        Ok(_) => {
            proof {
                let scope = scope_binds(*window)->Some_0;
                assert(Seq::<sql::BindModel>::empty() + scope =~= scope);
            }
            Ok(binds)
        },
        Err(e) => Err(e),
    }
}

// ------------------------------------------------------------------- search

/// Which columns a search looks at.
#[derive(Debug, Clone, Copy, PartialEq, Eq, Structural)]
pub enum SearchShape {
    /// Nothing is searched for.
    Nothing,
    /// The text columns a row shows.
    Text,
    /// The text columns and the shown time.
    TextOrTime,
}

pub open spec fn is_stamp_char(c: char) -> bool {
    text::is_digit(c) || c == '-' || c == ':' || c == '.' || c == ' '
}

/// Only a date or clock fragment is searched in the time: a dotted fragment
/// such as `43.201` is an IP prefix far more often.
pub open spec fn shape_of(search: Seq<char>) -> SearchShape {
    if search.len() == 0 {
        SearchShape::Nothing
    } else if (forall|i: int| 0 <= i < search.len() ==> is_stamp_char(#[trigger] search[i]))
        && (search.contains('-') || search.contains(':') || (forall|i: int|
        0 <= i < search.len() ==> text::is_digit(#[trigger] search[i]))) {
        SearchShape::TextOrTime
    } else {
        SearchShape::Text
    }
}

/// Which columns a search looks at.
pub fn search_shape(search: &str) -> (r: SearchShape)
    ensures
        r == shape_of(search@),
{
    if search.is_empty() {
        return SearchShape::Nothing;
    }
    let s = chars_of(search);
    let n: usize = s.len();
    let mut stamp_chars = true;
    let mut all_digits = true;
    let mut marked = false;
    let mut i: usize = 0;
    while i < n
        invariant
            i <= n,
            n == s@.len(),
            s@ == search@,
            stamp_chars == forall|k: int| 0 <= k < i ==> is_stamp_char(#[trigger] s@[k]),
            all_digits == forall|k: int| 0 <= k < i ==> text::is_digit(#[trigger] s@[k]),
            marked == exists|k: int| 0 <= k < i && (#[trigger] s@[k] == '-' || s@[k] == ':'),
        decreases n - i,
    {
        let c = s[i];
        let d = digit(c);
        if !d {
            all_digits = false;
        }
        if c == '-' || c == ':' {
            marked = true;
        } else if !d && c != '.' && c != ' ' {
            stamp_chars = false;
        }
        i = i + 1;
    }
    proof {
        if marked {
            let k = choose|k: int| 0 <= k < n && (#[trigger] s@[k] == '-' || s@[k] == ':');
            assert(search@.contains(s@[k]));
        }
        if search@.contains('-') {
            assert(s@[search@.index_of('-')] == '-');
        }
        if search@.contains(':') {
            assert(s@[search@.index_of(':')] == ':');
        }
    }
    if stamp_chars && (marked || all_digits) {
        SearchShape::TextOrTime
    } else {
        SearchShape::Text
    }
}

/// How many text columns a row shows.
pub const SHOWN_COLUMNS: usize = 14;

/// The text columns of a row, read from the events. HTTP-style fields come out
/// of the JSON bodies.
pub open spec fn event_shown(i: int) -> Seq<char> {
    if i == 0 {
        "e.event_name"@
    } else if i == 1 {
        "e.event_source"@
    } else if i == 2 {
        "e.identity_arn"@
    } else if i == 3 {
        "e.source_ip"@
    } else if i == 4 {
        "json_extract_string(e.request, '$.url')"@
    } else if i == 5 {
        "coalesce(json_extract_string(e.response, '$.elb_status_code'), json_extract_string(e.response, '$.status'))"@
    } else if i == 6 {
        "coalesce(json_extract_string(e.resources, '$.target'), json_extract_string(e.resources, '$.host'))"@
    } else if i == 7 {
        "e.user_agent"@
    } else if i == 8 {
        "e.aws_region"@
    } else if i == 9 {
        "e.error_code"@
    } else if i == 10 {
        "json_extract_string(e.resources, '$[0].ARN')"@
    } else if i == 11 {
        "json_extract_string(e.request, '$.country')"@
    } else if i == 12 {
        "json_extract_string(e.response, '$.terminating_rule_id')"@
    } else {
        "json_extract_string(e.request, '$.method')"@
    }
}

/// The same columns, as a match was stored with them.
pub open spec fn match_shown(i: int) -> Seq<char> {
    if i == 0 {
        "e.event_name"@
    } else if i == 1 {
        "e.event_source"@
    } else if i == 2 {
        "e.identity_arn"@
    } else if i == 3 {
        "e.source_ip"@
    } else if i == 4 {
        "e.url"@
    } else if i == 5 {
        "e.status"@
    } else if i == 6 {
        "e.target"@
    } else if i == 7 {
        "e.user_agent"@
    } else if i == 8 {
        "e.aws_region"@
    } else if i == 9 {
        "e.error_code"@
    } else if i == 10 {
        "e.resource"@
    } else if i == 11 {
        "e.country"@
    } else if i == 12 {
        "e.rule"@
    } else {
        "e.method"@
    }
}

pub open spec fn shown_column(table: Table, i: int) -> Seq<char> {
    match table {
        Table::Events => event_shown(i),
        Table::Matches => match_shown(i),
    }
}

fn event_column(i: usize) -> (r: &'static str)
    requires
        i < SHOWN_COLUMNS,
    ensures
        r@ == event_shown(i as int),
{
    match i {
        0 => "e.event_name",
        1 => "e.event_source",
        2 => "e.identity_arn",
        3 => "e.source_ip",
        4 => "json_extract_string(e.request, '$.url')",
        5 => "coalesce(json_extract_string(e.response, '$.elb_status_code'), json_extract_string(e.response, '$.status'))",
        6 => "coalesce(json_extract_string(e.resources, '$.target'), json_extract_string(e.resources, '$.host'))",
        7 => "e.user_agent",
        8 => "e.aws_region",
        9 => "e.error_code",
        10 => "json_extract_string(e.resources, '$[0].ARN')",
        11 => "json_extract_string(e.request, '$.country')",
        12 => "json_extract_string(e.response, '$.terminating_rule_id')",
        _ => "json_extract_string(e.request, '$.method')",
    }
}

fn match_column(i: usize) -> (r: &'static str)
    requires
        i < SHOWN_COLUMNS,
    ensures
        r@ == match_shown(i as int),
{
    match i {
        0 => "e.event_name",
        1 => "e.event_source",
        2 => "e.identity_arn",
        3 => "e.source_ip",
        4 => "e.url",
        5 => "e.status",
        6 => "e.target",
        7 => "e.user_agent",
        8 => "e.aws_region",
        9 => "e.error_code",
        10 => "e.resource",
        11 => "e.country",
        12 => "e.rule",
        _ => "e.method",
    }
}

/// One test for each of the first `n` shown columns.
pub open spec fn column_tests(table: Table, n: nat) -> Seq<char>
    decreases n,
{
    if n == 0 {
        "AND ("@
    } else {
        column_tests(table, (n - 1) as nat) + (if n == 1 {
            Seq::empty()
        } else {
            " OR "@
        }) + shown_column(table, n - 1) + " ILIKE ? ESCAPE '\\'"@
    }
}

pub open spec fn time_search() -> Seq<char> {
    " OR strftime(e.event_time + INTERVAL 9 HOUR, '%Y-%m-%d %H:%M:%S.%g')"@
        + " LIKE ? ESCAPE '\\'"@
}

/// The search condition. Each shown column is tested on its own, so the scan
/// is a substring test per column.
pub open spec fn search_text(search: Seq<char>, table: Table) -> Seq<char> {
    let columns = column_tests(table, SHOWN_COLUMNS as nat);
    match shape_of(search) {
        SearchShape::Nothing => Seq::empty(),
        SearchShape::Text => columns + ")"@,
        SearchShape::TextOrTime => columns + time_search() + ")"@,
    }
}

/// The search condition, or nothing when there is no search: every text column
/// that a row shows is tested, letter case aside. The time is shown in KST, so
/// it is searched as that text; but formatting it is the most expensive
/// branch, so it is only added when the needle reads as a date or clock
/// fragment.
pub fn search_filter(search: &str, table: Table) -> (out: String)
    ensures
        out@ == search_text(search@, table),
{
    let shape = search_shape(search);
    if shape == SearchShape::Nothing {
        return String::new();
    }
    let mut out = "AND (".to_owned();
    let mut i: usize = 0;
    while i < SHOWN_COLUMNS
        invariant
            i <= SHOWN_COLUMNS,
            out@ == column_tests(table, i as nat),
        decreases SHOWN_COLUMNS - i,
    {
        assert(out@ + Seq::<char>::empty() =~= out@);
        if i > 0 {
            out.push_str(" OR ");
        }
        match table {
            Table::Events => out.push_str(event_column(i)),
            Table::Matches => out.push_str(match_column(i)),
        }
        out.push_str(" ILIKE ? ESCAPE '\\'");
        i = i + 1;
    }
    if shape == SearchShape::TextOrTime {
        let ghost columns = out@;
        out.push_str(" OR strftime(e.event_time + INTERVAL 9 HOUR, '%Y-%m-%d %H:%M:%S.%g')");
        out.push_str(" LIKE ? ESCAPE '\\'");
        assert(out@ =~= columns + time_search());
    }
    out.push_str(")");
    out
}

/// A character of the needle; those with a meaning in patterns are escaped,
/// so the user searches for text.
pub open spec fn like_char(c: char) -> Seq<char> {
    if c == '%' || c == '_' || c == '\\' {
        seq!['\\', c]
    } else {
        seq![c]
    }
}

pub open spec fn like_body(needle: Seq<char>) -> Seq<char>
    decreases needle.len(),
{
    if needle.len() == 0 {
        Seq::empty()
    } else {
        like_body(needle.drop_last()) + like_char(needle.last())
    }
}

/// The pattern that finds a needle anywhere.
pub open spec fn like_pattern(needle: Seq<char>) -> Seq<char> {
    seq!['%'] + like_body(needle) + seq!['%']
}

/// A text that a pattern without wildcards, its escapes taken out, stands for.
pub open spec fn unescaped(pattern: Seq<char>, i: int) -> Seq<char>
    decreases pattern.len() - i,
{
    if i < 0 || i >= pattern.len() {
        Seq::empty()
    } else if pattern[i] == '\\' && i + 1 < pattern.len() {
        seq![pattern[i + 1]] + unescaped(pattern, i + 2)
    } else {
        seq![pattern[i]] + unescaped(pattern, i + 1)
    }
}

proof fn lemma_unescaped_add(a: Seq<char>, c: char, i: int, whole: Seq<char>)
    requires
        whole == a + like_char(c),
        0 <= i <= a.len(),
        closed(a, i),
    ensures
        unescaped(whole, i) == unescaped(a, i).push(c),
        closed(whole, i),
    decreases a.len() - i,
{
    if i == a.len() {
        reveal_with_fuel(unescaped, 3);
        reveal_with_fuel(closed, 3);
        assert(unescaped(a, i) =~= Seq::empty());
        assert(whole[i] == like_char(c)[0]);
        if like_char(c).len() == 2 {
            assert(whole[i + 1] == c);
            assert(unescaped(whole, i) =~= seq![c]);
        } else {
            assert(unescaped(whole, i) =~= seq![c]);
        }
        assert(unescaped(a, i).push(c) =~= seq![c]);
    } else if a[i] == '\\' {
        assert(i + 2 <= a.len()) by {
            reveal_with_fuel(closed, 2);
        }
        lemma_unescaped_add(a, c, i + 2, whole);
        assert(whole[i] == a[i] && whole[i + 1] == a[i + 1]);
        assert(seq![a[i + 1]] + unescaped(a, i + 2).push(c) =~= (seq![a[i + 1]] + unescaped(
            a,
            i + 2,
        )).push(c));
    } else {
        lemma_unescaped_add(a, c, i + 1, whole);
        assert(whole[i] == a[i]);
        assert(seq![a[i]] + unescaped(a, i + 1).push(c) =~= (seq![a[i]] + unescaped(
            a,
            i + 1,
        )).push(c));
    }
}

/// Reading escapes from position `i` on ends at the end of the text.
pub open spec fn closed(pattern: Seq<char>, i: int) -> bool
    decreases pattern.len() + 1 - i,
{
    if i < 0 || i >= pattern.len() {
        i == pattern.len()
    } else if pattern[i] == '\\' {
        closed(pattern, i + 2)
    } else {
        closed(pattern, i + 1)
    }
}

/// Escaping a needle loses nothing of it: the pattern stands for the needle
/// and nothing else in it is read as a wildcard.
pub proof fn escaping_keeps_the_needle(needle: Seq<char>)
    ensures
        unescaped(like_body(needle), 0) == needle,
        closed(like_body(needle), 0),
    decreases needle.len(),
{
    if needle.len() > 0 {
        escaping_keeps_the_needle(needle.drop_last());
        lemma_unescaped_add(
            like_body(needle.drop_last()),
            needle.last(),
            0,
            like_body(needle),
        );
        assert(needle.drop_last().push(needle.last()) =~= needle);
    } else {
        assert(unescaped(like_body(needle), 0) =~= needle);
    }
}

/// The values of a search: one pattern per searched column.
pub open spec fn search_binds(search: Seq<char>) -> Seq<sql::BindModel> {
    let one = sql::BindModel::Text(like_pattern(search));
    match shape_of(search) {
        SearchShape::Nothing => Seq::empty(),
        SearchShape::Text => Seq::new(SHOWN_COLUMNS as nat, |i: int| one),
        SearchShape::TextOrTime => Seq::new(SHOWN_COLUMNS as nat + 1, |i: int| one),
    }
}

fn pattern_of(search: &str) -> (out: String)
    ensures
        out@ == like_pattern(search@),
{
    let s = chars_of(search);
    let n: usize = s.len();
    let mut out = String::new();
    out.push('%');
    let mut i: usize = 0;
    proof {
        assert(s@.take(0) =~= Seq::empty());
        assert(out@ =~= seq!['%'] + like_body(s@.take(0)));
    }
    while i < n
        invariant
            i <= n,
            n == s@.len(),
            out@ == seq!['%'] + like_body(s@.take(i as int)),
        decreases n - i,
    {
        let ghost before = out@;
        let c = s[i];
        assert(s@.take(i + 1).drop_last() =~= s@.take(i as int));
        if c == '%' || c == '_' || c == '\\' {
            out.push('\\');
        }
        out.push(c);
        assert(out@ =~= before + like_char(c));
        assert(before + like_char(c) =~= seq!['%'] + (like_body(s@.take(i as int)) + like_char(c)));
        i = i + 1;
    }
    assert(s@.take(n as int) =~= s@);
    out.push('%');
    assert(out@ =~= like_pattern(search@));
    out
}

fn push_search(search: &str, binds: &mut Vec<Bind>)
    ensures
        sql::bind_models(final(binds)@) == sql::bind_models(old(binds)@) + search_binds(search@),
{
    let ghost before = sql::bind_models(binds@);
    let shape = search_shape(search);
    if shape != SearchShape::Nothing {
        let pattern = pattern_of(search);
        let ghost one = sql::BindModel::Text(pattern@);
        let mut i: usize = 0;
        while i < SHOWN_COLUMNS
            invariant
                i <= SHOWN_COLUMNS,
                one == sql::BindModel::Text(pattern@),
                sql::bind_models(binds@) =~= before + Seq::new(i as nat, |k: int| one),
            decreases SHOWN_COLUMNS - i,
        {
            push_text(binds, pattern.clone());
            i = i + 1;
        }
        if shape == SearchShape::TextOrTime {
            push_text(binds, pattern);
        }
    }
    assert(sql::bind_models(binds@) =~= before + search_binds(search@));
}

/// The values of a search: one `%needle%` per searched column.
pub fn search_params(search: &str) -> (binds: Vec<Bind>)
    ensures
        sql::bind_models(binds@) == search_binds(search@),
{
    let mut binds: Vec<Bind> = Vec::new();
    assert(sql::bind_models(binds@) =~= Seq::empty());
    push_search(search, &mut binds);
    assert(Seq::<sql::BindModel>::empty() + search_binds(search@) =~= search_binds(search@));
    binds
}

// ---------------------------------------------------------- order and paging

pub open spec fn order_text(newest_first: bool) -> Seq<char> {
    if newest_first {
        "ORDER BY e.event_time DESC NULLS LAST, e.event_id DESC"@
    } else {
        "ORDER BY e.event_time ASC NULLS LAST, e.event_id ASC"@
    }
}

/// The order of a list, chosen from a flag rather than taken from anything
/// user-supplied. The event id breaks ties, and an event whose time failed to
/// parse never heads the list.
pub fn order_by(newest_first: bool) -> (r: &'static str)
    ensures
        r@ == order_text(newest_first),
{
    if newest_first {
        "ORDER BY e.event_time DESC NULLS LAST, e.event_id DESC"
    } else {
        "ORDER BY e.event_time ASC NULLS LAST, e.event_id ASC"
    }
}

pub open spec fn direction(newest_first: bool) -> Seq<char> {
    if newest_first {
        "<"@
    } else {
        ">"@
    }
}

/// The condition that continues after a cursor.
pub open spec fn page_text(window: Window) -> Seq<char> {
    match window.after {
        None => Seq::empty(),
        Some(after) => if after.time_micros is Some {
            "AND ((e.event_time, e.event_id) "@ + direction(window.newest_first)
                + " (make_timestamp(CAST(? AS BIGINT)), CAST(? AS UBIGINT))"@
                + " OR e.event_time IS NULL)"@
        } else {
            "AND e.event_time IS NULL AND e.event_id "@ + direction(window.newest_first)
                + " CAST(? AS UBIGINT)"@
        },
    }
}

pub open spec fn page_binds(window: Window) -> Seq<sql::BindModel> {
    match window.after {
        None => Seq::empty(),
        Some(after) => match after.time_micros {
            Some(time) => seq![
                sql::BindModel::Text(time@),
                sql::BindModel::Text(after.event_id@),
            ],
            None => seq![sql::BindModel::Text(after.event_id@)],
        },
    }
}

/// The condition that continues after the window's cursor, and its values.
pub fn page_filter(window: &Window, binds: &mut Vec<Bind>) -> (out: String)
    ensures
        out@ == page_text(*window),
        sql::bind_models(final(binds)@) == sql::bind_models(old(binds)@) + page_binds(*window),
{
    let ghost before = sql::bind_models(binds@);
    let towards: &str = if window.newest_first {
        "<"
    } else {
        ">"
    };
    match &window.after {
        None => {
            assert(sql::bind_models(binds@) =~= before + page_binds(*window));
            String::new()
        },
        Some(after) => match &after.time_micros {
            Some(time) => {
                push_text(binds, time.as_str().to_owned());
                push_text(binds, after.event_id.as_str().to_owned());
                assert(sql::bind_models(binds@) =~= before + page_binds(*window));
                let mut out = "AND ((e.event_time, e.event_id) ".to_owned();
                out.push_str(towards);
                out.push_str(" (make_timestamp(CAST(? AS BIGINT)), CAST(? AS UBIGINT))");
                out.push_str(" OR e.event_time IS NULL)");
                out
            },
            None => {
                push_text(binds, after.event_id.as_str().to_owned());
                assert(sql::bind_models(binds@) =~= before + page_binds(*window));
                let mut out = "AND e.event_time IS NULL AND e.event_id ".to_owned();
                out.push_str(towards);
                out.push_str(" CAST(? AS UBIGINT)");
                out
            },
        },
    }
}

/// What rows are sorted by.
pub ghost struct SortKey {
    pub time: Option<int>,
    pub id: int,
}

/// The order that `order_by` spells: by time, then by id, both in the chosen
/// direction; rows without a time last.
pub open spec fn listed_before(newest_first: bool, a: SortKey, b: SortKey) -> bool {
    match (a.time, b.time) {
        (Some(s), Some(t)) => if s == t {
            ids_before(newest_first, a.id, b.id)
        } else if newest_first {
            s > t
        } else {
            s < t
        },
        (Some(_), None) => true,
        (None, Some(_)) => false,
        (None, None) => ids_before(newest_first, a.id, b.id),
    }
}

pub open spec fn ids_before(newest_first: bool, a: int, b: int) -> bool {
    if newest_first {
        a > b
    } else {
        a < b
    }
}

/// The rows that the condition of `page_filter` lets through: pairs compare
/// from the left, and a comparison with a missing time holds of nothing.
pub open spec fn continues(newest_first: bool, after: SortKey, row: SortKey) -> bool {
    match after.time {
        Some(t) => match row.time {
            Some(r) => if newest_first {
                r < t || (r == t && row.id < after.id)
            } else {
                r > t || (r == t && row.id > after.id)
            },
            None => true,
        },
        None => row.time is None && ids_before(newest_first, after.id, row.id),
    }
}

/// A continuation lets through exactly the rows listed behind the cursor, so
/// paging neither repeats nor skips a row, however many share a time.
pub proof fn a_page_continues_where_the_last_ended(
    newest_first: bool,
    after: SortKey,
    row: SortKey,
)
    ensures
        continues(newest_first, after, row) <==> listed_before(newest_first, after, row),
{
}

/// The order of a list decides between any two rows with different ids.
pub proof fn the_list_order_is_total(newest_first: bool, a: SortKey, b: SortKey, c: SortKey)
    ensures
        a.id != b.id ==> listed_before(newest_first, a, b) || listed_before(newest_first, b, a),
        !(listed_before(newest_first, a, b) && listed_before(newest_first, b, a)),
        listed_before(newest_first, a, b) && listed_before(newest_first, b, c) ==> listed_before(
            newest_first,
            a,
            c,
        ),
{
}

/// The cursor behind the last row of a page.
pub fn next_cursor(last: Option<(u64, Option<i64>)>) -> (r: Option<EventCursor>)
    ensures
        r is Some <==> last is Some,
        last matches Some((id, time)) ==> {
            &&& r->Some_0.event_id@ == number::decimal(id as nat)
            &&& text::opt(r->Some_0.time_micros) == (match time {
                Some(us) => Some(number::signed_decimal(us as int)),
                None => None,
            })
        },
{
    match last {
        Some((id, time)) => Some(
            EventCursor {
                event_id: decimal_text(id),
                time_micros: match time {
                    Some(us) => Some(signed_text(us)),
                    None => None,
                },
            },
        ),
        None => None,
    }
}

// ------------------------------------------------------------------ queries

/// How many events are inside the window's scope.
pub open spec fn event_count_model(window: Window) -> Option<sql::QueryModel> {
    match scope_binds(window) {
        None => None,
        Some(binds) => Some(
            sql::QueryModel {
                sql: "SELECT count(*) FROM events e WHERE true "@ + scope_text(
                    window,
                    Table::Events,
                ),
                binds,
            },
        ),
    }
}

pub open spec fn answers(window: Window, model: Option<sql::QueryModel>, r: Result<
    Query,
    StoreError,
>) -> bool {
    match r {
        Ok(query) => model == Some(query@),
        Err(e) => model is None && refused(window, e),
    }
}

/// How many events are inside the window's scope (log type and date range).
pub fn event_count_query(window: &Window) -> (r: Result<Query, StoreError>)
    ensures
        answers(*window, event_count_model(*window), r),
{
    let binds: Vec<Bind> = match scope_params(window) {
        Ok(binds) => binds,
        Err(e) => return Err(e),
    };
    let mut sql = "SELECT count(*) FROM events e WHERE true ".to_owned();
    sql.push_str(scope_filter(window, Table::Events).as_str());
    Ok(Query { sql, binds })
}

pub open spec fn matched_count_model(window: Window) -> Option<sql::QueryModel> {
    match scope_binds(window) {
        None => None,
        Some(binds) => Some(
            sql::QueryModel {
                sql: "SELECT count(DISTINCT e.event_id) FROM rule_matches e WHERE true "@
                    + scope_text(window, Table::Matches),
                binds,
            },
        ),
    }
}

/// How many events at least one rule matched, inside the window's scope.
pub fn matched_count_query(window: &Window) -> (r: Result<Query, StoreError>)
    ensures
        answers(*window, matched_count_model(*window), r),
{
    let binds: Vec<Bind> = match scope_params(window) {
        Ok(binds) => binds,
        Err(e) => return Err(e),
    };
    let mut sql = "SELECT count(DISTINCT e.event_id) FROM rule_matches e WHERE true ".to_owned();
    sql.push_str(scope_filter(window, Table::Matches).as_str());
    Ok(Query { sql, binds })
}

pub open spec fn search_count_model(window: Window) -> Option<sql::QueryModel> {
    match scope_binds(window) {
        None => None,
        Some(binds) => Some(
            sql::QueryModel {
                sql: "SELECT count(*) FROM events e WHERE true "@ + scope_text(
                    window,
                    Table::Events,
                ) + " "@ + search_text(window.search@, Table::Events),
                binds: binds + search_binds(window.search@),
            },
        ),
    }
}

/// How many events match the window's scope and search, for the total of the
/// all-events view.
pub fn search_count_query(window: &Window) -> (r: Result<Query, StoreError>)
    ensures
        answers(*window, search_count_model(*window), r),
{
    let mut binds: Vec<Bind> = match scope_params(window) {
        Ok(binds) => binds,
        Err(e) => return Err(e),
    };
    push_search(window.search.as_str(), &mut binds);
    let mut sql = "SELECT count(*) FROM events e WHERE true ".to_owned();
    sql.push_str(scope_filter(window, Table::Events).as_str());
    sql.push_str(" ");
    sql.push_str(search_filter(window.search.as_str(), Table::Events).as_str());
    Ok(Query { sql, binds })
}

pub open spec fn rule_count_model(rule_id: Seq<char>, window: Window) -> Option<
    sql::QueryModel,
> {
    match scope_binds(window) {
        None => None,
        Some(binds) => Some(
            sql::QueryModel {
                sql: "SELECT count(*) FROM rule_matches e WHERE e.rule_id = ? "@ + scope_text(
                    window,
                    Table::Matches,
                ) + " "@ + search_text(window.search@, Table::Matches),
                binds: seq![sql::BindModel::Text(rule_id)] + binds + search_binds(window.search@),
            },
        ),
    }
}

/// A rule's matches under the window's type, range and search, for the count
/// under the table.
pub fn rule_count_query(rule_id: &str, window: &Window) -> (r: Result<Query, StoreError>)
    ensures
        answers(*window, rule_count_model(rule_id@, *window), r),
{
    let mut binds: Vec<Bind> = Vec::new();
    assert(sql::bind_models(binds@) =~= Seq::empty());
    push_text(&mut binds, rule_id.to_owned());
    assert(sql::bind_models(binds@) =~= seq![sql::BindModel::Text(rule_id@)]);
    match push_scope(window, &mut binds) {
        Ok(_) => {},
        Err(e) => return Err(e),
    }
    push_search(window.search.as_str(), &mut binds);
    let mut sql = "SELECT count(*) FROM rule_matches e WHERE e.rule_id = ? ".to_owned();
    sql.push_str(scope_filter(window, Table::Matches).as_str());
    sql.push_str(" ");
    sql.push_str(search_filter(window.search.as_str(), Table::Matches).as_str());
    Ok(Query { sql, binds })
}

/// The condition, order and limit that every page ends with.
pub open spec fn page_tail(window: Window, table: Table) -> Seq<char> {
    scope_text(window, table) + " "@ + search_text(window.search@, table) + " "@ + page_text(window)
        + " "@ + order_text(window.newest_first) + " LIMIT ?"@
}

pub open spec fn page_values(window: Window) -> Seq<sql::BindModel> {
    search_binds(window.search@) + page_binds(window) + seq![
        sql::BindModel::Unsigned(results::page_size(window.limit)),
    ]
}

fn tail_of(window: &Window, table: Table, binds: &mut Vec<Bind>) -> (out: String)
    ensures
        out@ == page_tail(*window, table),
        sql::bind_models(final(binds)@) == sql::bind_models(old(binds)@) + page_values(*window),
{
    let ghost before = sql::bind_models(binds@);
    push_search(window.search.as_str(), binds);
    let continuation = page_filter(window, binds);
    push_number(binds, window.page_limit());
    assert(sql::bind_models(binds@) =~= before + page_values(*window));
    let mut out = scope_filter(window, table);
    out.push_str(" ");
    out.push_str(search_filter(window.search.as_str(), table).as_str());
    out.push_str(" ");
    out.push_str(continuation.as_str());
    out.push_str(" ");
    out.push_str(order_by(window.newest_first));
    out.push_str(" LIMIT ?");
    out
}

/// One page of every event: only the narrow sort keys; the summaries of the
/// page are fetched by id.
pub open spec fn event_page_model(window: Window) -> Option<sql::QueryModel> {
    match scope_binds(window) {
        None => None,
        Some(binds) => Some(
            sql::QueryModel {
                sql: "SELECT e.event_id, epoch_us(e.event_time) FROM events e WHERE true "@
                    + page_tail(window, Table::Events),
                binds: binds + page_values(window),
            },
        ),
    }
}

/// One page of every event regardless of rules.
pub fn event_page_query(window: &Window) -> (r: Result<Query, StoreError>)
    ensures
        answers(*window, event_page_model(*window), r),
{
    let mut binds: Vec<Bind> = match scope_params(window) {
        Ok(binds) => binds,
        Err(e) => return Err(e),
    };
    let tail = tail_of(window, Table::Events, &mut binds);
    let mut sql = "SELECT e.event_id, epoch_us(e.event_time) FROM events e WHERE true ".to_owned();
    sql.push_str(tail.as_str());
    Ok(Query { sql, binds })
}

/// The summary a match row was stored with.
pub open spec fn match_columns() -> Seq<char> {
    "e.event_id, epoch_us(e.event_time), "@
        + "strftime(e.event_time + INTERVAL 9 HOUR, '%Y-%m-%d %H:%M:%S.%g'), "@
        + "e.event_name, e.event_source, e.identity_arn, e.source_ip, "@
        + "e.url, e.status, e.target, e.user_agent, e.aws_region, e.error_code, "@
        + "e.resource, e.country, e.rule, e.method"@
}

fn push_match_columns(out: &mut String)
    ensures
        final(out)@ == old(out)@ + match_columns(),
{
    let ghost before = out@;
    out.push_str("e.event_id, epoch_us(e.event_time), ");
    out.push_str("strftime(e.event_time + INTERVAL 9 HOUR, '%Y-%m-%d %H:%M:%S.%g'), ");
    out.push_str("e.event_name, e.event_source, e.identity_arn, e.source_ip, ");
    out.push_str("e.url, e.status, e.target, e.user_agent, e.aws_region, e.error_code, ");
    out.push_str("e.resource, e.country, e.rule, e.method");
    assert(out@ =~= before + match_columns());
}

pub open spec fn match_page_model(rule_id: Seq<char>, window: Window) -> Option<
    sql::QueryModel,
> {
    match scope_binds(window) {
        None => None,
        Some(binds) => Some(
            sql::QueryModel {
                sql: "SELECT "@ + match_columns()
                    + ", e.matched_fields FROM rule_matches e WHERE e.rule_id = ? "@ + page_tail(
                    window,
                    Table::Matches,
                ),
                binds: seq![sql::BindModel::Text(rule_id)] + binds + page_values(window),
            },
        ),
    }
}

/// One page of a rule's matches, from the match table alone. The search
/// narrows what the rule already selected.
pub fn match_page_query(rule_id: &str, window: &Window) -> (r: Result<Query, StoreError>)
    ensures
        answers(*window, match_page_model(rule_id@, *window), r),
{
    let mut binds: Vec<Bind> = Vec::new();
    assert(sql::bind_models(binds@) =~= Seq::empty());
    push_text(&mut binds, rule_id.to_owned());
    assert(sql::bind_models(binds@) =~= seq![sql::BindModel::Text(rule_id@)]);
    match push_scope(window, &mut binds) {
        Ok(_) => {},
        Err(e) => return Err(e),
    }
    let tail = tail_of(window, Table::Matches, &mut binds);
    let mut sql = "SELECT ".to_owned();
    push_match_columns(&mut sql);
    sql.push_str(", e.matched_fields FROM rule_matches e WHERE e.rule_id = ? ");
    sql.push_str(tail.as_str());
    Ok(Query { sql, binds })
}

/// Which rules are listed: under a log type those scoped to it or unscoped,
/// otherwise those for any type the case holds events of.
pub open spec fn rule_scope(window: Window) -> Seq<char> {
    if window.log_type is Some {
        "r.log_type = ?"@
    } else {
        "r.log_type IN (SELECT f.log_type FROM files f "@
            + "WHERE EXISTS (SELECT 1 FROM events e WHERE e.file_id = f.file_id))"@
    }
}

pub open spec fn groups_model(window: Window) -> Option<sql::QueryModel> {
    match scope_binds(window) {
        None => None,
        Some(binds) => Some(
            sql::QueryModel {
                sql: "SELECT r.rule_id, count(e.event_id), r.severity, r.description, "@
                    + "r.evaluated, coalesce(r.name, r.rule_id) "@
                    + "FROM rules r LEFT JOIN rule_matches e ON e.rule_id = r.rule_id "@
                    + scope_text(window, Table::Matches) + " WHERE r.log_type IS NULL OR "@
                    + rule_scope(window)
                    + " GROUP BY r.rule_id, r.name, r.severity, r.description, r.evaluated"@
                    + " ORDER BY count(e.event_id) DESC, r.rule_id"@,
                binds: binds + type_binds(window.log_type),
            },
        ),
    }
}

/// Match counts per rule. Driven from the rules, not their matches: a rule
/// that matched nothing is coverage information.
pub fn groups_query(window: &Window) -> (r: Result<Query, StoreError>)
    ensures
        answers(*window, groups_model(*window), r),
{
    let mut binds: Vec<Bind> = match scope_params(window) {
        Ok(binds) => binds,
        Err(e) => return Err(e),
    };
    let ghost before = sql::bind_models(binds@);
    if let Some(t) = &window.log_type {
        push_text(&mut binds, t.as_str().to_owned());
    }
    assert(sql::bind_models(binds@) =~= before + type_binds(window.log_type));
    let mut sql =
        "SELECT r.rule_id, count(e.event_id), r.severity, r.description, ".to_owned();
    sql.push_str("r.evaluated, coalesce(r.name, r.rule_id) ");
    sql.push_str("FROM rules r LEFT JOIN rule_matches e ON e.rule_id = r.rule_id ");
    sql.push_str(scope_filter(window, Table::Matches).as_str());
    sql.push_str(" WHERE r.log_type IS NULL OR ");
    let ghost head = sql@;
    if window.log_type.is_some() {
        sql.push_str("r.log_type = ?");
    } else {
        sql.push_str("r.log_type IN (SELECT f.log_type FROM files f ");
        sql.push_str("WHERE EXISTS (SELECT 1 FROM events e WHERE e.file_id = f.file_id))");
    }
    assert(sql@ =~= head + rule_scope(*window));
    sql.push_str(" GROUP BY r.rule_id, r.name, r.severity, r.description, r.evaluated");
    sql.push_str(" ORDER BY count(e.event_id) DESC, r.rule_id");
    Ok(Query { sql, binds })
}

// ------------------------------------------------------ placeholders and values

proof fn lemma_type_literals()
    ensures
        sql::marks("AND e.file_id IN (SELECT file_id FROM files WHERE log_type = ?)"@) == 1,
        sql::marks("AND e.log_type = ?"@) == 1,
{
    reveal_strlit("AND e.file_id IN (SELECT file_id FROM files WHERE log_type = ?)");
    reveal_strlit("AND e.log_type = ?");
    reveal_with_fuel(sql::marks_upto, 65);
}

proof fn lemma_range_literals()
    ensures
        sql::marks(" AND e.event_time >= CAST(? AS TIMESTAMP) - INTERVAL 9 HOUR"@) == 1,
        sql::marks(" AND e.event_time < CAST(? AS TIMESTAMP) - INTERVAL 9 HOUR"@) == 1,
{
    reveal_strlit(" AND e.event_time >= CAST(? AS TIMESTAMP) - INTERVAL 9 HOUR");
    reveal_strlit(" AND e.event_time < CAST(? AS TIMESTAMP) - INTERVAL 9 HOUR");
    reveal_with_fuel(sql::marks_upto, 62);
}

proof fn lemma_when_marks(flag: bool, part: Seq<char>)
    ensures
        sql::marks(when(flag, part)) == (if flag {
            sql::marks(part)
        } else {
            0
        }),
{
}

proof fn lemma_scope_marks(window: Window, table: Table)
    requires
        scope_binds(window) is Some,
    ensures
        sql::marks(scope_text(window, table)) == scope_binds(window)->Some_0.len(),
{
    lemma_type_literals();
    lemma_range_literals();
    let a = when(window.log_type is Some, type_filter(table));
    let b = when(window.from is Some, from_filter());
    let c = when(window.to is Some, to_filter());
    lemma_when_marks(window.log_type is Some, type_filter(table));
    lemma_when_marks(window.from is Some, from_filter());
    lemma_when_marks(window.to is Some, to_filter());
    sql::lemma_marks_add(a + b, c);
    sql::lemma_marks_add(a, b);
}

proof fn lemma_event_shown_marks(i: int)
    ensures
        sql::marks(event_shown(i)) == 0,
{
    reveal_strlit("e.event_name");
    reveal_strlit("e.event_source");
    reveal_strlit("e.identity_arn");
    reveal_strlit("e.source_ip");
    reveal_strlit("json_extract_string(e.request, '$.url')");
    reveal_strlit("coalesce(json_extract_string(e.response, '$.elb_status_code'), json_extract_string(e.response, '$.status'))");
    reveal_strlit("coalesce(json_extract_string(e.resources, '$.target'), json_extract_string(e.resources, '$.host'))");
    reveal_strlit("e.user_agent");
    reveal_strlit("e.aws_region");
    reveal_strlit("e.error_code");
    reveal_strlit("json_extract_string(e.resources, '$[0].ARN')");
    reveal_strlit("json_extract_string(e.request, '$.country')");
    reveal_strlit("json_extract_string(e.response, '$.terminating_rule_id')");
    reveal_strlit("json_extract_string(e.request, '$.method')");
    let name = event_shown(i);
    assert forall|k: int| 0 <= k < name.len() implies name[k] != '?' by {}
    sql::lemma_no_marks(name, name.len());
}

proof fn lemma_match_shown_marks(i: int)
    ensures
        sql::marks(match_shown(i)) == 0,
{
    reveal_strlit("e.event_name");
    reveal_strlit("e.event_source");
    reveal_strlit("e.identity_arn");
    reveal_strlit("e.source_ip");
    reveal_strlit("e.url");
    reveal_strlit("e.status");
    reveal_strlit("e.target");
    reveal_strlit("e.user_agent");
    reveal_strlit("e.aws_region");
    reveal_strlit("e.error_code");
    reveal_strlit("e.resource");
    reveal_strlit("e.country");
    reveal_strlit("e.rule");
    reveal_strlit("e.method");
    let name = match_shown(i);
    assert forall|k: int| 0 <= k < name.len() implies name[k] != '?' by {}
    sql::lemma_no_marks(name, name.len());
}

proof fn lemma_search_literals()
    ensures
        sql::marks("AND ("@) == 0,
        sql::marks(" OR "@) == 0,
        sql::marks(" ILIKE ? ESCAPE '\\'"@) == 1,
        sql::marks(")"@) == 0,
{
    reveal_strlit("AND (");
    reveal_strlit(" OR ");
    reveal_strlit(" ILIKE ? ESCAPE '\\'");
    reveal_strlit(")");
    reveal_with_fuel(sql::marks_upto, 25);
}

proof fn lemma_tests_marks(table: Table, n: nat)
    ensures
        sql::marks(column_tests(table, n)) == n,
    decreases n,
{
    lemma_search_literals();
    if n > 0 {
        lemma_tests_marks(table, (n - 1) as nat);
        lemma_event_shown_marks(n - 1);
        lemma_match_shown_marks(n - 1);
        let before = column_tests(table, (n - 1) as nat);
        let link = if n == 1 {
            Seq::empty()
        } else {
            " OR "@
        };
        let name = shown_column(table, n - 1);
        assert(sql::marks(Seq::empty()) == 0);
        sql::lemma_marks_add(before, link);
        sql::lemma_marks_add(before + link, name);
        sql::lemma_marks_add(before + link + name, " ILIKE ? ESCAPE '\\'"@);
    }
}

proof fn lemma_time_literals()
    ensures
        sql::marks(" OR strftime(e.event_time + INTERVAL 9 HOUR, '%Y-%m-%d %H:%M:%S.%g')"@) == 0,
        sql::marks(" LIKE ? ESCAPE '\\'"@) == 1,
{
    reveal_strlit(" OR strftime(e.event_time + INTERVAL 9 HOUR, '%Y-%m-%d %H:%M:%S.%g')");
    reveal_strlit(" LIKE ? ESCAPE '\\'");
    reveal_with_fuel(sql::marks_upto, 75);
}

proof fn lemma_search_marks(search: Seq<char>, table: Table)
    ensures
        sql::marks(search_text(search, table)) == search_binds(search).len(),
{
    lemma_search_literals();
    lemma_time_literals();
    lemma_tests_marks(table, SHOWN_COLUMNS as nat);
    sql::lemma_marks_add(
        " OR strftime(e.event_time + INTERVAL 9 HOUR, '%Y-%m-%d %H:%M:%S.%g')"@,
        " LIKE ? ESCAPE '\\'"@,
    );
    let columns = column_tests(table, SHOWN_COLUMNS as nat);
    sql::lemma_marks_add(columns, ")"@);
    sql::lemma_marks_add(columns, time_search());
    sql::lemma_marks_add(columns + time_search(), ")"@);
}

proof fn lemma_page_literals(newest_first: bool)
    ensures
        sql::marks(direction(newest_first)) == 0,
        sql::marks("AND ((e.event_time, e.event_id) "@) == 0,
        sql::marks(" (make_timestamp(CAST(? AS BIGINT)), CAST(? AS UBIGINT))"@) == 2,
        sql::marks(" OR e.event_time IS NULL)"@) == 0,
        sql::marks("AND e.event_time IS NULL AND e.event_id "@) == 0,
        sql::marks(" CAST(? AS UBIGINT)"@) == 1,
{
    reveal_strlit("<");
    reveal_strlit(">");
    reveal_strlit("AND ((e.event_time, e.event_id) ");
    reveal_strlit(" (make_timestamp(CAST(? AS BIGINT)), CAST(? AS UBIGINT))");
    reveal_strlit(" OR e.event_time IS NULL)");
    reveal_strlit("AND e.event_time IS NULL AND e.event_id ");
    reveal_strlit(" CAST(? AS UBIGINT)");
    reveal_with_fuel(sql::marks_upto, 60);
}

proof fn lemma_page_marks(window: Window)
    ensures
        sql::marks(page_text(window)) == page_binds(window).len(),
{
    lemma_page_literals(window.newest_first);
    let d = direction(window.newest_first);
    let a = "AND ((e.event_time, e.event_id) "@;
    let b = " (make_timestamp(CAST(? AS BIGINT)), CAST(? AS UBIGINT))"@;
    let c = " OR e.event_time IS NULL)"@;
    let e = "AND e.event_time IS NULL AND e.event_id "@;
    let f = " CAST(? AS UBIGINT)"@;
    sql::lemma_marks_add(a, d);
    sql::lemma_marks_add(a + d, b);
    sql::lemma_marks_add(a + d + b, c);
    sql::lemma_marks_add(e, d);
    sql::lemma_marks_add(e + d, f);
}

proof fn lemma_tail_literals(newest_first: bool)
    ensures
        sql::marks(" "@) == 0,
        sql::marks(" LIMIT ?"@) == 1,
        sql::marks(order_text(newest_first)) == 0,
{
    reveal_strlit(" ");
    reveal_strlit(" LIMIT ?");
    reveal_strlit("ORDER BY e.event_time DESC NULLS LAST, e.event_id DESC");
    reveal_strlit("ORDER BY e.event_time ASC NULLS LAST, e.event_id ASC");
    reveal_with_fuel(sql::marks_upto, 60);
}

proof fn lemma_tail_marks(window: Window, table: Table)
    requires
        scope_binds(window) is Some,
    ensures
        sql::marks(page_tail(window, table)) == scope_binds(window)->Some_0.len() + page_values(
            window,
        ).len(),
{
    let a = scope_text(window, table);
    let s = search_text(window.search@, table);
    let p = page_text(window);
    let o = order_text(window.newest_first);
    lemma_scope_marks(window, table);
    lemma_search_marks(window.search@, table);
    lemma_page_marks(window);
    lemma_tail_literals(window.newest_first);
    sql::lemma_marks_add(a, " "@);
    sql::lemma_marks_add(a + " "@, s);
    sql::lemma_marks_add(a + " "@ + s, " "@);
    sql::lemma_marks_add(a + " "@ + s + " "@, p);
    sql::lemma_marks_add(a + " "@ + s + " "@ + p, " "@);
    sql::lemma_marks_add(a + " "@ + s + " "@ + p + " "@, o);
    sql::lemma_marks_add(a + " "@ + s + " "@ + p + " "@ + o, " LIMIT ?"@);
}

proof fn lemma_head_marks()
    ensures
        sql::marks("SELECT count(*) FROM events e WHERE true "@) == 0,
        sql::marks("SELECT count(DISTINCT e.event_id) FROM rule_matches e WHERE true "@) == 0,
        sql::marks("SELECT count(*) FROM rule_matches e WHERE e.rule_id = ? "@) == 1,
        sql::marks("SELECT e.event_id, epoch_us(e.event_time) FROM events e WHERE true "@) == 0,
{
    reveal_strlit("SELECT count(*) FROM events e WHERE true ");
    reveal_strlit("SELECT count(DISTINCT e.event_id) FROM rule_matches e WHERE true ");
    reveal_strlit("SELECT count(*) FROM rule_matches e WHERE e.rule_id = ? ");
    reveal_strlit("SELECT e.event_id, epoch_us(e.event_time) FROM events e WHERE true ");
    reveal_with_fuel(sql::marks_upto, 75);
}

/// Each counting query has exactly one value for each of its placeholders.
pub proof fn count_queries_are_balanced(window: Window, rule_id: Seq<char>)
    ensures
        event_count_model(window) matches Some(q) ==> q.balanced(),
        matched_count_model(window) matches Some(q) ==> q.balanced(),
        search_count_model(window) matches Some(q) ==> q.balanced(),
        rule_count_model(rule_id, window) matches Some(q) ==> q.balanced(),
{
    if scope_binds(window) is Some {
        lemma_head_marks();
        lemma_tail_literals(window.newest_first);
        lemma_scope_marks(window, Table::Events);
        lemma_scope_marks(window, Table::Matches);
        lemma_search_marks(window.search@, Table::Events);
        lemma_search_marks(window.search@, Table::Matches);
        let s = search_text(window.search@, Table::Events);
        let t = search_text(window.search@, Table::Matches);
        let a = "SELECT count(*) FROM events e WHERE true "@;
        let on_events = scope_text(window, Table::Events);
        sql::lemma_marks_add(a, on_events);
        sql::lemma_marks_add(a + on_events, " "@);
        sql::lemma_marks_add(a + on_events + " "@, s);
        let b = "SELECT count(DISTINCT e.event_id) FROM rule_matches e WHERE true "@;
        let on_matches = scope_text(window, Table::Matches);
        sql::lemma_marks_add(b, on_matches);
        let c = "SELECT count(*) FROM rule_matches e WHERE e.rule_id = ? "@;
        sql::lemma_marks_add(c, on_matches);
        sql::lemma_marks_add(c + on_matches, " "@);
        sql::lemma_marks_add(c + on_matches + " "@, t);
    }
}

proof fn lemma_match_literals()
    ensures
        sql::marks("e.event_id, epoch_us(e.event_time), "@) == 0,
        sql::marks("strftime(e.event_time + INTERVAL 9 HOUR, '%Y-%m-%d %H:%M:%S.%g'), "@) == 0,
        sql::marks("e.event_name, e.event_source, e.identity_arn, e.source_ip, "@) == 0,
        sql::marks("e.url, e.status, e.target, e.user_agent, e.aws_region, e.error_code, "@) == 0,
        sql::marks("e.resource, e.country, e.rule, e.method"@) == 0,
        sql::marks("SELECT "@) == 0,
        sql::marks(", e.matched_fields FROM rule_matches e WHERE e.rule_id = ? "@) == 1,
{
    reveal_strlit("e.event_id, epoch_us(e.event_time), ");
    reveal_strlit("strftime(e.event_time + INTERVAL 9 HOUR, '%Y-%m-%d %H:%M:%S.%g'), ");
    reveal_strlit("e.event_name, e.event_source, e.identity_arn, e.source_ip, ");
    reveal_strlit("e.url, e.status, e.target, e.user_agent, e.aws_region, e.error_code, ");
    reveal_strlit("e.resource, e.country, e.rule, e.method");
    reveal_strlit("SELECT ");
    reveal_strlit(", e.matched_fields FROM rule_matches e WHERE e.rule_id = ? ");
    reveal_with_fuel(sql::marks_upto, 75);
}

proof fn lemma_match_column_marks()
    ensures
        sql::marks(match_columns()) == 0,
{
    lemma_match_literals();
    let a = "e.event_id, epoch_us(e.event_time), "@;
    let b = "strftime(e.event_time + INTERVAL 9 HOUR, '%Y-%m-%d %H:%M:%S.%g'), "@;
    let c = "e.event_name, e.event_source, e.identity_arn, e.source_ip, "@;
    let d = "e.url, e.status, e.target, e.user_agent, e.aws_region, e.error_code, "@;
    let e = "e.resource, e.country, e.rule, e.method"@;
    sql::lemma_marks_add(a, b);
    sql::lemma_marks_add(a + b, c);
    sql::lemma_marks_add(a + b + c, d);
    sql::lemma_marks_add(a + b + c + d, e);
}

/// Each paging query has exactly one value for each of its placeholders.
pub proof fn page_queries_are_balanced(window: Window, rule_id: Seq<char>)
    ensures
        event_page_model(window) matches Some(q) ==> q.balanced(),
        match_page_model(rule_id, window) matches Some(q) ==> q.balanced(),
{
    if scope_binds(window) is Some {
        lemma_head_marks();
        lemma_tail_marks(window, Table::Events);
        lemma_tail_marks(window, Table::Matches);
        lemma_match_column_marks();
        let a = "SELECT e.event_id, epoch_us(e.event_time) FROM events e WHERE true "@;
        sql::lemma_marks_add(a, page_tail(window, Table::Events));
        let b = "SELECT "@;
        let c = ", e.matched_fields FROM rule_matches e WHERE e.rule_id = ? "@;
        lemma_match_literals();
        sql::lemma_marks_add(b, match_columns());
        sql::lemma_marks_add(b + match_columns(), c);
        sql::lemma_marks_add(b + match_columns() + c, page_tail(window, Table::Matches));
    }
}

proof fn lemma_group_literals()
    ensures
        sql::marks("SELECT r.rule_id, count(e.event_id), r.severity, r.description, "@) == 0,
        sql::marks("r.evaluated, coalesce(r.name, r.rule_id) "@) == 0,
        sql::marks("FROM rules r LEFT JOIN rule_matches e ON e.rule_id = r.rule_id "@) == 0,
        sql::marks(" WHERE r.log_type IS NULL OR "@) == 0,
{
    reveal_strlit("SELECT r.rule_id, count(e.event_id), r.severity, r.description, ");
    reveal_strlit("r.evaluated, coalesce(r.name, r.rule_id) ");
    reveal_strlit("FROM rules r LEFT JOIN rule_matches e ON e.rule_id = r.rule_id ");
    reveal_strlit(" WHERE r.log_type IS NULL OR ");
    reveal_with_fuel(sql::marks_upto, 75);
}

proof fn lemma_group_order_literals()
    ensures
        sql::marks(" GROUP BY r.rule_id, r.name, r.severity, r.description, r.evaluated"@) == 0,
        sql::marks(" ORDER BY count(e.event_id) DESC, r.rule_id"@) == 0,
        sql::marks("r.log_type = ?"@) == 1,
        sql::marks("r.log_type IN (SELECT f.log_type FROM files f "@) == 0,
        sql::marks("WHERE EXISTS (SELECT 1 FROM events e WHERE e.file_id = f.file_id))"@) == 0,
{
    reveal_strlit(" GROUP BY r.rule_id, r.name, r.severity, r.description, r.evaluated");
    reveal_strlit(" ORDER BY count(e.event_id) DESC, r.rule_id");
    reveal_strlit("r.log_type = ?");
    reveal_strlit("r.log_type IN (SELECT f.log_type FROM files f ");
    reveal_strlit("WHERE EXISTS (SELECT 1 FROM events e WHERE e.file_id = f.file_id))");
    reveal_with_fuel(sql::marks_upto, 75);
}

/// The query for the rule groups has exactly one value for each of its
/// placeholders.
pub proof fn group_queries_are_balanced(window: Window)
    ensures
        groups_model(window) matches Some(q) ==> q.balanced(),
{
    if scope_binds(window) is Some {
        lemma_scope_marks(window, Table::Matches);
        lemma_group_literals();
        lemma_group_order_literals();
        let a = "SELECT r.rule_id, count(e.event_id), r.severity, r.description, "@;
        let b = "r.evaluated, coalesce(r.name, r.rule_id) "@;
        let c = "FROM rules r LEFT JOIN rule_matches e ON e.rule_id = r.rule_id "@;
        let d = " WHERE r.log_type IS NULL OR "@;
        let e = " GROUP BY r.rule_id, r.name, r.severity, r.description, r.evaluated"@;
        let f = " ORDER BY count(e.event_id) DESC, r.rule_id"@;
        let g = rule_scope(window);
        let s = scope_text(window, Table::Matches);
        sql::lemma_marks_add(
            "r.log_type IN (SELECT f.log_type FROM files f "@,
            "WHERE EXISTS (SELECT 1 FROM events e WHERE e.file_id = f.file_id))"@,
        );
        sql::lemma_marks_add(a, b);
        sql::lemma_marks_add(a + b, c);
        sql::lemma_marks_add(a + b + c, s);
        sql::lemma_marks_add(a + b + c + s, d);
        sql::lemma_marks_add(a + b + c + s + d, g);
        sql::lemma_marks_add(a + b + c + s + d + g, e);
        sql::lemma_marks_add(a + b + c + s + d + g + e, f);
    }
}

} // verus!
