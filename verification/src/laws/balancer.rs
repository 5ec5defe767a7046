//! Load balancer lines: which lines are taken for one, how they are cut into
//! fields, and which field an event keeps where.

use vstd::prelude::*;

use crate::detect;
use crate::json;
use crate::laws::texts;
use crate::number;
use crate::parse::alb;
use crate::split;
use crate::stamp;
use crate::text;

verus! {

// ------------------------------------------------------------------ words

proof fn lemma_space_shift(head: Seq<char>, s: Seq<char>, i: int)
    requires
        0 <= i <= s.len(),
    ensures
        split::skip_space(head + s, head.len() + i) == head.len() + split::skip_space(s, i),
        split::word_end(head + s, head.len() + i) == head.len() + split::word_end(s, i),
    decreases s.len() - i,
{
    if i < s.len() {
        assert((head + s)[head.len() + i] == s[i]);
        lemma_space_shift(head, s, i + 1);
    }
}

proof fn lemma_words_shift(head: Seq<char>, s: Seq<char>, i: int)
    requires
        0 <= i <= s.len(),
    ensures
        split::words_from(head + s, head.len() + i) == split::words_from(s, i),
    decreases s.len() - i,
{
    lemma_space_shift(head, s, i);
    split::lemma_word_bounds(s, i);
    let a = split::skip_space(s, i);
    if a < s.len() {
        lemma_space_shift(head, s, a);
        split::lemma_word_bounds(s, a);
        split::lemma_word_bounds(s, a + 1);
        let b = split::word_end(s, a);
        lemma_words_shift(head, s, b);
        assert((head + s).subrange(head.len() + a, head.len() + b) =~= s.subrange(a, b));
    }
}

proof fn lemma_word_end(s: Seq<char>, i: int, n: int)
    requires
        0 <= i <= n <= s.len(),
        forall|j: int| i <= j < n ==> !text::is_space(#[trigger] s[j]),
        n < s.len() ==> text::is_space(s[n]),
    ensures
        split::word_end(s, i) == n,
    decreases n - i,
{
    if i < n {
        lemma_word_end(s, i + 1, n);
    }
}

/// A text between blanks.
pub open spec fn is_word(w: Seq<char>) -> bool {
    w.len() > 0 && forall|i: int| 0 <= i < w.len() ==> !text::is_space(#[trigger] w[i])
}

/// Words that were put next to each other with a blank between two of them
/// come back.
pub proof fn words_come_back(w: Seq<Seq<char>>)
    requires
        forall|i: int| 0 <= i < w.len() ==> is_word(#[trigger] w[i]),
    ensures
        split::words(texts::joined(w, ' ')) == w,
    decreases w.len(),
{
    let s = texts::joined(w, ' ');
    if w.len() == 0 {
        assert(split::words(s) =~= w);
    } else if w.len() == 1 {
        lemma_word_end(s, 0, s.len() as int);
        assert(split::skip_space(s, 0) == 0);
        assert(s.subrange(0, s.len() as int) =~= s);
        assert(split::skip_space(s, s.len() as int) == s.len());
        assert(split::words_from(s, s.len() as int) =~= Seq::empty());
        assert(split::words(s) =~= w);
    } else {
        let first = w[0];
        let rest = texts::joined(w.drop_first(), ' ');
        words_come_back(w.drop_first());
        let head = first + seq![' '];
        assert(s =~= head + rest);
        assert(s[first.len() as int] == ' ');
        assert forall|j: int| 0 <= j < first.len() implies !text::is_space(#[trigger] s[j]) by {
            assert(s[j] == first[j]);
        }
        lemma_word_end(s, 0, first.len() as int);
        assert(split::skip_space(s, 0) == 0);
        lemma_words_shift(head, rest, 0);
        assert(s.subrange(0, first.len() as int) =~= first);
        let at = first.len() as int;
        assert(split::skip_space(s, at) == split::skip_space(s, at + 1));
        assert(split::words_from(s, at) == split::words_from(s, at + 1));
        assert(split::words(s) =~= seq![first] + w.drop_first());
        assert(w =~= seq![first] + w.drop_first());
    }
}

// ----------------------------------------------------------------- fields

/// How a field is written down: as it is, or between quotes.
pub open spec fn written(field: Seq<char>, quoted: bool) -> Seq<char> {
    if quoted {
        seq!['"'] + field + seq!['"']
    } else {
        field
    }
}

/// A field can be written down that way and read back.
pub open spec fn can_be_written(field: Seq<char>, quoted: bool) -> bool {
    if quoted {
        forall|i: int| 0 <= i < field.len() ==> #[trigger] field[i] != '"' && field[i] != '\\'
    } else {
        field.len() > 0 && field[0] != '"' && forall|i: int|
            0 <= i < field.len() ==> !text::is_ascii_space(#[trigger] field[i])
    }
}

pub open spec fn all_written(fields: Seq<Seq<char>>, quoted: Seq<bool>) -> Seq<Seq<char>> {
    Seq::new(fields.len(), |i: int| written(fields[i], quoted[i]))
}

proof fn lemma_blank_shift(head: Seq<char>, s: Seq<char>, i: int)
    requires
        0 <= i <= s.len(),
    ensures
        alb::skip_blank(head + s, head.len() + i) == head.len() + alb::skip_blank(s, i),
        alb::field_end(head + s, head.len() + i) == head.len() + alb::field_end(s, i),
    decreases s.len() - i,
{
    if i < s.len() {
        assert((head + s)[head.len() + i] == s[i]);
        lemma_blank_shift(head, s, i + 1);
    }
}

proof fn lemma_quote_shift(head: Seq<char>, s: Seq<char>, i: int, escaped: bool)
    requires
        0 <= i <= s.len(),
    ensures
        alb::closing_quote(head + s, head.len() + i, escaped) == match alb::closing_quote(
            s,
            i,
            escaped,
        ) {
            Some(k) => Some(head.len() + k),
            None => None,
        },
    decreases s.len() - i,
{
    if i < s.len() {
        assert((head + s)[head.len() + i] == s[i]);
        lemma_quote_shift(head, s, i + 1, false);
        lemma_quote_shift(head, s, i + 1, s[i] == '\\');
    }
}

proof fn lemma_fields_shift(head: Seq<char>, s: Seq<char>, i: int)
    requires
        0 <= i <= s.len(),
    ensures
        alb::fields_from(head + s, head.len() + i) == alb::fields_from(s, i),
    decreases s.len() - i,
{
    let whole = head + s;
    lemma_blank_shift(head, s, i);
    alb::lemma_bounds(s, i);
    let start = alb::skip_blank(s, i);
    if start < s.len() {
        assert(whole[head.len() + start] == s[start]);
        if s[start] == '"' {
            lemma_quote_shift(head, s, start + 1, false);
            alb::lemma_closing_quote(s, start + 1, false);
            match alb::closing_quote(s, start + 1, false) {
                Some(end) => {
                    if end + 1 < s.len() {
                        assert(whole[head.len() + end + 1] == s[end + 1]);
                    }
                    lemma_fields_shift(head, s, end + 1);
                    assert(whole.subrange(head.len() + start + 1, head.len() + end) =~= s.subrange(
                        start + 1,
                        end,
                    ));
                },
                None => {},
            }
        } else {
            lemma_blank_shift(head, s, start);
            alb::lemma_bounds(s, start);
            alb::lemma_bounds(s, start + 1);
            let end = alb::field_end(s, start);
            lemma_fields_shift(head, s, end);
            assert(whole.subrange(head.len() + start, head.len() + end) =~= s.subrange(start, end));
        }
    }
}

proof fn lemma_field_end(s: Seq<char>, i: int, n: int)
    requires
        0 <= i <= n <= s.len(),
        forall|j: int| i <= j < n ==> !text::is_ascii_space(#[trigger] s[j]),
        n < s.len() ==> text::is_ascii_space(s[n]),
    ensures
        alb::field_end(s, i) == n,
    decreases n - i,
{
    if i < n {
        lemma_field_end(s, i + 1, n);
    }
}

proof fn lemma_quote_end(s: Seq<char>, i: int, n: int)
    requires
        0 <= i <= n < s.len(),
        forall|j: int| i <= j < n ==> #[trigger] s[j] != '"' && s[j] != '\\',
        s[n] == '"',
    ensures
        alb::closing_quote(s, i, false) == Some(n),
    decreases n - i,
{
    if i < n {
        lemma_quote_end(s, i + 1, n);
    }
}

/// The first field of a line, and the fields of what follows.
proof fn lemma_field_head(field: Seq<char>, quoted: bool, tail: Seq<char>)
    requires
        can_be_written(field, quoted),
        tail.len() > 0 ==> tail[0] == ' ',
    ensures
        alb::fields_from(written(field, quoted) + tail, 0) == alb::glue(
            seq![field],
            alb::fields_from(tail, 0),
        ),
{
    let head = written(field, quoted);
    let s = head + tail;
    let n = head.len() as int;
    assert(s[0] == head[0]);
    assert(alb::skip_blank(s, 0) == 0);
    lemma_fields_shift(head, tail, 0);
    if n < s.len() {
        assert(s[n] == tail[0]);
    }
    if quoted {
        assert forall|j: int| 1 <= j < n - 1 implies #[trigger] s[j] != '"' && s[j] != '\\' by {
            assert(s[j] == field[j - 1]);
        }
        assert(s[n - 1] == '"');
        lemma_quote_end(s, 1, n - 1);
        assert(s.subrange(1, n - 1) =~= field);
    } else {
        assert forall|j: int| 0 <= j < n implies !text::is_ascii_space(#[trigger] s[j]) by {
            assert(s[j] == field[j]);
        }
        lemma_field_end(s, 0, n);
        assert(s.subrange(0, n) =~= field);
    }
}

/// The fields that were written on a line come back, quoted ones without
/// their quotes.
pub proof fn fields_come_back(fields: Seq<Seq<char>>, quoted: Seq<bool>)
    requires
        quoted.len() == fields.len(),
        forall|i: int| 0 <= i < fields.len() ==> can_be_written(#[trigger] fields[i], quoted[i]),
    ensures
        alb::alb_fields(texts::joined(all_written(fields, quoted), ' ')) == Some(fields),
    decreases fields.len(),
{
    let w = all_written(fields, quoted);
    let s = texts::joined(w, ' ');
    let nothing = Seq::<char>::empty();
    assert(alb::fields_from(nothing, 0) == Some(Seq::<Seq<char>>::empty()));
    if fields.len() == 0 {
        assert(alb::alb_fields(s) == Some(fields));
    } else if fields.len() == 1 {
        lemma_field_head(fields[0], quoted[0], nothing);
        assert(s =~= written(fields[0], quoted[0]) + nothing);
        assert(seq![fields[0]] + Seq::<Seq<char>>::empty() =~= fields);
    } else {
        let more = fields.drop_first();
        let marks = quoted.drop_first();
        assert forall|i: int| 0 <= i < more.len() implies can_be_written(
            #[trigger] more[i],
            marks[i],
        ) by {
            assert(can_be_written(fields[i + 1], quoted[i + 1]));
        }
        fields_come_back(more, marks);
        assert(w.drop_first() =~= all_written(more, marks));
        let rest = texts::joined(w.drop_first(), ' ');
        let tail = seq![' '] + rest;
        lemma_field_head(fields[0], quoted[0], tail);
        assert(s =~= written(fields[0], quoted[0]) + tail);
        lemma_fields_shift(seq![' '], rest, 0);
        assert(tail[0] == ' ');
        assert(alb::skip_blank(tail, 0) == alb::skip_blank(tail, 1));
        assert(alb::fields_from(tail, 0) == alb::fields_from(tail, 1));
        assert(seq![fields[0]] + more =~= fields);
    }
}

// -------------------------------------------------------------- endpoints

/// The host of `host:port` is what stands before the last colon; an address
/// in brackets loses them.
pub proof fn endpoints_name_their_host(host: Seq<char>, port: Seq<char>)
    requires
        !port.contains(':'),
    ensures
        host.len() > 0 && host[0] != '[' ==> alb::host_of(host + ":"@ + port) == Some(host),
        !host.contains(']') ==> alb::host_of("["@ + host + "]:"@ + port) == Some(host),
        host.len() > 0 && host[0] != '[' && !host.contains(':') ==> alb::host_of(host) is None,
{
    reveal_strlit(":");
    reveal_strlit("[");
    reveal_strlit("]:");
    let plain = host + ":"@ + port;
    if host.len() > 0 && host[0] != '[' {
        assert(plain[0] == host[0]);
        split::lemma_rfind_before(plain, ':', plain.len() as int);
        assert(plain[host.len() as int] == ':');
        match split::rfind_before(plain, ':', plain.len() as int) {
            Some(k) => {
                if k > host.len() {
                    assert(plain[k] == port[k - host.len() - 1]);
                    assert(port.contains(port[k - host.len() - 1]));
                }
            },
            None => {},
        }
        assert(plain.take(host.len() as int) =~= host);
        split::lemma_rfind_before(host, ':', host.len() as int);
        match split::rfind_before(host, ':', host.len() as int) {
            Some(k) => {
                assert(host.contains(host[k]));
            },
            None => {},
        }
    }
    let boxed = "["@ + host + "]:"@ + port;
    if !host.contains(']') {
        assert(boxed[0] == '[');
        split::lemma_find_text_from(boxed, "]:"@, 1);
        let at: int = host.len() as int + 1;
        assert(boxed.subrange(at, at + 2) =~= "]:"@);
        assert(split::is_at(boxed, "]:"@, at));
        match split::find_text_from(boxed, "]:"@, 1) {
            Some(k) => {
                if k < at {
                    assert(boxed[k] == host[k - 1]);
                    assert(boxed.subrange(k, k + 2)[0] == boxed[k]);
                    assert(host.contains(host[k - 1]));
                }
            },
            None => {},
        }
        assert(boxed.subrange(1, at) =~= host);
    }
}

// --------------------------------------------------------------- sampling

/// The words that a load balancer line may start with.
pub open spec fn starts_a_line(word: Seq<char>) -> bool {
    ||| word == "http"@
    ||| word == "https"@
    ||| word == "h2"@
    ||| word == "grpcs"@
    ||| word == "ws"@
    ||| word == "wss"@
}

/// A line is taken for a load balancer line exactly when its first word is
/// one of the six, its second an RFC 3339 time, its third starts with `app/`
/// and its fourth names a host; the summary has that time and that host.
pub proof fn balancer_lines_are_told_by_four_words(w: Seq<Seq<char>>)
    requires
        forall|i: int| 0 <= i < w.len() ==> is_word(#[trigger] w[i]),
    ensures
        ({
            let sample = detect::alb_sample(texts::joined(w, ' '));
            &&& sample is Some <==> w.len() >= 4 && starts_a_line(w[0]) && stamp::rfc3339_time(w[1])
                is Some && (exists|name: Seq<char>| w[2] == "app/"@ + name) && alb::host_of(w[3])
                is Some
            &&& sample matches Some(s) ==> s.event_time == Some(w[1]) && s.source_ip_address
                == alb::host_of(w[3]) && s.event_source == Some(
                "elasticloadbalancing.amazonaws.com"@,
            ) && s.event_name is None && s.raw is None && s.aws_region is None
        }),
{
    words_come_back(w);
    if w.len() >= 4 {
        lemma_prefix(w[2], "app/"@);
    }
}

proof fn lemma_prefix(s: Seq<char>, part: Seq<char>)
    ensures
        split::starts_with(s, part) <==> exists|rest: Seq<char>| s == part + rest,
{
    if split::starts_with(s, part) {
        assert(s =~= part + s.skip(part.len() as int));
    }
    if exists|rest: Seq<char>| s == part + rest {
        let rest = choose|rest: Seq<char>| s == part + rest;
        assert(s.subrange(0, part.len() as int) =~= part);
    }
}

/// Each of the six words starts a line that is taken, whatever follows the
/// fourth word.
pub proof fn six_protocols_are_taken(
    protocol: Seq<char>,
    time: Seq<char>,
    name: Seq<char>,
    host: Seq<char>,
    port: Seq<char>,
    more: Seq<Seq<char>>,
)
    requires
        protocol == "http"@ || protocol == "https"@ || protocol == "h2"@ || protocol == "grpcs"@
            || protocol == "ws"@ || protocol == "wss"@,
        is_word(time),
        is_word("app/"@ + name),
        is_word(host + ":"@ + port),
        host.len() > 0 && host[0] != '[',
        !port.contains(':'),
        forall|i: int| 0 <= i < more.len() ==> is_word(#[trigger] more[i]),
    ensures
        stamp::rfc3339_time(time) is Some ==> (detect::alb_sample(
            texts::joined(
                seq![protocol, time, "app/"@ + name, host + ":"@ + port] + more,
                ' ',
            ),
        ) matches Some(s) && s.source_ip_address == Some(host) && s.event_time == Some(time)),
{
    let w = seq![protocol, time, "app/"@ + name, host + ":"@ + port] + more;
    reveal_strlit("http");
    reveal_strlit("https");
    reveal_strlit("h2");
    reveal_strlit("grpcs");
    reveal_strlit("ws");
    reveal_strlit("wss");
    assert(is_word(protocol));
    assert forall|i: int| 0 <= i < w.len() implies is_word(#[trigger] w[i]) by {
        if i >= 4 {
            assert(w[i] == more[i - 4]);
        }
    }
    endpoints_name_their_host(host, port);
    balancer_lines_are_told_by_four_words(w);
}

// ----------------------------------------------------------------- events

/// The field at that position, unless it is missing or a dash.
pub open spec fn known(f: Seq<Seq<char>>, n: int) -> Option<Seq<char>> {
    if n < f.len() && f[n] != "-"@ {
        Some(f[n])
    } else {
        None
    }
}

/// A line becomes an event exactly when it has seventeen fields or more that
/// start as the sampled ones do.
pub proof fn balancer_lines_become_events(
    f: Seq<Seq<char>>,
    quoted: Seq<bool>,
    file_id: u32,
    record_index: u64,
    keep_raw: bool,
)
    requires
        quoted.len() == f.len(),
        forall|i: int| 0 <= i < f.len() ==> can_be_written(#[trigger] f[i], quoted[i]),
    ensures
        alb::line_event(
            texts::joined(all_written(f, quoted), ' '),
            file_id,
            record_index,
            keep_raw,
        ) is Some <==> f.len() >= 17 && starts_a_line(f[0]) && stamp::rfc3339_time(f[1]) is Some && (
        exists|name: Seq<char>| f[2] == "app/"@ + name) && alb::host_of(f[3]) is Some,
{
    fields_come_back(f, quoted);
    if f.len() >= 17 {
        lemma_prefix(f[2], "app/"@);
    }
}

/// Each field of a load balancer line that an event keeps, by its position.
pub proof fn balancer_fields_feed_columns_by_position(
    f: Seq<Seq<char>>,
    quoted: Seq<bool>,
    file_id: u32,
    record_index: u64,
    keep_raw: bool,
    line: Seq<char>,
)
    requires
        quoted.len() == f.len(),
        forall|i: int| 0 <= i < f.len() ==> can_be_written(#[trigger] f[i], quoted[i]),
        line == texts::joined(all_written(f, quoted), ' '),
    ensures
        alb::line_event(line, file_id, record_index, keep_raw) matches Some(e) ==> {
            let status = match known(f, 8) {
                Some(t) => number::parse_unsigned(t, 65535),
                None => None,
            };
            &&& e.event_time == stamp::rfc3339_time(f[1])
            &&& e.event_source == Some("elasticloadbalancing.amazonaws.com"@)
            &&& e.source_ip == alb::host_of(f[3])
            &&& e.user_agent == known(f, 13)
            &&& e.error_code == match status {
                Some(s) if s >= 400 => Some("HTTP "@ + number::decimal(s)),
                _ => None,
            }
            &&& e.error_message == match known(f, 24) {
                Some(t) => Some(t),
                None => known(f, 28),
            }
            &&& e.management_event == Some(false)
            &&& e.identity_type is None && e.identity_arn is None && e.identity_name is None
            &&& e.mfa_authenticated is None
            &&& e.file_id == file_id && e.record_index == record_index
            &&& e.request == Some(json::entries_text(alb::alb_request(f)))
            &&& e.response == Some(json::entries_text(alb::alb_response(f, alb::times_of(f))))
            &&& e.resources == Some(json::entries_text(alb::alb_resources(f)))
            &&& e.raw is Some <==> keep_raw
        },
{
    fields_come_back(f, quoted);
}

/// The request field holds method, URL and protocol; the method names the
/// event and tells whether it only reads.
pub proof fn the_request_field_holds_three_parts(
    f: Seq<Seq<char>>,
    at: crate::stamp::Stamp,
    method: Seq<char>,
    url: Seq<char>,
    protocol: Seq<char>,
    line: Seq<char>,
    file_id: u32,
    record_index: u64,
    keep_raw: bool,
)
    requires
        !method.contains(' '),
        !url.contains(' '),
        f.len() > 12,
        f[12] == method + seq![' '] + url + seq![' '] + protocol,
    ensures
        alb::record_event(line, f, at, alb::times_of(f), file_id, record_index, keep_raw) matches Some(
            e,
        ) ==> e.event_name == Some(method) && e.read_only == Some(
            method == "GET"@ || method == "HEAD"@ || method == "OPTIONS"@,
        ),
        alb::alb_request(f).contains(json::entry("method"@, json::Cell::Text(method))),
        alb::alb_request(f).contains(json::entry("url"@, json::Cell::Text(url))),
        alb::alb_request(f).contains(json::entry("protocol"@, json::Cell::Text(protocol))),
{
    let rest = url + seq![' '] + protocol;
    assert(f[12] =~= method + seq![' '] + rest);
    texts::the_first_separator_parts(method, rest, ' ');
    texts::the_first_separator_parts(url, protocol, ' ');
    reveal_strlit("-");
    assert(f[12].len() > 1);
    assert("-"@.len() == 1);
    assert(alb::shown(f, 12) == Some(f[12]));
    assert(alb::alb_request(f)[0].key == "method"@);
    assert(alb::alb_request(f)[1].key == "url"@);
    assert(alb::alb_request(f)[2].key == "protocol"@);
}

/// Region and account are the fourth and fifth part of the target group's
/// ARN.
pub proof fn target_groups_name_region_and_account(
    f: Seq<Seq<char>>,
    parts: Seq<Seq<char>>,
    at: crate::stamp::Stamp,
    line: Seq<char>,
    file_id: u32,
    record_index: u64,
    keep_raw: bool,
)
    requires
        parts.len() >= 5,
        forall|i: int| 0 <= i < parts.len() ==> !(#[trigger] parts[i]).contains(':'),
        f.len() > 16,
        f[16] == texts::joined(parts, ':'),
    ensures
        alb::record_event(line, f, at, alb::times_of(f), file_id, record_index, keep_raw) matches Some(
            e,
        ) ==> e.aws_region == Some(parts[3]) && e.account_id == Some(parts[4]),
{
    texts::splitting_undoes_joining(parts, ':');
    reveal_strlit("-");
    assert("-"@.len() == 1);
    if f[16] == "-"@ {
        let rest = texts::joined(parts.drop_first(), ':');
        let tail = texts::joined(parts.drop_first().drop_first(), ':');
        assert(parts.drop_first().len() > 1);
        assert(rest.len() >= 1);
        assert(f[16].len() >= 2);
    }
}

/// The payload columns of a load balancer line, position by position.
pub proof fn balancer_fields_fill_payload_by_position(f: Seq<Seq<char>>)
    requires
        f.len() >= 17,
    ensures
        ({
            let text = |n: int| json::Cell::of_text(known(f, n));
            let whole = |n: int, max: nat|
                match known(f, n) {
                    Some(t) => json::Cell::of_integer(number::parse_unsigned(t, max)),
                    None => json::Cell::Null,
                };
            let double = |n: int|
                match known(f, n) {
                    Some(t) => json::Cell::of_double(number::double_of(t)),
                    None => json::Cell::of_double(None),
                };
            let request = alb::alb_request(f);
            let response = alb::alb_response(f, alb::times_of(f));
            let resources = alb::alb_resources(f);
            &&& request.contains(json::entry("trace_id"@, text(17)))
            &&& request.contains(json::entry("domain_name"@, text(18)))
            &&& request.contains(json::entry("request_creation_time"@, text(21)))
            &&& request.contains(json::entry("actions_executed"@, text(22)))
            &&& request.contains(json::entry("redirect_url"@, text(23)))
            &&& response.contains(json::entry("request_processing_time"@, double(5)))
            &&& response.contains(json::entry("target_processing_time"@, double(6)))
            &&& response.contains(json::entry("response_processing_time"@, double(7)))
            &&& response.contains(json::entry("elb_status_code"@, whole(8, 65535)))
            &&& response.contains(json::entry("target_status_code"@, whole(9, 65535)))
            &&& response.contains(json::entry("received_bytes"@, whole(10, u64::MAX as nat)))
            &&& response.contains(json::entry("sent_bytes"@, whole(11, u64::MAX as nat)))
            &&& response.contains(json::entry("error_reason"@, text(24)))
            &&& response.contains(json::entry("classification"@, text(27)))
            &&& response.contains(json::entry("classification_reason"@, text(28)))
            &&& resources.contains(json::entry("load_balancer"@, json::Cell::Text(f[2])))
            &&& resources.contains(json::entry("target"@, text(4)))
            &&& resources.contains(json::entry("ssl_cipher"@, text(14)))
            &&& resources.contains(json::entry("ssl_protocol"@, text(15)))
            &&& resources.contains(json::entry("target_group_arn"@, text(16)))
            &&& resources.contains(json::entry("chosen_cert_arn"@, text(19)))
        }),
{
    let request = alb::alb_request(f);
    let response = alb::alb_response(f, alb::times_of(f));
    let resources = alb::alb_resources(f);
    assert(request[3].key == "trace_id"@);
    assert(request[4].key == "domain_name"@);
    assert(request[5].key == "request_creation_time"@);
    assert(request[6].key == "actions_executed"@);
    assert(request[7].key == "redirect_url"@);
    assert(response[0].key == "request_processing_time"@);
    assert(response[1].key == "target_processing_time"@);
    assert(response[2].key == "response_processing_time"@);
    assert(response[3].key == "elb_status_code"@);
    assert(response[4].key == "target_status_code"@);
    assert(response[5].key == "received_bytes"@);
    assert(response[6].key == "sent_bytes"@);
    assert(response[7].key == "error_reason"@);
    assert(response[8].key == "classification"@);
    assert(response[9].key == "classification_reason"@);
    assert(resources[0].key == "load_balancer"@);
    assert(resources[1].key == "target"@);
    assert(resources[2].key == "target_group_arn"@);
    assert(resources[3].key == "ssl_cipher"@);
    assert(resources[4].key == "ssl_protocol"@);
    assert(resources[5].key == "chosen_cert_arn"@);
}

} // verus!
