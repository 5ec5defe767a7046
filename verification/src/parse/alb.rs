//! ALB access log lines: space separated fields, quoted where a field may
//! hold spaces, folded onto the normalized event columns.

use vstd::prelude::*;

use crate::json;
use crate::json::{integer_member, object, push_member, text_member};
use crate::model;
use crate::model::NormalizedEvent;
use crate::ndjson;
use crate::ndjson::{http_error, reading};
use crate::number;
use crate::number::{parse_double, unsigned_of, Double};
use crate::split;
use crate::split::{find_char, find_text, has_prefix, rfind_char, split_char};
use crate::stamp::{parse_rfc3339, Stamp};
use crate::stamp;
use crate::text;
use crate::text::{as_str, ascii_space, chars_of, owned, same, string_of};

verus! {

// --------------------------------------------------------------- the fields

/// The quote that closes a quoted field from position `i` on. A backslash
/// takes the meaning out of the character behind it.
pub open spec fn closing_quote(s: Seq<char>, i: int, escaped: bool) -> Option<int>
    decreases s.len() - i,
{
    if i < 0 || i >= s.len() {
        None
    } else if escaped {
        closing_quote(s, i + 1, false)
    } else if s[i] == '"' {
        Some(i)
    } else {
        closing_quote(s, i + 1, s[i] == '\\')
    }
}

/// The first position from `i` on that holds no blank.
pub open spec fn skip_blank(s: Seq<char>, i: int) -> int
    decreases s.len() - i,
{
    if 0 <= i < s.len() && text::is_ascii_space(s[i]) {
        skip_blank(s, i + 1)
    } else {
        i
    }
}

/// The first position from `i` on that holds a blank.
pub open spec fn field_end(s: Seq<char>, i: int) -> int
    decreases s.len() - i,
{
    if 0 <= i < s.len() && !text::is_ascii_space(s[i]) {
        field_end(s, i + 1)
    } else {
        i
    }
}

pub proof fn lemma_bounds(s: Seq<char>, i: int)
    requires
        0 <= i <= s.len(),
    ensures
        i <= skip_blank(s, i) <= s.len(),
        i <= field_end(s, i) <= s.len(),
        skip_blank(s, i) < s.len() ==> !text::is_ascii_space(s[skip_blank(s, i)]),
    decreases s.len() - i,
{
    if i < s.len() {
        lemma_bounds(s, i + 1);
    }
}

pub proof fn lemma_closing_quote(s: Seq<char>, i: int, escaped: bool)
    requires
        0 <= i <= s.len(),
    ensures
        closing_quote(s, i, escaped) matches Some(k) ==> i <= k < s.len(),
    decreases s.len() - i,
{
    if i < s.len() {
        lemma_closing_quote(s, i + 1, false);
        lemma_closing_quote(s, i + 1, s[i] == '\\');
    }
}

/// `head` in front of the fields that follow, if those are well formed.
pub open spec fn glue(head: Seq<Seq<char>>, rest: Option<Seq<Seq<char>>>) -> Option<
    Seq<Seq<char>>,
> {
    match rest {
        Some(fields) => Some(head + fields),
        None => None,
    }
}

/// The fields from position `i` on; `None` where a quote stays open or is
/// not followed by a blank.
pub open spec fn fields_from(s: Seq<char>, i: int) -> Option<Seq<Seq<char>>>
    decreases s.len() - i,
    when 0 <= i <= s.len()
    via fields_from_decreases
{
    let start = skip_blank(s, i);
    if start >= s.len() {
        Some(Seq::empty())
    } else if s[start] == '"' {
        match closing_quote(s, start + 1, false) {
            None => None,
            Some(end) => if end + 1 < s.len() && !text::is_ascii_space(s[end + 1]) {
                None
            } else {
                glue(seq![s.subrange(start + 1, end)], fields_from(s, end + 1))
            },
        }
    } else {
        let end = field_end(s, start);
        glue(seq![s.subrange(start, end)], fields_from(s, end))
    }
}

#[via_fn]
proof fn fields_from_decreases(s: Seq<char>, i: int) {
    lemma_bounds(s, i);
    let start = skip_blank(s, i);
    if start < s.len() {
        lemma_closing_quote(s, start + 1, false);
        lemma_bounds(s, start);
        lemma_bounds(s, start + 1);
    }
}

/// The fields of an ALB line.
pub open spec fn alb_fields(line: Seq<char>) -> Option<Seq<Seq<char>>> {
    fields_from(line, 0)
}

fn find_blank(s: &Vec<char>, from: usize, blank: bool) -> (r: usize)
    requires
        from <= s@.len(),
    ensures
        from <= r <= s@.len(),
        blank ==> r == field_end(s@, from as int),
        !blank ==> r == skip_blank(s@, from as int),
{
    let len: usize = s.len();
    let mut i: usize = from;
    while i < len && ascii_space(s[i]) != blank
        invariant
            from <= i <= len,
            len == s@.len(),
            blank ==> field_end(s@, from as int) == field_end(s@, i as int),
            !blank ==> skip_blank(s@, from as int) == skip_blank(s@, i as int),
        decreases len - i,
    {
        i = i + 1;
    }
    i
}

fn find_quote(s: &Vec<char>, from: usize) -> (r: Option<usize>)
    requires
        from <= s@.len(),
    ensures
        match r {
            Some(k) => closing_quote(s@, from as int, false) == Some(k as int) && from <= k
                < s@.len(),
            None => closing_quote(s@, from as int, false) is None,
        },
{
    let len: usize = s.len();
    let mut i: usize = from;
    let mut escaped = false;
    while i < len
        invariant
            from <= i <= len,
            len == s@.len(),
            closing_quote(s@, from as int, false) == closing_quote(s@, i as int, escaped),
        decreases len - i,
    {
        if escaped {
            escaped = false;
        } else if s[i] == '"' {
            return Some(i);
        } else {
            escaped = s[i] == '\\';
        }
        i = i + 1;
    }
    None
}

/// Splits a line into its fields; `Err` where a quote is left open or runs
/// into the next field.
pub fn tokenize_alb(line: &str) -> (r: Result<Vec<String>, ()>)
    ensures
        match r {
            Ok(fields) => alb_fields(line@) == Some(text::texts(fields@)),
            Err(_) => alb_fields(line@) is None,
        },
{
    let s = chars_of(line);
    let len: usize = s.len();
    let mut fields: Vec<String> = Vec::new();
    let mut cursor: usize = 0;
    proof {
        assert(text::texts(fields@) =~= Seq::empty());
        if let Some(rest) = fields_from(s@, 0) {
            assert(text::texts(fields@) + rest =~= rest);
        }
    }
    loop
        invariant
            s@ == line@,
            len == s@.len(),
            cursor <= len,
            alb_fields(line@) == glue(text::texts(fields@), fields_from(s@, cursor as int)),
        decreases len - cursor,
    {
        let ghost before = text::texts(fields@);
        let ghost from = cursor as int;
        proof {
            lemma_bounds(s@, from);
        }
        let start: usize = find_blank(&s, cursor, false);
        if start == len {
            assert(before + Seq::<Seq<char>>::empty() =~= before);
            return Ok(fields);
        }
        if s[start] == '"' {
            proof {
                lemma_closing_quote(s@, start + 1, false);
            }
            match find_quote(&s, start + 1) {
                None => {
                    return Err(());
                },
                Some(end) => {
                    if end + 1 < len && !ascii_space(s[end + 1]) {
                        return Err(());
                    }
                    fields.push(string_of(&s, start + 1, end));
                    cursor = end + 1;
                    assert(text::texts(fields@) =~= before.push(
                        s@.subrange(start + 1, end as int),
                    ));
                    assert(glue(before, fields_from(s@, from)) == glue(
                        text::texts(fields@),
                        fields_from(s@, cursor as int),
                    )) by {
                        if let Some(rest) = fields_from(s@, cursor as int) {
                            assert(before + (seq![s@.subrange(start + 1, end as int)] + rest)
                                =~= text::texts(fields@) + rest);
                        }
                    }
                },
            }
        } else {
            let end: usize = find_blank(&s, start, true);
            fields.push(string_of(&s, start, end));
            cursor = end;
            assert(text::texts(fields@) =~= before.push(s@.subrange(start as int, end as int)));
            assert(start < end) by {
                lemma_bounds(s@, start + 1);
            }
            assert(glue(before, fields_from(s@, from)) == glue(
                text::texts(fields@),
                fields_from(s@, cursor as int),
            )) by {
                if let Some(rest) = fields_from(s@, cursor as int) {
                    assert(before + (seq![s@.subrange(start as int, end as int)] + rest)
                        =~= text::texts(fields@) + rest);
                }
            }
        }
    }
}

/// Field number `n`, if the line has one.
pub open spec fn nth(fields: Seq<Seq<char>>, n: int) -> Option<Seq<char>> {
    if 0 <= n < fields.len() {
        Some(fields[n])
    } else {
        None
    }
}

/// Field number `n`; a lone `-` stands for no value.
pub open spec fn shown(fields: Seq<Seq<char>>, n: int) -> Option<Seq<char>> {
    ndjson::unless_dash(nth(fields, n))
}

pub open spec fn number_at(fields: Seq<Seq<char>>, n: int, max: nat) -> Option<nat> {
    match shown(fields, n) {
        Some(t) => number::parse_unsigned(t, max),
        None => None,
    }
}

pub open spec fn double_at(fields: Seq<Seq<char>>, n: int) -> Option<number::DoubleModel> {
    match shown(fields, n) {
        Some(t) => number::double_of(t),
        None => None,
    }
}

fn field(fields: &Vec<String>, n: usize) -> (r: Option<&str>)
    ensures
        text::opt_str(r) == shown(text::texts(fields@), n as int),
{
    if n < fields.len() {
        let value: &str = fields[n].as_str();
        assert(value@ == text::texts(fields@)[n as int]);
        if same(value, "-") {
            None
        } else {
            Some(value)
        }
    } else {
        None
    }
}

fn integer_field(fields: &Vec<String>, n: usize, max: u64) -> (r: Option<u64>)
    ensures
        json::opt_nat(r) == number_at(text::texts(fields@), n as int, max as nat),
{
    match field(fields, n) {
        Some(t) => unsigned_of(t, max),
        None => None,
    }
}

pub open spec fn opt_double(d: Option<Double>) -> Option<number::DoubleModel> {
    match d {
        Some(d) => Some(d@),
        None => None,
    }
}

fn double_field(fields: &Vec<String>, n: usize) -> (r: Option<Double>)
    ensures
        opt_double(r) == double_at(text::texts(fields@), n as int),
{
    match field(fields, n) {
        Some(t) => parse_double(t),
        None => None,
    }
}

/// A double in JSON; what is not finite has no JSON form.
fn double_member(d: &Option<Double>) -> (out: String)
    ensures
        out@ == json::Cell::of_double(opt_double(*d)).text(),
{
    match d {
        Some(d) => match &d.json {
            Some(t) => t.as_str().to_owned(),
            None => "null".to_owned(),
        },
        None => "null".to_owned(),
    }
}

/// The host of `host:port` or `[host]:port`.
pub open spec fn host_of(endpoint: Seq<char>) -> Option<Seq<char>> {
    let bracket = if endpoint.len() > 0 && endpoint[0] == '[' {
        split::find_text_from(endpoint, "]:"@, 1)
    } else {
        None
    };
    match bracket {
        Some(k) => Some(endpoint.subrange(1, k)),
        None => match split::rfind_before(endpoint, ':', endpoint.len() as int) {
            Some(k) => Some(endpoint.take(k)),
            None => None,
        },
    }
}

/// The host of an endpoint, without its port and brackets.
pub fn endpoint_host(endpoint: &str) -> (r: Option<String>)
    ensures
        text::opt(r) == host_of(endpoint@),
{
    let s = chars_of(endpoint);
    if s.len() > 0 && s[0] == '[' {
        let close = chars_of("]:");
        proof {
            split::lemma_find_text_from(s@, close@, 1);
        }
        match find_text(&s, &close, 1) {
            Some(k) => {
                return Some(string_of(&s, 1, k));
            },
            None => {},
        }
    }
    match rfind_char(&s, ':') {
        Some(k) => {
            assert(s@.subrange(0, k as int) =~= s@.take(k as int));
            Some(string_of(&s, 0, k))
        },
        None => None,
    }
}

/// Method, URL and protocol of a request line; what follows the second blank
/// is one piece.
pub open spec fn request_parts(request: Option<Seq<char>>) -> (
    Option<Seq<char>>,
    Option<Seq<char>>,
    Option<Seq<char>>,
) {
    match request {
        None => (None, None, None),
        Some(t) => match split::split_once(t, ' ') {
            None => (Some(t), None, None),
            Some((method, rest)) => match split::split_once(rest, ' ') {
                None => (Some(method), Some(rest), None),
                Some((url, protocol)) => (Some(method), Some(url), Some(protocol)),
            },
        },
    }
}

struct RequestLine {
    method: Option<String>,
    url: Option<String>,
    protocol: Option<String>,
}

fn cut_once(t: &str) -> (r: Option<(String, String)>)
    ensures
        match r {
            Some((a, b)) => split::split_once(t@, ' ') == Some((a@, b@)),
            None => split::split_once(t@, ' ') is None,
        },
{
    let s = chars_of(t);
    let len: usize = s.len();
    proof {
        split::lemma_find_from(s@, ' ', 0);
    }
    match find_char(&s, ' ', 0) {
        Some(k) => {
            assert(s@.subrange(0, k as int) =~= s@.take(k as int));
            assert(s@.subrange(k + 1, len as int) =~= s@.skip(k + 1));
            Some((string_of(&s, 0, k), string_of(&s, k + 1, len)))
        },
        None => None,
    }
}

fn request_line(request: Option<&str>) -> (r: RequestLine)
    ensures
        (text::opt(r.method), text::opt(r.url), text::opt(r.protocol)) == request_parts(
            text::opt_str(request),
        ),
{
    match request {
        None => RequestLine { method: None, url: None, protocol: None },
        Some(t) => match cut_once(t) {
            None => RequestLine { method: Some(t.to_owned()), url: None, protocol: None },
            Some((method, rest)) => match cut_once(rest.as_str()) {
                None => RequestLine { method: Some(method), url: Some(rest), protocol: None },
                Some((url, protocol)) => RequestLine {
                    method: Some(method),
                    url: Some(url),
                    protocol: Some(protocol),
                },
            },
        },
    }
}

// ---------------------------------------------------------------- the event

pub open spec fn is_protocol(t: Seq<char>) -> bool {
    t == "http"@ || t == "https"@ || t == "h2"@ || t == "grpcs"@ || t == "ws"@ || t == "wss"@
}

/// A protocol an ALB listens to.
pub fn protocol(t: &str) -> (b: bool)
    ensures
        b == is_protocol(t@),
{
    same(t, "http") || same(t, "https") || same(t, "h2") || same(t, "grpcs") || same(t, "ws")
        || same(t, "wss")
}

/// What the fields of a line must look like, apart from the time.
pub open spec fn is_alb(fields: Seq<Seq<char>>) -> bool {
    &&& fields.len() >= 17
    &&& is_protocol(fields[0])
    &&& split::starts_with(fields[2], "app/"@)
    &&& host_of(fields[3]) is Some
}

/// The three durations of a line, in seconds.
pub ghost struct TimesModel {
    pub request: Option<number::DoubleModel>,
    pub target: Option<number::DoubleModel>,
    pub response: Option<number::DoubleModel>,
}

/// The three durations of a line, in seconds.
pub struct Times {
    pub request: Option<Double>,
    pub target: Option<Double>,
    pub response: Option<Double>,
}

impl View for Times {
    type V = TimesModel;

    open spec fn view(&self) -> TimesModel {
        TimesModel {
            request: opt_double(self.request),
            target: opt_double(self.target),
            response: opt_double(self.response),
        }
    }
}

pub open spec fn times_of(fields: Seq<Seq<char>>) -> TimesModel {
    TimesModel {
        request: double_at(fields, 5),
        target: double_at(fields, 6),
        response: double_at(fields, 7),
    }
}

pub open spec fn alb_request(f: Seq<Seq<char>>) -> Seq<json::Entry> {
    let (method, url, protocol) = request_parts(shown(f, 12));
    seq![
        json::entry("method"@, json::Cell::of_text(method)),
        json::entry("url"@, json::Cell::of_text(url)),
        json::entry("protocol"@, json::Cell::of_text(protocol)),
        json::entry("trace_id"@, json::Cell::of_text(shown(f, 17))),
        json::entry("domain_name"@, json::Cell::of_text(shown(f, 18))),
        json::entry("request_creation_time"@, json::Cell::of_text(shown(f, 21))),
        json::entry("actions_executed"@, json::Cell::of_text(shown(f, 22))),
        json::entry("redirect_url"@, json::Cell::of_text(shown(f, 23))),
    ]
}

pub open spec fn alb_response(f: Seq<Seq<char>>, times: TimesModel) -> Seq<json::Entry> {
    seq![
        json::entry("request_processing_time"@, json::Cell::of_double(times.request)),
        json::entry("target_processing_time"@, json::Cell::of_double(times.target)),
        json::entry("response_processing_time"@, json::Cell::of_double(times.response)),
        json::entry("elb_status_code"@, json::Cell::of_integer(number_at(f, 8, 65535))),
        json::entry("target_status_code"@, json::Cell::of_integer(number_at(f, 9, 65535))),
        json::entry(
            "received_bytes"@,
            json::Cell::of_integer(number_at(f, 10, u64::MAX as nat)),
        ),
        json::entry("sent_bytes"@, json::Cell::of_integer(number_at(f, 11, u64::MAX as nat))),
        json::entry("error_reason"@, json::Cell::of_text(shown(f, 24))),
        json::entry("classification"@, json::Cell::of_text(shown(f, 27))),
        json::entry("classification_reason"@, json::Cell::of_text(shown(f, 28))),
    ]
}

pub open spec fn alb_resources(f: Seq<Seq<char>>) -> Seq<json::Entry> {
    seq![
        json::entry("load_balancer"@, json::Cell::Text(f[2])),
        json::entry("target"@, json::Cell::of_text(shown(f, 4))),
        json::entry("target_group_arn"@, json::Cell::of_text(shown(f, 16))),
        json::entry("ssl_cipher"@, json::Cell::of_text(shown(f, 14))),
        json::entry("ssl_protocol"@, json::Cell::of_text(shown(f, 15))),
        json::entry("chosen_cert_arn"@, json::Cell::of_text(shown(f, 19))),
    ]
}

/// The kept original of a line.
pub open spec fn alb_raw(line: Seq<char>) -> Seq<json::Entry> {
    seq![
        json::entry("log_type"@, json::Cell::Text("alb_access"@)),
        json::entry("line"@, json::Cell::Text(line)),
    ]
}

/// Piece `n` of an ARN.
pub open spec fn arn_piece(arn: Option<Seq<char>>, n: int) -> Option<Seq<char>> {
    match arn {
        Some(t) => nth(split::split(t, ':'), n),
        None => None,
    }
}

/// The event that a line with these fields becomes, its time and durations
/// read already; `None` marks a malformed line.
pub open spec fn record_event(
    line: Seq<char>,
    f: Seq<Seq<char>>,
    event_time: Stamp,
    times: TimesModel,
    file_id: u32,
    record_index: u64,
    keep_raw: bool,
) -> Option<model::EventModel> {
    if !is_alb(f) {
        None
    } else {
        let method = request_parts(shown(f, 12)).0;
        Some(
            model::EventModel {
                file_id,
                record_index,
                event_time: Some(event_time),
                event_source: Some("elasticloadbalancing.amazonaws.com"@),
                event_name: method,
                aws_region: arn_piece(shown(f, 16), 3),
                account_id: arn_piece(shown(f, 16), 4),
                source_ip: host_of(f[3]),
                user_agent: shown(f, 13),
                identity_type: None,
                identity_arn: None,
                identity_name: None,
                mfa_authenticated: None,
                error_code: ndjson::http_error_text(number_at(f, 8, 65535)),
                error_message: if shown(f, 24) is Some {
                    shown(f, 24)
                } else {
                    shown(f, 28)
                },
                read_only: ndjson::reading_flag(method),
                management_event: Some(false),
                request: Some(json::entries_text(alb_request(f))),
                response: Some(json::entries_text(alb_response(f, times))),
                resources: Some(json::entries_text(alb_resources(f))),
                raw: if keep_raw {
                    Some(json::entries_text(alb_raw(line)))
                } else {
                    None
                },
            },
        )
    }
}

fn request_json(f: &Vec<String>, r: &RequestLine) -> (out: String)
    requires
        (text::opt(r.method), text::opt(r.url), text::opt(r.protocol)) == request_parts(
            shown(text::texts(f@), 12),
        ),
    ensures
        out@ == json::entries_text(alb_request(text::texts(f@))),
{
    let mut members: Vec<(String, String)> = Vec::new();
    push_member(&mut members, "method", text_member(as_str(&r.method)));
    push_member(&mut members, "url", text_member(as_str(&r.url)));
    push_member(&mut members, "protocol", text_member(as_str(&r.protocol)));
    push_member(&mut members, "trace_id", text_member(field(f, 17)));
    push_member(&mut members, "domain_name", text_member(field(f, 18)));
    push_member(&mut members, "request_creation_time", text_member(field(f, 21)));
    push_member(&mut members, "actions_executed", text_member(field(f, 22)));
    push_member(&mut members, "redirect_url", text_member(field(f, 23)));
    assert(json::member_models(members@) =~= json::entry_members(alb_request(text::texts(f@))));
    object(&members)
}

fn response_json(f: &Vec<String>, times: &Times) -> (out: String)
    ensures
        out@ == json::entries_text(alb_response(text::texts(f@), times@)),
{
    let mut members: Vec<(String, String)> = Vec::new();
    push_member(&mut members, "request_processing_time", double_member(&times.request));
    push_member(&mut members, "target_processing_time", double_member(&times.target));
    push_member(&mut members, "response_processing_time", double_member(&times.response));
    push_member(&mut members, "elb_status_code", integer_member(integer_field(f, 8, 65535)));
    push_member(&mut members, "target_status_code", integer_member(integer_field(f, 9, 65535)));
    push_member(&mut members, "received_bytes", integer_member(integer_field(f, 10, u64::MAX)));
    push_member(&mut members, "sent_bytes", integer_member(integer_field(f, 11, u64::MAX)));
    push_member(&mut members, "error_reason", text_member(field(f, 24)));
    push_member(&mut members, "classification", text_member(field(f, 27)));
    push_member(&mut members, "classification_reason", text_member(field(f, 28)));
    assert(json::member_models(members@) =~= json::entry_members(alb_response(text::texts(f@), times@)));
    object(&members)
}

fn resources_json(f: &Vec<String>) -> (out: String)
    requires
        f@.len() > 2,
    ensures
        out@ == json::entries_text(alb_resources(text::texts(f@))),
{
    let mut members: Vec<(String, String)> = Vec::new();
    push_member(&mut members, "load_balancer", text_member(Some(f[2].as_str())));
    push_member(&mut members, "target", text_member(field(f, 4)));
    push_member(&mut members, "target_group_arn", text_member(field(f, 16)));
    push_member(&mut members, "ssl_cipher", text_member(field(f, 14)));
    push_member(&mut members, "ssl_protocol", text_member(field(f, 15)));
    push_member(&mut members, "chosen_cert_arn", text_member(field(f, 19)));
    assert(json::member_models(members@) =~= json::entry_members(alb_resources(text::texts(f@))));
    object(&members)
}

fn raw_json(line: &str) -> (out: String)
    ensures
        out@ == json::entries_text(alb_raw(line@)),
{
    let mut members: Vec<(String, String)> = Vec::new();
    push_member(&mut members, "log_type", text_member(Some("alb_access")));
    push_member(&mut members, "line", text_member(Some(line)));
    assert(json::member_models(members@) =~= json::entry_members(alb_raw(line@)));
    object(&members)
}

fn arn_part(arn: Option<&str>, n: usize) -> (r: Option<String>)
    ensures
        text::opt(r) == arn_piece(text::opt_str(arn), n as int),
{
    match arn {
        Some(t) => {
            let pieces = split_char(t, ':');
            assert(text::texts(pieces@).len() == pieces@.len());
            if n < pieces.len() {
                assert(text::texts(pieces@)[n as int] == pieces@[n as int]@);
                Some(pieces[n].as_str().to_owned())
            } else {
                None
            }
        },
        None => None,
    }
}

/// The event of a line whose time and durations were read already. `None`
/// marks a malformed line.
pub fn alb_event(
    line: &str,
    fields: &Vec<String>,
    event_time: Stamp,
    times: &Times,
    file_id: u32,
    record_index: u64,
    keep_raw: bool,
) -> (r: Option<NormalizedEvent>)
    ensures
        model::opt_event(r) == record_event(
            line@,
            text::texts(fields@),
            event_time,
            times@,
            file_id,
            record_index,
            keep_raw,
        ),
{
    if fields.len() < 17 {
        return None;
    }
    let ghost f = text::texts(fields@);
    assert(f[0] == fields@[0]@ && f[2] == fields@[2]@ && f[3] == fields@[3]@);
    if !protocol(fields[0].as_str()) || !has_prefix(fields[2].as_str(), "app/") {
        return None;
    }
    let source_ip: Option<String> = endpoint_host(fields[3].as_str());
    if source_ip.is_none() {
        return None;
    }
    let request = request_line(field(fields, 12));
    let read_only: Option<bool> = match &request.method {
        Some(m) => Some(reading(m.as_str())),
        None => None,
    };
    let error_message: Option<&str> = match field(fields, 24) {
        Some(t) => Some(t),
        None => field(fields, 28),
    };
    let request_json = request_json(fields, &request);
    Some(
        NormalizedEvent {
            file_id,
            record_index,
            event_time: Some(event_time),
            event_source: Some("elasticloadbalancing.amazonaws.com".to_owned()),
            event_name: request.method,
            aws_region: arn_part(field(fields, 16), 3),
            account_id: arn_part(field(fields, 16), 4),
            source_ip,
            user_agent: owned(field(fields, 13)),
            identity_type: None,
            identity_arn: None,
            identity_name: None,
            mfa_authenticated: None,
            error_code: http_error(integer_field(fields, 8, 65535)),
            error_message: owned(error_message),
            read_only,
            management_event: Some(false),
            request: Some(request_json),
            response: Some(response_json(fields, times)),
            resources: Some(resources_json(fields)),
            raw: if keep_raw {
                Some(raw_json(line))
            } else {
                None
            },
        },
    )
}

/// The event a line becomes; `None` marks a malformed line.
pub open spec fn line_event(
    line: Seq<char>,
    file_id: u32,
    record_index: u64,
    keep_raw: bool,
) -> Option<model::EventModel> {
    match alb_fields(line) {
        None => None,
        Some(f) => match nth(f, 1) {
            None => None,
            Some(t) => match stamp::rfc3339_time(t) {
                None => None,
                Some(at) => record_event(
                    line,
                    f,
                    at,
                    times_of(f),
                    file_id,
                    record_index,
                    keep_raw,
                ),
            },
        },
    }
}

/// One line into a normalized event. `Err` marks a malformed line the caller
/// counts and skips.
pub fn normalize_alb(line: &str, file_id: u32, record_index: u64, keep_raw: bool) -> (r: Result<
    NormalizedEvent,
    (),
>)
    ensures
        match r {
            Ok(event) => line_event(line@, file_id, record_index, keep_raw) == Some(event@),
            Err(_) => line_event(line@, file_id, record_index, keep_raw) is None,
        },
{
    let fields: Vec<String> = match tokenize_alb(line) {
        Ok(fields) => fields,
        Err(_) => return Err(()),
    };
    if fields.len() < 17 {
        return Err(());
    }
    assert(text::texts(fields@)[1] == fields@[1]@);
    let at: Stamp = match parse_rfc3339(fields[1].as_str()) {
        Some(at) => at,
        None => return Err(()),
    };
    let times = Times {
        request: double_field(&fields, 5),
        target: double_field(&fields, 6),
        response: double_field(&fields, 7),
    };
    match alb_event(line, &fields, at, &times, file_id, record_index, keep_raw) {
        Some(event) => Ok(event),
        None => Err(()),
    }
}

} // verus!
