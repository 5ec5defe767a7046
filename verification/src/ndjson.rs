//! Line-delimited JSON logs: WAF (wafv2), API Gateway access logs and nginx
//! access logs exported from Elasticsearch/filebeat. One record per line,
//! recognised by their keys and folded onto the normalized event columns.

use vstd::prelude::*;

use crate::detect;
use crate::detect::{LogType, SampleRecord};
use crate::json;
use crate::json::{
    integer_member, object, push_member, text_member, to_text, value_member, Json,
};
use crate::model;
use crate::model::NormalizedEvent;
use crate::number;
use crate::number::{decimal_text, unsigned_of};
use crate::split;
use crate::split::{concat, folded, split_char};
use crate::stamp;
use crate::stamp::{from_unix_nanos, parse_described, parse_rfc3339, rfc3339, Stamp};
use crate::text;
use crate::text::{as_str, owned, same};

verus! {

// ---------------------------------------------------------- small readers

/// The value with this key inside the member with that key.
pub open spec fn inner(value: Json, outer: Seq<char>, key: Seq<char>) -> Option<Json> {
    match value.member(outer) {
        Some(v) => v.member(key),
        None => None,
    }
}

pub open spec fn text_of(value: Option<Json>) -> Option<Seq<char>> {
    match value {
        Some(v) => v.as_text(),
        None => None,
    }
}

fn get_in<'a>(value: &'a Json, outer: &str, key: &str) -> (r: Option<&'a Json>)
    ensures
        json::opt_value(r) == inner(*value, outer@, key@),
{
    match value.get(outer) {
        Some(v) => v.get(key),
        None => None,
    }
}

fn str_of<'a>(value: Option<&'a Json>) -> (r: Option<&'a str>)
    ensures
        text::opt_str(r) == text_of(json::opt_value(value)),
{
    match value {
        Some(v) => v.as_str(),
        None => None,
    }
}

pub open spec fn has_key(value: Json, key: Seq<char>) -> bool {
    value.member(key) is Some
}

fn contains_key(value: &Json, key: &str) -> (b: bool)
    ensures
        b == has_key(*value, key@),
{
    value.get(key).is_some()
}

// --------------------------------------------------------- classification

/// An Elasticsearch document export holds the record under `_source`.
pub open spec fn record_of(value: Json) -> Json {
    match value.member("_source"@) {
        Some(Json::Object(pairs)) => Json::Object(pairs),
        _ => value,
    }
}

/// Which producer wrote this record, judged by keys no other format shares.
pub open spec fn producer(value: Json) -> Option<LogType> {
    if !(value is Object) {
        None
    } else if has_key(value, "webaclId"@) && has_key(value, "httpRequest"@) && has_key(
        value,
        "action"@,
    ) {
        Some(LogType::WafAcl)
    } else if has_key(value, "request_id"@) && has_key(value, "resource_path"@) && has_key(
        value,
        "http_method"@,
    ) {
        Some(LogType::ApigwAccess)
    } else if text_of(inner(record_of(value), "event"@, "dataset"@)) == Some("nginx.access"@)
        || has_key(record_of(value), "birdview"@) {
        Some(LogType::NginxAccess)
    } else {
        None
    }
}

/// Which producer wrote this record, judged by keys no other format shares.
pub fn classify(value: &Json) -> (r: Option<LogType>)
    ensures
        r == producer(*value),
{
    match value {
        Json::Object(_) => {},
        _ => return None,
    }
    if contains_key(value, "webaclId") && contains_key(value, "httpRequest") && contains_key(
        value,
        "action",
    ) {
        return Some(LogType::WafAcl);
    }
    if contains_key(value, "request_id") && contains_key(value, "resource_path") && contains_key(
        value,
        "http_method",
    ) {
        return Some(LogType::ApigwAccess);
    }
    let source: &Json = match value.get("_source") {
        Some(found) => match found {
            Json::Object(_) => found,
            _ => value,
        },
        None => value,
    };
    let named: bool = match str_of(get_in(source, "event", "dataset")) {
        Some(dataset) => same(dataset, "nginx.access"),
        None => false,
    };
    if named || contains_key(source, "birdview") {
        Some(LogType::NginxAccess)
    } else {
        None
    }
}

// ------------------------------------------------------------- the fields

/// The handful of values every producer has.
pub ghost struct FieldsModel {
    pub time: Option<Stamp>,
    /// WAF action or HTTP method.
    pub name: Option<Seq<char>>,
    pub method: Option<Seq<char>>,
    pub region: Option<Seq<char>>,
    pub account: Option<Seq<char>>,
    pub source_ip: Option<Seq<char>>,
    pub user_agent: Option<Seq<char>>,
    pub status: Option<nat>,
    pub error_code: Option<Seq<char>>,
}

/// The first of the listed headers from `i` on that has this name, ASCII case
/// aside, and a string for its value.
pub open spec fn header_from(headers: Seq<Json>, name: Seq<char>, i: int) -> Option<Seq<char>>
    decreases headers.len() - i,
{
    if i < 0 || i >= headers.len() {
        None
    } else {
        let named = match headers[i].text_at("name"@) {
            Some(n) => text::fold(n) == text::fold(name),
            None => false,
        };
        match headers[i].text_at("value"@) {
            Some(v) if named => Some(v),
            _ => header_from(headers, name, i + 1),
        }
    }
}

/// A header of a request.
pub open spec fn header_in(request: Option<Json>, name: Seq<char>) -> Option<Seq<char>> {
    match request {
        Some(r) => match r.member("headers"@) {
            Some(Json::Array(items)) => header_from(items@, name, 0),
            _ => None,
        },
        None => None,
    }
}

fn header<'a>(request: Option<&'a Json>, name: &str) -> (r: Option<&'a str>)
    ensures
        text::opt_str(r) == header_in(json::opt_value(request), name@),
{
    let inside: &'a Json = match request {
        Some(inside) => inside,
        None => return None,
    };
    let items: &'a Vec<Json> = match inside.get("headers") {
        Some(found) => match found {
            Json::Array(items) => items,
            _ => return None,
        },
        None => return None,
    };
    let wanted = folded(name);
    let mut i: usize = 0;
    while i < items.len()
        invariant
            i <= items@.len(),
            wanted@ == text::fold(name@),
            header_from(items@, name@, 0) == header_from(items@, name@, i as int),
            header_in(json::opt_value(request), name@) == header_from(items@, name@, 0),
        decreases items@.len() - i,
    {
        let item: &'a Json = &items[i];
        let named: bool = match item.get_str("name") {
            Some(found) => same(folded(found).as_str(), wanted.as_str()),
            None => false,
        };
        if named {
            match item.get_str("value") {
                Some(value) => {
                    return Some(value);
                },
                None => {},
            }
        }
        i += 1;
    }
    None
}

/// Producers disagree on whether a status is `"200"` or `200`.
pub open spec fn status_of(value: Option<Json>) -> Option<nat> {
    match value {
        Some(Json::Text(t)) => number::parse_unsigned(t@, 65535),
        Some(Json::Number(n)) => match n.unsigned {
            Some(u) => if u <= 65535 {
                Some(u as nat)
            } else {
                None
            },
            None => None,
        },
        _ => None,
    }
}

fn str_or_num(value: Option<&Json>) -> (r: Option<u64>)
    ensures
        json::opt_nat(r) == status_of(json::opt_value(value)),
        r matches Some(n) ==> n <= 65535,
{
    match value {
        Some(Json::Text(t)) => unsigned_of(t.as_str(), 65535),
        Some(Json::Number(n)) => match n.unsigned {
            Some(u) => {
                if u <= 65535 {
                    Some(u)
                } else {
                    None
                }
            },
            None => None,
        },
        _ => None,
    }
}

pub open spec fn http_error_text(status: Option<nat>) -> Option<Seq<char>> {
    match status {
        Some(s) if s >= 400 => Some("HTTP "@ + number::decimal(s)),
        _ => None,
    }
}

/// `HTTP 503` for a status that is an error.
pub fn http_error(status: Option<u64>) -> (r: Option<String>)
    ensures
        text::opt(r) == http_error_text(json::opt_nat(status)),
{
    match status {
        Some(s) => {
            if s >= 400 {
                Some(concat("HTTP ", decimal_text(s).as_str()))
            } else {
                None
            }
        },
        None => None,
    }
}

/// `31/Aug/2026:00:00:05 +0000`, the CLF timestamp API Gateway writes.
pub open spec fn clf_format() -> Seq<char> {
    "[day]/[month repr:short]/[year]:[hour]:[minute]:[second] [offset_hour sign:mandatory][offset_minute]"@
}

pub open spec fn clf_time(text: Option<Seq<char>>) -> Option<Stamp> {
    match text {
        Some(t) => stamp::described_time(t, clf_format()),
        None => None,
    }
}

fn parse_clf_time(text: Option<&str>) -> (r: Option<Stamp>)
    ensures
        r == clf_time(text::opt_str(text)),
{
    match text {
        Some(t) => parse_described(
            t,
            "[day]/[month repr:short]/[year]:[hour]:[minute]:[second] [offset_hour sign:mandatory][offset_minute]",
        ),
        None => None,
    }
}

/// The `n`th piece between colons.
pub open spec fn piece(text: Seq<char>, n: int) -> Option<Seq<char>> {
    let pieces = split::split(text, ':');
    if 0 <= n < pieces.len() {
        Some(pieces[n])
    } else {
        None
    }
}

/// The time of a millisecond count since the Unix epoch.
pub open spec fn millis_time(value: Option<Json>) -> Option<Stamp> {
    match value {
        Some(Json::Number(n)) => match n.signed {
            Some(ms) => if stamp::in_calendar(ms * 1_000_000) {
                Some(Stamp { local: (ms * 1_000_000) as i128, offset: 0 })
            } else {
                None
            },
            None => None,
        },
        _ => None,
    }
}

/// WAF: `arn:aws:wafv2:<region>:<account>:regional/webacl/...` names region and
/// account; only a block is an error from the caller's side.
pub open spec fn waf_fields(v: Json) -> FieldsModel {
    let request = v.member("httpRequest"@);
    let action = v.text_at("action"@);
    let acl = v.text_at("webaclId"@).unwrap_or(Seq::empty());
    FieldsModel {
        time: millis_time(v.member("timestamp"@)),
        name: action,
        method: text_of(inner(v, "httpRequest"@, "httpMethod"@)),
        region: piece(acl, 3),
        account: piece(acl, 4),
        source_ip: text_of(inner(v, "httpRequest"@, "clientIp"@)),
        user_agent: header_in(request, "user-agent"@),
        status: None,
        error_code: if action == Some("BLOCK"@) {
            v.text_at("terminatingRuleId"@)
        } else {
            None
        },
    }
}

pub open spec fn apigw_fields(v: Json) -> FieldsModel {
    let status = status_of(v.member("status"@));
    FieldsModel {
        time: clf_time(v.text_at("request_time"@)),
        name: v.text_at("http_method"@),
        method: v.text_at("http_method"@),
        region: None,
        account: None,
        source_ip: v.text_at("ip"@),
        user_agent: v.text_at("user_agent"@),
        status,
        error_code: http_error_text(status),
    }
}

/// The record of an nginx line: `_source` where there is one.
pub open spec fn nginx_source(v: Json) -> Json {
    match v.member("_source"@) {
        Some(source) => source,
        None => v,
    }
}

pub open spec fn rfc3339_of(text: Option<Seq<char>>) -> Option<Stamp> {
    match text {
        Some(t) => stamp::rfc3339_time(t),
        None => None,
    }
}

pub open spec fn nginx_fields(v: Json) -> FieldsModel {
    let source = nginx_source(v);
    let status = status_of(inner(source, "birdview"@, "status"@));
    let method = text_of(inner(source, "birdview"@, "request_method"@));
    FieldsModel {
        time: rfc3339_of(source.text_at("@timestamp"@)),
        name: method,
        method,
        region: None,
        account: None,
        source_ip: text_of(inner(source, "birdview"@, "client_ip"@)),
        user_agent: text_of(inner(source, "birdview"@, "http_user_agent"@)),
        status,
        error_code: http_error_text(status),
    }
}

/// The values a record of this type has.
pub open spec fn fields_of(log_type: LogType, v: Json) -> FieldsModel {
    match log_type {
        LogType::WafAcl => waf_fields(v),
        LogType::ApigwAccess => apigw_fields(v),
        LogType::NginxAccess => nginx_fields(v),
        _ => FieldsModel {
            time: None,
            name: None,
            method: None,
            region: None,
            account: None,
            source_ip: None,
            user_agent: None,
            status: None,
            error_code: None,
        },
    }
}

/// The handful of values every producer has, pulled out once for both the
/// summary and the normalized columns.
struct Fields {
    time: Option<Stamp>,
    name: Option<String>,
    method: Option<String>,
    region: Option<String>,
    account: Option<String>,
    source_ip: Option<String>,
    user_agent: Option<String>,
    status: Option<u64>,
    error_code: Option<String>,
}

impl View for Fields {
    type V = FieldsModel;

    closed spec fn view(&self) -> FieldsModel {
        FieldsModel {
            time: self.time,
            name: text::opt(self.name),
            method: text::opt(self.method),
            region: text::opt(self.region),
            account: text::opt(self.account),
            source_ip: text::opt(self.source_ip),
            user_agent: text::opt(self.user_agent),
            status: json::opt_nat(self.status),
            error_code: text::opt(self.error_code),
        }
    }
}

fn nth_piece(pieces: &Vec<String>, n: usize) -> (r: Option<String>)
    ensures
        text::opt(r) == (if n < pieces@.len() {
            Some(pieces@[n as int]@)
        } else {
            None
        }),
{
    if n < pieces.len() {
        Some(pieces[n].clone())
    } else {
        None
    }
}


impl Fields {
    fn extract(log_type: LogType, v: &Json) -> (f: Fields)
        ensures
            f@ == fields_of(log_type, *v),
    {
        match log_type {
            LogType::WafAcl => {
                let request = v.get("httpRequest");
                let action = v.get_str("action");
                let acl: &str = match v.get_str("webaclId") {
                    Some(acl) => acl,
                    None => "",
                };
                proof {
                    reveal_strlit("");
                    assert(""@ =~= Seq::empty());
                }
                let arn = split_char(acl, ':');
                let ghost pieces = text::texts(arn@);
                assert(forall|i: int| 0 <= i < arn@.len() ==> pieces[i] == (#[trigger] arn@[i])@);
                let time: Option<Stamp> = match v.get("timestamp") {
                    Some(Json::Number(n)) => match n.signed {
                        Some(ms) => from_unix_nanos(ms as i128 * 1_000_000),
                        None => None,
                    },
                    _ => None,
                };
                let blocked: bool = match action {
                    Some(action) => same(action, "BLOCK"),
                    None => false,
                };
                Fields {
                    time,
                    name: owned(action),
                    method: owned(str_of(get_in(v, "httpRequest", "httpMethod"))),
                    region: nth_piece(&arn, 3),
                    account: nth_piece(&arn, 4),
                    source_ip: owned(str_of(get_in(v, "httpRequest", "clientIp"))),
                    user_agent: owned(header(request, "user-agent")),
                    status: None,
                    error_code: if blocked {
                        owned(v.get_str("terminatingRuleId"))
                    } else {
                        None
                    },
                }
            },
            LogType::ApigwAccess => {
                let status = str_or_num(v.get("status"));
                Fields {
                    time: parse_clf_time(v.get_str("request_time")),
                    name: owned(v.get_str("http_method")),
                    method: owned(v.get_str("http_method")),
                    region: None,
                    account: None,
                    source_ip: owned(v.get_str("ip")),
                    user_agent: owned(v.get_str("user_agent")),
                    status,
                    error_code: http_error(status),
                }
            },
            LogType::NginxAccess => {
                let source: &Json = match v.get("_source") {
                    Some(source) => source,
                    None => v,
                };
                let status = str_or_num(get_in(source, "birdview", "status"));
                let method = str_of(get_in(source, "birdview", "request_method"));
                let time: Option<Stamp> = match source.get_str("@timestamp") {
                    Some(t) => parse_rfc3339(t),
                    None => None,
                };
                Fields {
                    time,
                    name: owned(method),
                    method: owned(method),
                    region: None,
                    account: None,
                    source_ip: owned(str_of(get_in(source, "birdview", "client_ip"))),
                    user_agent: owned(str_of(get_in(source, "birdview", "http_user_agent"))),
                    status,
                    error_code: http_error(status),
                }
            },
            _ => Fields {
                time: None,
                name: None,
                method: None,
                region: None,
                account: None,
                source_ip: None,
                user_agent: None,
                status: None,
                error_code: None,
            },
        }
    }
}

/// The service that the events of a log type come from.
pub open spec fn source_name(log_type: LogType) -> Seq<char> {
    match log_type {
        LogType::WafAcl => "wafv2.amazonaws.com"@,
        LogType::ApigwAccess => "apigateway.amazonaws.com"@,
        LogType::NginxAccess => "nginx"@,
        other => other.name(),
    }
}

/// The service that the events of a log type come from.
pub fn source_of(log_type: LogType) -> (r: &'static str)
    ensures
        r@ == source_name(log_type),
{
    match log_type {
        LogType::WafAcl => "wafv2.amazonaws.com",
        LogType::ApigwAccess => "apigateway.amazonaws.com",
        LogType::NginxAccess => "nginx",
        other => other.as_str(),
    }
}

/// The head-of-file summary of a record.
pub open spec fn sample_of(log_type: LogType, v: Json) -> detect::SampleModel {
    let f = fields_of(log_type, v);
    detect::SampleModel {
        raw: Some(json::json_text(v)),
        event_time: match f.time {
            Some(at) => Some(stamp::shown(at)),
            None => None,
        },
        event_source: Some(source_name(log_type)),
        event_name: f.name,
        aws_region: f.region,
        user_identity_type: None,
        user_identity_arn: None,
        source_ip_address: f.source_ip,
    }
}

/// The head-of-file summary shown before parsing.
pub fn sample(log_type: LogType, value: &Json) -> (r: SampleRecord)
    ensures
        r@ == sample_of(log_type, *value),
{
    let fields = Fields::extract(log_type, value);
    SampleRecord {
        raw: Some(to_text(value)),
        event_time: match fields.time {
            Some(at) => Some(rfc3339(at)),
            None => None,
        },
        event_source: Some(source_of(log_type).to_owned()),
        event_name: fields.name,
        aws_region: fields.region,
        user_identity_type: None,
        user_identity_arn: None,
        source_ip_address: fields.source_ip,
    }
}

// ------------------------------------------------------- the JSON columns

/// A member that is left out where there is no text.
pub open spec fn if_some(key: Seq<char>, value: Option<Seq<char>>) -> Seq<json::Entry> {
    match value {
        Some(t) => seq![json::entry(key, json::Cell::Text(t))],
        None => Seq::empty(),
    }
}

fn push_if_some(members: &mut Vec<(String, String)>, key: &str, value: Option<&str>)
    ensures
        json::member_models(final(members)@) == json::member_models(old(members)@)
            + json::entry_members(if_some(key@, text::opt_str(value))),
{
    let ghost before = json::member_models(members@);
    match value {
        Some(_) => {
            push_member(members, key, text_member(value));
            assert(json::member_models(members@) =~= before + json::entry_members(
                if_some(key@, text::opt_str(value)),
            ));
        },
        None => {
            assert(before + json::entry_members(if_some(key@, None)) =~= before);
        },
    }
}

/// The `request` column. The URL is host, path and query where the producer
/// gives them, so `request.url` reads the same across producers.
pub ghost struct RequestModel {
    pub method: Option<Seq<char>>,
    pub url: Option<Seq<char>>,
    pub protocol: Option<Seq<char>>,
    pub request_id: Option<Seq<char>>,
    pub country: Option<Seq<char>>,
    pub referer: Option<Seq<char>>,
    pub trace_id: Option<Seq<char>>,
}

pub open spec fn request_entries(r: RequestModel) -> Seq<json::Entry> {
    seq![
        json::entry("method"@, json::Cell::of_text(r.method)),
        json::entry("url"@, json::Cell::of_text(r.url)),
        json::entry("protocol"@, json::Cell::of_text(r.protocol)),
    ] + if_some("request_id"@, r.request_id) + if_some("country"@, r.country) + if_some(
        "referer"@,
        r.referer,
    ) + if_some("trace_id"@, r.trace_id)
}

struct Request<'a> {
    method: Option<&'a str>,
    url: Option<&'a str>,
    protocol: Option<&'a str>,
    request_id: Option<&'a str>,
    country: Option<&'a str>,
    referer: Option<&'a str>,
    trace_id: Option<&'a str>,
}

impl<'a> View for Request<'a> {
    type V = RequestModel;

    closed spec fn view(&self) -> RequestModel {
        RequestModel {
            method: text::opt_str(self.method),
            url: text::opt_str(self.url),
            protocol: text::opt_str(self.protocol),
            request_id: text::opt_str(self.request_id),
            country: text::opt_str(self.country),
            referer: text::opt_str(self.referer),
            trace_id: text::opt_str(self.trace_id),
        }
    }
}

fn request_text(r: &Request) -> (out: String)
    ensures
        out@ == json::entries_text(request_entries(r@)),
{
    let mut members: Vec<(String, String)> = Vec::new();
    push_member(&mut members, "method", text_member(r.method));
    push_member(&mut members, "url", text_member(r.url));
    push_member(&mut members, "protocol", text_member(r.protocol));
    assert(json::member_models(members@) =~= json::entry_members(seq![
        json::entry("method"@, json::Cell::of_text(r@.method)),
        json::entry("url"@, json::Cell::of_text(r@.url)),
        json::entry("protocol"@, json::Cell::of_text(r@.protocol)),
    ]));
    push_if_some(&mut members, "request_id", r.request_id);
    push_if_some(&mut members, "country", r.country);
    push_if_some(&mut members, "referer", r.referer);
    push_if_some(&mut members, "trace_id", r.trace_id);
    assert(json::member_models(members@) =~= json::entry_members(request_entries(r@)));
    object(&members)
}

/// What the three payload columns hold.
pub ghost struct Columns {
    pub request: Seq<json::Entry>,
    pub response: Seq<json::Entry>,
    pub resources: Seq<json::Entry>,
}

/// Path and query of a WAF request.
pub open spec fn waf_url(uri: Option<Seq<char>>, args: Option<Seq<char>>) -> Seq<char> {
    let path = uri.unwrap_or(Seq::empty());
    match args {
        Some(a) if a.len() > 0 => path + "?"@ + a,
        _ => path,
    }
}

pub open spec fn waf_columns(v: Json, f: FieldsModel) -> Option<Columns> {
    match v.member("httpRequest"@) {
        None => None,
        Some(r) => Some(
            Columns {
                request: request_entries(
                    RequestModel {
                        method: f.method,
                        url: Some(waf_url(r.text_at("uri"@), r.text_at("args"@))),
                        protocol: r.text_at("httpVersion"@),
                        request_id: r.text_at("requestId"@),
                        country: r.text_at("country"@),
                        referer: header_in(Some(r), "referer"@),
                        trace_id: header_in(Some(r), "x-amzn-trace-id"@),
                    },
                ),
                response: seq![
                    json::entry("action"@, json::Cell::of_value(v.member("action"@))),
                    json::entry("labels"@, json::Cell::of_value(v.member("labels"@))),
                    json::entry(
                        "match_details"@,
                        json::Cell::of_value(v.member("terminatingRuleMatchDetails"@)),
                    ),
                    json::entry(
                        "response_code_sent"@,
                        json::Cell::of_value(v.member("responseCodeSent"@)),
                    ),
                    json::entry(
                        "terminating_rule_id"@,
                        json::Cell::of_value(v.member("terminatingRuleId"@)),
                    ),
                    json::entry(
                        "terminating_rule_type"@,
                        json::Cell::of_value(v.member("terminatingRuleType"@)),
                    ),
                ],
                resources: seq![
                    json::entry("host"@, json::Cell::of_text(header_in(Some(r), "host"@))),
                    json::entry(
                        "http_source_id"@,
                        json::Cell::of_value(v.member("httpSourceId"@)),
                    ),
                    json::entry(
                        "http_source_name"@,
                        json::Cell::of_value(v.member("httpSourceName"@)),
                    ),
                    json::entry("web_acl_id"@, json::Cell::of_value(v.member("webaclId"@))),
                ],
            },
        ),
    }
}

/// An unsigned integer written as a string.
pub open spec fn integer_in(v: Json, key: Seq<char>, max: nat) -> Option<nat> {
    match v.text_at(key) {
        Some(t) => number::parse_unsigned(t, max),
        None => None,
    }
}

pub open spec fn apigw_columns(v: Json, f: FieldsModel) -> Option<Columns> {
    Some(
        Columns {
            request: request_entries(
                RequestModel {
                    method: f.method,
                    url: v.text_at("path"@),
                    protocol: v.text_at("protocol"@),
                    request_id: v.text_at("request_id"@),
                    country: None,
                    referer: None,
                    trace_id: None,
                },
            ),
            response: seq![
                json::entry(
                    "integration_latency"@,
                    json::Cell::of_integer(
                        integer_in(v, "integration_latency"@, u64::MAX as nat),
                    ),
                ),
                json::entry(
                    "integration_status"@,
                    json::Cell::of_integer(integer_in(v, "integration_status"@, 65535)),
                ),
                json::entry(
                    "response_length"@,
                    json::Cell::of_integer(integer_in(v, "response_length"@, u64::MAX as nat)),
                ),
                json::entry("status"@, json::Cell::of_integer(f.status)),
            ],
            resources: seq![
                json::entry("api_id"@, json::Cell::of_text(v.text_at("api_id"@))),
                json::entry("resource_path"@, json::Cell::of_text(v.text_at("resource_path"@))),
                json::entry("stage"@, json::Cell::of_text(v.text_at("stage"@))),
            ],
        },
    )
}

/// Host and path of an nginx request.
pub open spec fn nginx_url(host: Option<Seq<char>>, uri: Option<Seq<char>>) -> Option<Seq<char>> {
    match (host, uri) {
        (Some(h), Some(u)) => Some(h + u),
        (None, Some(u)) => Some(u),
        _ => None,
    }
}

pub open spec fn unless_dash(text: Option<Seq<char>>) -> Option<Seq<char>> {
    match text {
        Some(t) => if t == "-"@ {
            None
        } else {
            Some(t)
        },
        None => None,
    }
}

pub open spec fn nginx_columns(v: Json, f: FieldsModel) -> Option<Columns> {
    let source = nginx_source(v);
    match source.member("birdview"@) {
        None => None,
        Some(b) => Some(
            Columns {
                request: request_entries(
                    RequestModel {
                        method: f.method,
                        url: nginx_url(b.text_at("host"@), b.text_at("request_uri"@)),
                        protocol: b.text_at("server_protocol"@),
                        request_id: None,
                        country: None,
                        referer: unless_dash(b.text_at("http_referer"@)),
                        trace_id: text_of(inner(source, "trace"@, "id"@)),
                    },
                ),
                response: seq![
                    json::entry(
                        "body_bytes_sent"@,
                        json::Cell::of_value(b.member("body_bytes_sent"@)),
                    ),
                    json::entry("bytes_sent"@, json::Cell::of_value(b.member("bytes_sent"@))),
                    json::entry("request_time"@, json::Cell::of_value(b.member("request_time"@))),
                    json::entry("status"@, json::Cell::of_integer(f.status)),
                    json::entry(
                        "upstream_response_time"@,
                        json::Cell::of_value(b.member("upstream_response_time"@)),
                    ),
                ],
                resources: seq![
                    json::entry(
                        "environment"@,
                        json::Cell::of_value(inner(source, "service"@, "environment"@)),
                    ),
                    json::entry("host"@, json::Cell::of_text(b.text_at("host"@))),
                    json::entry("log_path"@, json::Cell::of_value(log_path(source))),
                    json::entry("remote_addr"@, json::Cell::of_text(b.text_at("remote_addr"@))),
                    json::entry(
                        "service"@,
                        json::Cell::of_value(inner(source, "service"@, "name"@)),
                    ),
                ],
            },
        ),
    }
}

pub open spec fn log_path(source: Json) -> Option<Json> {
    match inner(source, "log"@, "file"@) {
        Some(file) => file.member("path"@),
        None => None,
    }
}

/// The payload columns of a record; `None` marks a malformed one.
pub open spec fn columns_of(log_type: LogType, v: Json) -> Option<Columns> {
    let f = fields_of(log_type, v);
    match log_type {
        LogType::WafAcl => waf_columns(v, f),
        LogType::ApigwAccess => apigw_columns(v, f),
        LogType::NginxAccess => nginx_columns(v, f),
        _ => None,
    }
}

struct Payload {
    request: String,
    response: String,
    resources: String,
}

/// The texts of these columns.
spec fn spells(p: Option<Payload>, c: Option<Columns>) -> bool {
    match (p, c) {
        (Some(p), Some(c)) => p.request@ == json::entries_text(c.request) && p.response@
            == json::entries_text(c.response) && p.resources@ == json::entries_text(c.resources),
        (None, None) => true,
        _ => false,
    }
}

fn waf_json(v: &Json, f: &Fields) -> (r: Option<Payload>)
    ensures
        spells(r, waf_columns(*v, f@)),
{
    let req: &Json = match v.get("httpRequest") {
        Some(req) => req,
        None => return None,
    };
    let mut url: String = match req.get_str("uri") {
        Some(uri) => uri.to_owned(),
        None => String::new(),
    };
    match req.get_str("args") {
        Some(args) => {
            if !args.is_empty() {
                url.push_str("?");
                url.push_str(args);
            }
        },
        None => {},
    }
    assert(url@ == waf_url(req.text_at("uri"@), req.text_at("args"@)));
    let request = request_text(
        &Request {
            method: as_str(&f.method),
            url: Some(url.as_str()),
            protocol: req.get_str("httpVersion"),
            request_id: req.get_str("requestId"),
            country: req.get_str("country"),
            referer: header(Some(req), "referer"),
            trace_id: header(Some(req), "x-amzn-trace-id"),
        },
    );
    let mut members: Vec<(String, String)> = Vec::new();
    push_member(&mut members, "action", value_member(v.get("action")));
    push_member(&mut members, "labels", value_member(v.get("labels")));
    push_member(
        &mut members,
        "match_details",
        value_member(v.get("terminatingRuleMatchDetails")),
    );
    push_member(&mut members, "response_code_sent", value_member(v.get("responseCodeSent")));
    push_member(&mut members, "terminating_rule_id", value_member(v.get("terminatingRuleId")));
    push_member(&mut members, "terminating_rule_type", value_member(v.get("terminatingRuleType")));
    let response = object(&members);
    assert(response@ == json::entries_text(waf_columns(*v, f@)->Some_0.response)) by {
        assert(json::member_models(members@) =~= json::entry_members(seq![
            json::entry("action"@, json::Cell::of_value(v.member("action"@))),
            json::entry("labels"@, json::Cell::of_value(v.member("labels"@))),
            json::entry(
                "match_details"@,
                json::Cell::of_value(v.member("terminatingRuleMatchDetails"@)),
            ),
            json::entry("response_code_sent"@, json::Cell::of_value(v.member("responseCodeSent"@))),
            json::entry("terminating_rule_id"@, json::Cell::of_value(v.member("terminatingRuleId"@))),
            json::entry(
                "terminating_rule_type"@,
                json::Cell::of_value(v.member("terminatingRuleType"@)),
            ),
        ]));
    }
    let mut members: Vec<(String, String)> = Vec::new();
    push_member(&mut members, "host", text_member(header(Some(req), "host")));
    push_member(&mut members, "http_source_id", value_member(v.get("httpSourceId")));
    push_member(&mut members, "http_source_name", value_member(v.get("httpSourceName")));
    push_member(&mut members, "web_acl_id", value_member(v.get("webaclId")));
    let resources = object(&members);
    assert(resources@ == json::entries_text(waf_columns(*v, f@)->Some_0.resources)) by {
        assert(json::member_models(members@) =~= json::entry_members(seq![
            json::entry("host"@, json::Cell::of_text(header_in(Some(*req), "host"@))),
            json::entry("http_source_id"@, json::Cell::of_value(v.member("httpSourceId"@))),
            json::entry("http_source_name"@, json::Cell::of_value(v.member("httpSourceName"@))),
            json::entry("web_acl_id"@, json::Cell::of_value(v.member("webaclId"@))),
        ]));
    }
    Some(Payload { request, response, resources })
}

fn integer_at(v: &Json, key: &str, max: u64) -> (r: Option<u64>)
    ensures
        json::opt_nat(r) == integer_in(*v, key@, max as nat),
{
    match v.get_str(key) {
        Some(t) => unsigned_of(t, max),
        None => None,
    }
}

fn apigw_json(v: &Json, f: &Fields) -> (r: Option<Payload>)
    ensures
        spells(r, apigw_columns(*v, f@)),
{
    let request = request_text(
        &Request {
            method: as_str(&f.method),
            url: v.get_str("path"),
            protocol: v.get_str("protocol"),
            request_id: v.get_str("request_id"),
            country: None,
            referer: None,
            trace_id: None,
        },
    );
    let mut members: Vec<(String, String)> = Vec::new();
    push_member(
        &mut members,
        "integration_latency",
        integer_member(integer_at(v, "integration_latency", u64::MAX)),
    );
    push_member(
        &mut members,
        "integration_status",
        integer_member(integer_at(v, "integration_status", 65535)),
    );
    push_member(
        &mut members,
        "response_length",
        integer_member(integer_at(v, "response_length", u64::MAX)),
    );
    push_member(&mut members, "status", integer_member(f.status));
    let response = object(&members);
    assert(response@ == json::entries_text(apigw_columns(*v, f@)->Some_0.response)) by {
        assert(json::member_models(members@) =~= json::entry_members(seq![
            json::entry(
                "integration_latency"@,
                json::Cell::of_integer(integer_in(*v, "integration_latency"@, u64::MAX as nat)),
            ),
            json::entry(
                "integration_status"@,
                json::Cell::of_integer(integer_in(*v, "integration_status"@, 65535)),
            ),
            json::entry(
                "response_length"@,
                json::Cell::of_integer(integer_in(*v, "response_length"@, u64::MAX as nat)),
            ),
            json::entry("status"@, json::Cell::of_integer(f@.status)),
        ]));
    }
    let mut members: Vec<(String, String)> = Vec::new();
    push_member(&mut members, "api_id", text_member(v.get_str("api_id")));
    push_member(&mut members, "resource_path", text_member(v.get_str("resource_path")));
    push_member(&mut members, "stage", text_member(v.get_str("stage")));
    let resources = object(&members);
    assert(resources@ == json::entries_text(apigw_columns(*v, f@)->Some_0.resources)) by {
        assert(json::member_models(members@) =~= json::entry_members(seq![
            json::entry("api_id"@, json::Cell::of_text(v.text_at("api_id"@))),
            json::entry("resource_path"@, json::Cell::of_text(v.text_at("resource_path"@))),
            json::entry("stage"@, json::Cell::of_text(v.text_at("stage"@))),
        ]));
    }
    Some(Payload { request, response, resources })
}

fn nginx_json(v: &Json, f: &Fields) -> (r: Option<Payload>)
    ensures
        spells(r, nginx_columns(*v, f@)),
{
    let source: &Json = match v.get("_source") {
        Some(source) => source,
        None => v,
    };
    let bv: &Json = match source.get("birdview") {
        Some(bv) => bv,
        None => return None,
    };
    let url: Option<String> = match (bv.get_str("host"), bv.get_str("request_uri")) {
        (Some(host), Some(uri)) => Some(concat(host, uri)),
        (None, Some(uri)) => Some(uri.to_owned()),
        _ => None,
    };
    let referer: Option<&str> = match bv.get_str("http_referer") {
        Some(r) => {
            if same(r, "-") {
                None
            } else {
                Some(r)
            }
        },
        None => None,
    };
    let request = request_text(
        &Request {
            method: as_str(&f.method),
            url: as_str(&url),
            protocol: bv.get_str("server_protocol"),
            request_id: None,
            country: None,
            referer,
            trace_id: str_of(get_in(source, "trace", "id")),
        },
    );
    let mut members: Vec<(String, String)> = Vec::new();
    push_member(&mut members, "body_bytes_sent", value_member(bv.get("body_bytes_sent")));
    push_member(&mut members, "bytes_sent", value_member(bv.get("bytes_sent")));
    push_member(&mut members, "request_time", value_member(bv.get("request_time")));
    push_member(&mut members, "status", integer_member(f.status));
    push_member(
        &mut members,
        "upstream_response_time",
        value_member(bv.get("upstream_response_time")),
    );
    let response = object(&members);
    assert(response@ == json::entries_text(nginx_columns(*v, f@)->Some_0.response)) by {
        assert(json::member_models(members@) =~= json::entry_members(seq![
            json::entry("body_bytes_sent"@, json::Cell::of_value(bv.member("body_bytes_sent"@))),
            json::entry("bytes_sent"@, json::Cell::of_value(bv.member("bytes_sent"@))),
            json::entry("request_time"@, json::Cell::of_value(bv.member("request_time"@))),
            json::entry("status"@, json::Cell::of_integer(f@.status)),
            json::entry(
                "upstream_response_time"@,
                json::Cell::of_value(bv.member("upstream_response_time"@)),
            ),
        ]));
    }
    let path: Option<&Json> = match get_in(source, "log", "file") {
        Some(file) => file.get("path"),
        None => None,
    };
    let mut members: Vec<(String, String)> = Vec::new();
    push_member(
        &mut members,
        "environment",
        value_member(get_in(source, "service", "environment")),
    );
    push_member(&mut members, "host", text_member(bv.get_str("host")));
    push_member(&mut members, "log_path", value_member(path));
    push_member(&mut members, "remote_addr", text_member(bv.get_str("remote_addr")));
    push_member(&mut members, "service", value_member(get_in(source, "service", "name")));
    let resources = object(&members);
    assert(resources@ == json::entries_text(nginx_columns(*v, f@)->Some_0.resources)) by {
        assert(json::member_models(members@) =~= json::entry_members(seq![
            json::entry(
                "environment"@,
                json::Cell::of_value(inner(*source, "service"@, "environment"@)),
            ),
            json::entry("host"@, json::Cell::of_text(bv.text_at("host"@))),
            json::entry("log_path"@, json::Cell::of_value(log_path(*source))),
            json::entry("remote_addr"@, json::Cell::of_text(bv.text_at("remote_addr"@))),
            json::entry("service"@, json::Cell::of_value(inner(*source, "service"@, "name"@))),
        ]));
    }
    Some(Payload { request, response, resources })
}

// ----------------------------------------------------------- normalization

/// A request of this method changes nothing.
pub open spec fn is_reading(method: Seq<char>) -> bool {
    method == "GET"@ || method == "HEAD"@ || method == "OPTIONS"@
}

pub fn reading(method: &str) -> (b: bool)
    ensures
        b == is_reading(method@),
{
    same(method, "GET") || same(method, "HEAD") || same(method, "OPTIONS")
}

pub open spec fn reading_flag(method: Option<Seq<char>>) -> Option<bool> {
    match method {
        Some(m) => Some(is_reading(m)),
        None => None,
    }
}

/// The event a record becomes; `None` marks a malformed one.
pub open spec fn event_of(
    log_type: LogType,
    v: Json,
    line: Seq<char>,
    file_id: u32,
    record_index: u64,
    keep_raw: bool,
) -> Option<model::EventModel> {
    let f = fields_of(log_type, v);
    match columns_of(log_type, v) {
        None => None,
        Some(c) => Some(
            model::EventModel {
                file_id,
                record_index,
                event_time: f.time,
                event_source: Some(source_name(log_type)),
                event_name: f.name,
                aws_region: f.region,
                account_id: f.account,
                source_ip: f.source_ip,
                user_agent: f.user_agent,
                identity_type: None,
                identity_arn: None,
                identity_name: None,
                mfa_authenticated: None,
                error_code: f.error_code,
                error_message: None,
                read_only: reading_flag(f.method),
                management_event: Some(false),
                request: Some(json::entries_text(c.request)),
                response: Some(json::entries_text(c.response)),
                resources: Some(json::entries_text(c.resources)),
                raw: if keep_raw {
                    Some(line)
                } else {
                    None
                },
            },
        ),
    }
}

/// One parsed line into a normalized event. `None` marks a malformed record.
pub fn normalize_value(
    log_type: LogType,
    value: &Json,
    line: &str,
    file_id: u32,
    record_index: u64,
    keep_raw: bool,
) -> (r: Option<NormalizedEvent>)
    ensures
        model::opt_event(r) == event_of(
            log_type,
            *value,
            line@,
            file_id,
            record_index,
            keep_raw,
        ),
{
    let f = Fields::extract(log_type, value);
    let payload: Option<Payload> = match log_type {
        LogType::WafAcl => waf_json(value, &f),
        LogType::ApigwAccess => apigw_json(value, &f),
        LogType::NginxAccess => nginx_json(value, &f),
        _ => None,
    };
    let payload: Payload = match payload {
        Some(payload) => payload,
        None => return None,
    };
    let read_only: Option<bool> = match &f.method {
        Some(m) => Some(reading(m.as_str())),
        None => None,
    };
    Some(
        NormalizedEvent {
            file_id,
            record_index,
            event_time: f.time,
            event_source: Some(source_of(log_type).to_owned()),
            event_name: f.name,
            aws_region: f.region,
            account_id: f.account,
            source_ip: f.source_ip,
            user_agent: f.user_agent,
            identity_type: None,
            identity_arn: None,
            identity_name: None,
            mfa_authenticated: None,
            error_code: f.error_code,
            error_message: None,
            read_only,
            management_event: Some(false),
            request: Some(payload.request),
            response: Some(payload.response),
            resources: Some(payload.resources),
            raw: if keep_raw {
                Some(line.to_owned())
            } else {
                None
            },
        },
    )
}

/// The event a line becomes; `None` marks a malformed line.
pub open spec fn line_event(
    log_type: LogType,
    line: Seq<char>,
    file_id: u32,
    record_index: u64,
    keep_raw: bool,
) -> Option<model::EventModel> {
    match json::json_of(line) {
        Some(v) => event_of(log_type, v, line, file_id, record_index, keep_raw),
        None => None,
    }
}

/// One line into a normalized event. `Err` marks a malformed line the caller
/// counts and skips.
pub fn normalize(
    log_type: LogType,
    line: &str,
    file_id: u32,
    record_index: u64,
    keep_raw: bool,
) -> (r: Result<NormalizedEvent, ()>)
    ensures
        match r {
            Ok(event) => line_event(log_type, line@, file_id, record_index, keep_raw) == Some(
                event@,
            ),
            Err(_) => line_event(log_type, line@, file_id, record_index, keep_raw) is None,
        },
{
    match json::parse(line) {
        Some(value) => match normalize_value(
            log_type,
            &value,
            line,
            file_id,
            record_index,
            keep_raw,
        ) {
            Some(event) => Ok(event),
            None => Err(()),
        },
        None => Err(()),
    }
}

} // verus!
