//! JSON lines of WAF, API Gateway and nginx: who wrote a line, and which of
//! its values an event keeps where.

use vstd::prelude::*;

use crate::detect::LogType;
use crate::json;
use crate::json::Json;
use crate::model;
use crate::ndjson;
use crate::number;
use crate::stamp;
use crate::text;

verus! {

// ----------------------------------------------------------------- kinds

pub open spec fn keyed(v: Json, key: Seq<char>) -> bool {
    v.member(key) is Some
}

/// The keys that tell the three producers apart. A `_source` object stands
/// for the line when nginx is looked for.
pub proof fn lines_are_told_apart_by_their_keys(v: Json, source: Json)
    ensures
        v !is Object ==> ndjson::producer(v) is None,
        v is Object && keyed(v, "webaclId"@) && keyed(v, "httpRequest"@) && keyed(v, "action"@)
            ==> ndjson::producer(v) == Some(LogType::WafAcl),
        v is Object && !keyed(v, "webaclId"@) && keyed(v, "request_id"@) && keyed(v, "resource_path"@)
            && keyed(v, "http_method"@) ==> ndjson::producer(v) == Some(LogType::ApigwAccess),
        v is Object && !keyed(v, "webaclId"@) && !keyed(v, "request_id"@) && v.member("_source"@)
            is None ==> (ndjson::producer(v) == if keyed(v, "birdview"@) || (v.member("event"@)
            matches Some(e) && e.text_at("dataset"@) == Some("nginx.access"@)) {
            Some(LogType::NginxAccess)
        } else {
            None
        }),
        v is Object && !keyed(v, "webaclId"@) && !keyed(v, "request_id"@) && v.member("_source"@)
            == Some(source) && source is Object ==> (ndjson::producer(v) == if keyed(
            source,
            "birdview"@,
        ) || (source.member("event"@) matches Some(e) && e.text_at("dataset"@) == Some(
            "nginx.access"@,
        )) {
            Some(LogType::NginxAccess)
        } else {
            None
        }),
        ndjson::producer(v) == Some(LogType::WafAcl) ==> keyed(v, "webaclId"@) && keyed(
            v,
            "httpRequest"@,
        ) && keyed(v, "action"@),
        ndjson::producer(v) == Some(LogType::ApigwAccess) ==> keyed(v, "request_id"@) && keyed(
            v,
            "resource_path"@,
        ) && keyed(v, "http_method"@),
        ndjson::producer(v) matches Some(t) ==> t == LogType::WafAcl || t == LogType::ApigwAccess
            || t == LogType::NginxAccess,
{
}

// ------------------------------------------------------------ all of them

/// What the events of every producer have in common: where they come from,
/// that they are no management events, that they name no identity, and that
/// a request that only reads is told by its method.
pub proof fn every_line_event_says_where_it_is_from(
    log_type: LogType,
    v: Json,
    line: Seq<char>,
    file_id: u32,
    record_index: u64,
    keep_raw: bool,
)
    ensures
        ndjson::event_of(log_type, v, line, file_id, record_index, keep_raw) matches Some(e) ==> {
            &&& log_type == LogType::WafAcl ==> e.event_source == Some("wafv2.amazonaws.com"@)
            &&& log_type == LogType::ApigwAccess ==> e.event_source == Some(
                "apigateway.amazonaws.com"@,
            )
            &&& log_type == LogType::NginxAccess ==> e.event_source == Some("nginx"@)
            &&& e.management_event == Some(false)
            &&& e.identity_type is None && e.identity_arn is None && e.identity_name is None
            &&& e.mfa_authenticated is None && e.error_message is None
            &&& e.raw == if keep_raw {
                Some(line)
            } else {
                None
            }
            &&& e.file_id == file_id && e.record_index == record_index
        },
{
}

/// The summary shown before parsing says what the event will.
pub proof fn samples_say_what_events_will(
    log_type: LogType,
    v: Json,
    line: Seq<char>,
    file_id: u32,
    record_index: u64,
    keep_raw: bool,
)
    ensures
        ndjson::event_of(log_type, v, line, file_id, record_index, keep_raw) matches Some(e) ==> {
            let s = ndjson::sample_of(log_type, v);
            &&& s.source_ip_address == e.source_ip
            &&& s.event_name == e.event_name
            &&& s.event_source == e.event_source
            &&& s.aws_region == e.aws_region
            &&& s.event_time is Some <==> e.event_time is Some
            &&& e.event_time matches Some(at) ==> s.event_time == Some(stamp::shown(at))
            &&& s.user_identity_type == e.identity_type
            &&& s.user_identity_arn == e.identity_arn
            &&& s.raw == Some(json::json_text(v))
        },
{
}

/// A status of 400 or more is the event's error; a smaller one is none.
pub proof fn http_errors_start_at_four_hundred(status: nat)
    ensures
        status < 400 ==> ndjson::http_error_text(Some(status)) is None,
        status >= 400 ==> ndjson::http_error_text(Some(status)) == Some(
            "HTTP "@ + number::decimal(status),
        ),
        ndjson::http_error_text(None) is None,
{
}

/// A status is a number, or a string that reads as one, of sixteen bits.
pub proof fn statuses_come_as_numbers_and_texts(v: Json)
    ensures
        ndjson::status_of(None) is None,
        v matches Json::Number(n) ==> ndjson::status_of(Some(v)) == match n.unsigned {
            Some(u) if u < 65536 => Some(u as nat),
            _ => None,
        },
        v matches Json::Text(t) ==> ndjson::status_of(Some(v)) == number::parse_unsigned(
            t@,
            65535,
        ),
        !(v is Number) && !(v is Text) ==> ndjson::status_of(Some(v)) is None,
{
}

/// `GET`, `HEAD` and `OPTIONS` only read.
pub proof fn three_methods_only_read(m: Seq<char>)
    ensures
        ndjson::reading_flag(Some(m)) == Some(m == "GET"@ || m == "HEAD"@ || m == "OPTIONS"@),
        ndjson::reading_flag(None) is None,
{
}

// ------------------------------------------------------------ API Gateway

/// Each value of an API Gateway line that an event keeps, by its key.
pub proof fn gateway_lines_feed_columns_by_key(
    v: Json,
    line: Seq<char>,
    file_id: u32,
    record_index: u64,
    keep_raw: bool,
)
    ensures
        ndjson::event_of(LogType::ApigwAccess, v, line, file_id, record_index, keep_raw) matches Some(
            e,
        ) && ndjson::columns_of(LogType::ApigwAccess, v) matches Some(c) && {
            &&& e.source_ip == v.text_at("ip"@)
            &&& e.user_agent == v.text_at("user_agent"@)
            &&& e.event_name == v.text_at("http_method"@)
            &&& e.event_time == match v.text_at("request_time"@) {
                Some(t) => stamp::described_time(
                    t,
                    "[day]/[month repr:short]/[year]:[hour]:[minute]:[second] [offset_hour sign:mandatory][offset_minute]"@,
                ),
                None => None,
            }
            &&& e.read_only == match v.text_at("http_method"@) {
                Some(m) => Some(m == "GET"@ || m == "HEAD"@ || m == "OPTIONS"@),
                None => None,
            }
            &&& e.error_code == ndjson::http_error_text(ndjson::status_of(v.member("status"@)))
            &&& e.aws_region is None && e.account_id is None
            &&& e.request == Some(json::entries_text(c.request))
            &&& e.response == Some(json::entries_text(c.response))
            &&& e.resources == Some(json::entries_text(c.resources))
        },
{
}

/// The payload columns of an API Gateway line, key by key.
pub proof fn gateway_lines_fill_payload_by_key(v: Json)
    ensures
        ndjson::columns_of(LogType::ApigwAccess, v) matches Some(c) && {
            let whole = |key: Seq<char>, max: nat|
                match v.text_at(key) {
                    Some(t) => json::Cell::of_integer(number::parse_unsigned(t, max)),
                    None => json::Cell::Null,
                };
            &&& c.request.contains(
                json::entry("method"@, json::Cell::of_text(v.text_at("http_method"@))),
            )
            &&& c.request.contains(json::entry("url"@, json::Cell::of_text(v.text_at("path"@))))
            &&& c.request.contains(
                json::entry("protocol"@, json::Cell::of_text(v.text_at("protocol"@))),
            )
            &&& v.text_at("request_id"@) matches Some(t) ==> c.request.contains(
                json::entry("request_id"@, json::Cell::Text(t)),
            )
            &&& c.response.contains(
                json::entry(
                    "status"@,
                    json::Cell::of_integer(ndjson::status_of(v.member("status"@))),
                ),
            )
            &&& c.response.contains(
                json::entry("response_length"@, whole("response_length"@, u64::MAX as nat)),
            )
            &&& c.response.contains(
                json::entry("integration_status"@, whole("integration_status"@, 65535)),
            )
            &&& c.response.contains(
                json::entry("integration_latency"@, whole("integration_latency"@, u64::MAX as nat)),
            )
            &&& c.resources.contains(
                json::entry("api_id"@, json::Cell::of_text(v.text_at("api_id"@))),
            )
            &&& c.resources.contains(
                json::entry("stage"@, json::Cell::of_text(v.text_at("stage"@))),
            )
            &&& c.resources.contains(
                json::entry("resource_path"@, json::Cell::of_text(v.text_at("resource_path"@))),
            )
        },
{
    let c = ndjson::columns_of(LogType::ApigwAccess, v)->Some_0;
    assert(c.request[0] == json::entry("method"@, json::Cell::of_text(v.text_at("http_method"@))));
    assert(c.request[1] == json::entry("url"@, json::Cell::of_text(v.text_at("path"@))));
    assert(c.request[2] == json::entry("protocol"@, json::Cell::of_text(v.text_at("protocol"@))));
    if v.text_at("request_id"@) is Some {
        assert(c.request[3] == json::entry(
            "request_id"@,
            json::Cell::Text(v.text_at("request_id"@)->Some_0),
        ));
    }
    assert(c.response[0].key == "integration_latency"@);
    assert(c.response[1].key == "integration_status"@);
    assert(c.response[2].key == "response_length"@);
    assert(c.response[3].key == "status"@);
    assert(c.resources[0].key == "api_id"@);
    assert(c.resources[1].key == "resource_path"@);
    assert(c.resources[2].key == "stage"@);
}

/// Two lines that differ in the address only become events that differ in
/// `source_ip` only, and that is the address.
pub proof fn the_address_feeds_source_ip_alone(
    v: Json,
    w: Json,
    ip: Seq<char>,
    line: Seq<char>,
    file_id: u32,
    record_index: u64,
    keep_raw: bool,
)
    requires
        w.text_at("ip"@) == Some(ip),
        forall|key: Seq<char>| key != "ip"@ ==> #[trigger] w.member(key) == v.member(key),
    ensures
        ({
            let before = ndjson::event_of(
                LogType::ApigwAccess,
                v,
                line,
                file_id,
                record_index,
                keep_raw,
            );
            let after = ndjson::event_of(
                LogType::ApigwAccess,
                w,
                line,
                file_id,
                record_index,
                keep_raw,
            );
            before is Some && after == Some(
                model::EventModel { source_ip: Some(ip), ..before->Some_0 },
            )
        }),
{
    reveal_strlit("ip");
    assert("ip"@.len() == 2);
    lemma_gateway_keys();
    let c = ndjson::columns_of(LogType::ApigwAccess, v)->Some_0;
    let d = ndjson::columns_of(LogType::ApigwAccess, w)->Some_0;
    assert(c.request =~= d.request);
    assert(c.response =~= d.response);
    assert(c.resources =~= d.resources);
}

proof fn lemma_gateway_keys()
    ensures
        "ip"@ != "user_agent"@ && "ip"@ != "http_method"@ && "ip"@ != "request_time"@,
        "ip"@ != "status"@ && "ip"@ != "path"@ && "ip"@ != "protocol"@ && "ip"@ != "request_id"@,
        "ip"@ != "integration_latency"@ && "ip"@ != "integration_status"@,
        "ip"@ != "response_length"@ && "ip"@ != "api_id"@ && "ip"@ != "resource_path"@,
        "ip"@ != "stage"@,
{
    reveal_strlit("ip");
    assert("ip"@.len() == 2);
    reveal_strlit("user_agent");
    assert("user_agent"@.len() == 10);
    reveal_strlit("http_method");
    assert("http_method"@.len() == 11);
    reveal_strlit("request_time");
    assert("request_time"@.len() == 12);
    reveal_strlit("status");
    assert("status"@.len() == 6);
    reveal_strlit("path");
    assert("path"@.len() == 4);
    reveal_strlit("protocol");
    assert("protocol"@.len() == 8);
    reveal_strlit("request_id");
    assert("request_id"@.len() == 10);
    reveal_strlit("integration_latency");
    assert("integration_latency"@.len() == 19);
    reveal_strlit("integration_status");
    assert("integration_status"@.len() == 18);
    reveal_strlit("response_length");
    assert("response_length"@.len() == 15);
    reveal_strlit("api_id");
    assert("api_id"@.len() == 6);
    reveal_strlit("resource_path");
    assert("resource_path"@.len() == 13);
    reveal_strlit("stage");
    assert("stage"@.len() == 5);
}

// -------------------------------------------------------------------- WAF

/// The text of a member of a member.
pub open spec fn text_in(v: Json, outer: Seq<char>, key: Seq<char>) -> Option<Seq<char>> {
    match v.member(outer) {
        Some(inner) => inner.text_at(key),
        None => None,
    }
}

/// Each value of a WAF line that an event keeps, by its key. A line without
/// `httpRequest` is malformed.
pub proof fn waf_lines_feed_columns_by_key(
    v: Json,
    line: Seq<char>,
    file_id: u32,
    record_index: u64,
    keep_raw: bool,
)
    ensures
        ({
            let event = ndjson::event_of(
                LogType::WafAcl,
                v,
                line,
                file_id,
                record_index,
                keep_raw,
            );
            &&& event is Some <==> keyed(v, "httpRequest"@)
            &&& event matches Some(e) ==> {
                &&& e.source_ip == text_in(v, "httpRequest"@, "clientIp"@)
                &&& e.event_name == v.text_at("action"@)
                &&& e.read_only == ndjson::reading_flag(text_in(v, "httpRequest"@, "httpMethod"@))
                &&& e.error_code == if v.text_at("action"@) == Some("BLOCK"@) {
                    v.text_at("terminatingRuleId"@)
                } else {
                    None
                }
                &&& v.member("timestamp"@) matches Some(Json::Number(n)) ==> (n.signed matches Some(
                    ms,
                ) ==> (-377_705_116_800_000 <= ms < 253_402_300_800_000 ==> (
                e.event_time matches Some(at) && at.local == ms * 1_000_000 && at.offset == 0)))
                &&& !(v.member("timestamp"@) matches Some(Json::Number(_))) ==> e.event_time is None
            }
        }),
{
}

/// Region and account of a WAF line are the fourth and fifth part of the
/// name of its access list.
pub proof fn access_lists_name_region_and_account(
    v: Json,
    line: Seq<char>,
    file_id: u32,
    record_index: u64,
    keep_raw: bool,
    parts: Seq<Seq<char>>,
)
    requires
        keyed(v, "httpRequest"@),
        parts.len() >= 5,
        forall|i: int| 0 <= i < parts.len() ==> !(#[trigger] parts[i]).contains(':'),
        v.text_at("webaclId"@) == Some(crate::laws::texts::joined(parts, ':')),
    ensures
        ndjson::event_of(LogType::WafAcl, v, line, file_id, record_index, keep_raw) matches Some(e)
            && e.aws_region == Some(parts[3]) && e.account_id == Some(parts[4]),
{
    crate::laws::texts::splitting_undoes_joining(parts, ':');
}

/// A header is found by its name, whatever the case, in the order of the
/// list; one without a string for its value is passed over.
pub proof fn headers_are_found_by_name(
    request: Json,
    headers: Vec<Json>,
    name: Seq<char>,
    k: int,
    value: Seq<char>,
)
    requires
        request.member("headers"@) == Some(Json::Array(headers)),
        0 <= k < headers@.len(),
        headers@[k].text_at("name"@) matches Some(n) && crate::laws::conditions::same_but_case(
            n,
            name,
        ),
        headers@[k].text_at("value"@) == Some(value),
        forall|j: int|
            0 <= j < k ==> !((#[trigger] headers@[j]).text_at("name"@) matches Some(n)
                && crate::laws::conditions::same_but_case(n, name)),
    ensures
        ndjson::header_in(Some(request), name) == Some(value),
{
    lemma_header(headers@, name, k, value, 0);
}

proof fn lemma_header(headers: Seq<Json>, name: Seq<char>, k: int, value: Seq<char>, i: int)
    requires
        0 <= i <= k < headers.len(),
        headers[k].text_at("name"@) matches Some(n) && crate::laws::conditions::same_but_case(
            n,
            name,
        ),
        headers[k].text_at("value"@) == Some(value),
        forall|j: int|
            0 <= j < k ==> !((#[trigger] headers[j]).text_at("name"@) matches Some(n)
                && crate::laws::conditions::same_but_case(n, name)),
    ensures
        ndjson::header_from(headers, name, i) == Some(value),
    decreases k - i,
{
    match headers[i].text_at("name"@) {
        Some(n) => {
            crate::laws::conditions::lemma_same_but_case(n, name);
        },
        None => {},
    }
    if i < k {
        lemma_header(headers, name, k, value, i + 1);
    }
}

/// The client, the payload and the access list of a WAF line, key by key.
pub proof fn waf_lines_fill_payload_by_key(v: Json, r: Json)
    requires
        v.member("httpRequest"@) == Some(r),
    ensures
        ndjson::columns_of(LogType::WafAcl, v) matches Some(c) && {
            let path = match r.text_at("uri"@) {
                Some(t) => t,
                None => Seq::empty(),
            };
            &&& ndjson::fields_of(LogType::WafAcl, v).user_agent == ndjson::header_in(
                Some(r),
                "user-agent"@,
            )
            &&& c.request.contains(
                json::entry("method"@, json::Cell::of_text(r.text_at("httpMethod"@))),
            )
            &&& c.request.contains(
                json::entry(
                    "url"@,
                    json::Cell::Text(
                        match r.text_at("args"@) {
                            Some(a) if a.len() > 0 => path + "?"@ + a,
                            _ => path,
                        },
                    ),
                ),
            )
            &&& c.request.contains(
                json::entry("protocol"@, json::Cell::of_text(r.text_at("httpVersion"@))),
            )
            &&& r.text_at("requestId"@) matches Some(t) ==> c.request.contains(
                json::entry("request_id"@, json::Cell::Text(t)),
            )
            &&& r.text_at("country"@) matches Some(t) ==> c.request.contains(
                json::entry("country"@, json::Cell::Text(t)),
            )
            &&& ndjson::header_in(Some(r), "referer"@) matches Some(t) ==> c.request.contains(
                json::entry("referer"@, json::Cell::Text(t)),
            )
            &&& ndjson::header_in(Some(r), "x-amzn-trace-id"@) matches Some(t) ==> c.request.contains(
                json::entry("trace_id"@, json::Cell::Text(t)),
            )
            &&& c.response.contains(
                json::entry("action"@, json::Cell::of_value(v.member("action"@))),
            )
            &&& c.response.contains(
                json::entry("labels"@, json::Cell::of_value(v.member("labels"@))),
            )
            &&& c.response.contains(
                json::entry(
                    "match_details"@,
                    json::Cell::of_value(v.member("terminatingRuleMatchDetails"@)),
                ),
            )
            &&& c.response.contains(
                json::entry(
                    "response_code_sent"@,
                    json::Cell::of_value(v.member("responseCodeSent"@)),
                ),
            )
            &&& c.response.contains(
                json::entry(
                    "terminating_rule_id"@,
                    json::Cell::of_value(v.member("terminatingRuleId"@)),
                ),
            )
            &&& c.response.contains(
                json::entry(
                    "terminating_rule_type"@,
                    json::Cell::of_value(v.member("terminatingRuleType"@)),
                ),
            )
            &&& c.resources.contains(
                json::entry(
                    "host"@,
                    json::Cell::of_text(ndjson::header_in(Some(r), "host"@)),
                ),
            )
            &&& c.resources.contains(
                json::entry("http_source_id"@, json::Cell::of_value(v.member("httpSourceId"@))),
            )
            &&& c.resources.contains(
                json::entry("http_source_name"@, json::Cell::of_value(v.member("httpSourceName"@))),
            )
            &&& c.resources.contains(
                json::entry("web_acl_id"@, json::Cell::of_value(v.member("webaclId"@))),
            )
        },
{
    let c = ndjson::columns_of(LogType::WafAcl, v)->Some_0;
    lemma_request_entries(
        ndjson::RequestModel {
            method: r.text_at("httpMethod"@),
            url: Some(ndjson::waf_url(r.text_at("uri"@), r.text_at("args"@))),
            protocol: r.text_at("httpVersion"@),
            request_id: r.text_at("requestId"@),
            country: r.text_at("country"@),
            referer: ndjson::header_in(Some(r), "referer"@),
            trace_id: ndjson::header_in(Some(r), "x-amzn-trace-id"@),
        },
    );
    assert(c.response[0].key == "action"@);
    assert(c.response[1].key == "labels"@);
    assert(c.response[2].key == "match_details"@);
    assert(c.response[3].key == "response_code_sent"@);
    assert(c.response[4].key == "terminating_rule_id"@);
    assert(c.response[5].key == "terminating_rule_type"@);
    assert(c.resources[0].key == "host"@);
    assert(c.resources[1].key == "http_source_id"@);
    assert(c.resources[2].key == "http_source_name"@);
    assert(c.resources[3].key == "web_acl_id"@);
}

/// The request column has each part under its own key; those that may be
/// missing are left out where they are.
pub proof fn lemma_request_entries(r: ndjson::RequestModel)
    ensures
        ({
            let entries = ndjson::request_entries(r);
            &&& entries.contains(json::entry("method"@, json::Cell::of_text(r.method)))
            &&& entries.contains(json::entry("url"@, json::Cell::of_text(r.url)))
            &&& entries.contains(json::entry("protocol"@, json::Cell::of_text(r.protocol)))
            &&& r.request_id matches Some(t) ==> entries.contains(
                json::entry("request_id"@, json::Cell::Text(t)),
            )
            &&& r.country matches Some(t) ==> entries.contains(
                json::entry("country"@, json::Cell::Text(t)),
            )
            &&& r.referer matches Some(t) ==> entries.contains(
                json::entry("referer"@, json::Cell::Text(t)),
            )
            &&& r.trace_id matches Some(t) ==> entries.contains(
                json::entry("trace_id"@, json::Cell::Text(t)),
            )
        }),
{
    let entries = ndjson::request_entries(r);
    let a = ndjson::if_some("request_id"@, r.request_id);
    let b = ndjson::if_some("country"@, r.country);
    let d = ndjson::if_some("referer"@, r.referer);
    assert(entries[0].key == "method"@);
    assert(entries[1].key == "url"@);
    assert(entries[2].key == "protocol"@);
    let at: int = 3 + a.len() as int;
    let after: int = at + b.len();
    let last: int = after + d.len();
    if r.request_id is Some {
        assert(entries[3].key == "request_id"@);
    }
    if r.country is Some {
        assert(entries[at].key == "country"@);
    }
    if r.referer is Some {
        assert(entries[after].key == "referer"@);
    }
    if r.trace_id is Some {
        assert(entries[last].key == "trace_id"@);
    }
}

// ------------------------------------------------------------------ nginx

/// Each value of an nginx line that an event keeps, by its key. The record
/// stands under `_source` where there is one; without `birdview` it is
/// malformed.
pub proof fn nginx_lines_feed_columns_by_key(
    v: Json,
    source: Json,
    line: Seq<char>,
    file_id: u32,
    record_index: u64,
    keep_raw: bool,
)
    requires
        v.member("_source"@) == Some(source) || (v.member("_source"@) is None && source == v),
    ensures
        ({
            let event = ndjson::event_of(
                LogType::NginxAccess,
                v,
                line,
                file_id,
                record_index,
                keep_raw,
            );
            &&& event is Some <==> keyed(source, "birdview"@)
            &&& source.member("birdview"@) matches Some(b) ==> (event matches Some(e) && {
                &&& e.source_ip == b.text_at("client_ip"@)
                &&& e.user_agent == b.text_at("http_user_agent"@)
                &&& e.event_name == b.text_at("request_method"@)
                &&& e.read_only == ndjson::reading_flag(b.text_at("request_method"@))
                &&& e.error_code == ndjson::http_error_text(ndjson::status_of(b.member("status"@)))
                &&& e.event_time == match source.text_at("@timestamp"@) {
                    Some(t) => stamp::rfc3339_time(t),
                    None => None,
                }
                &&& e.aws_region is None && e.account_id is None
            })
        }),
{
}

/// The payload columns of an nginx line, key by key.
pub proof fn nginx_lines_fill_payload_by_key(v: Json, source: Json, b: Json)
    requires
        v.member("_source"@) == Some(source) || (v.member("_source"@) is None && source == v),
        source.member("birdview"@) == Some(b),
    ensures
        ndjson::columns_of(LogType::NginxAccess, v) matches Some(c) && {
            &&& c.request.contains(
                json::entry("method"@, json::Cell::of_text(b.text_at("request_method"@))),
            )
            &&& c.request.contains(
                json::entry(
                    "url"@,
                    json::Cell::of_text(
                        match (b.text_at("host"@), b.text_at("request_uri"@)) {
                            (Some(host), Some(path)) => Some(host + path),
                            (None, Some(path)) => Some(path),
                            (_, None) => None,
                        },
                    ),
                ),
            )
            &&& c.request.contains(
                json::entry("protocol"@, json::Cell::of_text(b.text_at("server_protocol"@))),
            )
            &&& b.text_at("http_referer"@) matches Some(t) ==> (t != "-"@ ==> c.request.contains(
                json::entry("referer"@, json::Cell::Text(t)),
            ))
            &&& text_in(source, "trace"@, "id"@) matches Some(t) ==> c.request.contains(
                json::entry("trace_id"@, json::Cell::Text(t)),
            )
            &&& c.response.contains(
                json::entry(
                    "body_bytes_sent"@,
                    json::Cell::of_value(b.member("body_bytes_sent"@)),
                ),
            )
            &&& c.response.contains(
                json::entry("bytes_sent"@, json::Cell::of_value(b.member("bytes_sent"@))),
            )
            &&& c.response.contains(
                json::entry("request_time"@, json::Cell::of_value(b.member("request_time"@))),
            )
            &&& c.response.contains(
                json::entry(
                    "status"@,
                    json::Cell::of_integer(ndjson::status_of(b.member("status"@))),
                ),
            )
            &&& c.response.contains(
                json::entry(
                    "upstream_response_time"@,
                    json::Cell::of_value(b.member("upstream_response_time"@)),
                ),
            )
            &&& c.resources.contains(
                json::entry("host"@, json::Cell::of_text(b.text_at("host"@))),
            )
            &&& c.resources.contains(
                json::entry("remote_addr"@, json::Cell::of_text(b.text_at("remote_addr"@))),
            )
            &&& source.member("service"@) matches Some(s) ==> c.resources.contains(
                json::entry("environment"@, json::Cell::of_value(s.member("environment"@))),
            ) && c.resources.contains(
                json::entry("service"@, json::Cell::of_value(s.member("name"@))),
            )
            &&& source.member("log"@) matches Some(log) ==> (log.member("file"@) matches Some(file)
                ==> c.resources.contains(
                json::entry("log_path"@, json::Cell::of_value(file.member("path"@))),
            ))
        },
{
    let c = ndjson::columns_of(LogType::NginxAccess, v)->Some_0;
    lemma_request_entries(
        ndjson::RequestModel {
            method: b.text_at("request_method"@),
            url: ndjson::nginx_url(b.text_at("host"@), b.text_at("request_uri"@)),
            protocol: b.text_at("server_protocol"@),
            request_id: None,
            country: None,
            referer: ndjson::unless_dash(b.text_at("http_referer"@)),
            trace_id: ndjson::text_of(ndjson::inner(source, "trace"@, "id"@)),
        },
    );
    assert(c.response[0].key == "body_bytes_sent"@);
    assert(c.response[1].key == "bytes_sent"@);
    assert(c.response[2].key == "request_time"@);
    assert(c.response[3].key == "status"@);
    assert(c.response[4].key == "upstream_response_time"@);
    assert(c.resources[0].key == "environment"@);
    assert(c.resources[1].key == "host"@);
    assert(c.resources[2].key == "log_path"@);
    assert(c.resources[3].key == "remote_addr"@);
    assert(c.resources[4].key == "service"@);
}

} // verus!
