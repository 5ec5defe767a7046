//! What rules find in the columns that the parsers write.

use vstd::prelude::*;

use crate::detect::LogType;
use crate::json;
use crate::json::Json;
use crate::mapping;
use crate::mapping::{Field, FieldMap};
use crate::model::NormalizedEvent;
use crate::ndjson;
use crate::number;
use crate::parse;
use crate::parse::alb;
use crate::rule::eval;
use crate::split;
use crate::stamp::Stamp;

verus! {

/// A rule finds under each key of a column what was written there.
pub open spec fn finds_each(
    event: NormalizedEvent,
    column: Seq<char>,
    entries: Seq<json::Entry>,
) -> bool {
    forall|k: int|
        0 <= k < entries.len() ==> eval::finds(
            eval::field_value(column + "."@ + (#[trigger] entries[k]).key, event),
            entries[k].cell,
        )
}

/// The keys differ, and none has a dot.
spec fn good_keys(entries: Seq<json::Entry>) -> bool {
    &&& forall|i: int, j: int|
        0 <= i < j < entries.len() ==> (#[trigger] entries[i]).key != (#[trigger] entries[j]).key
    &&& forall|i: int| 0 <= i < entries.len() ==> !(#[trigger] entries[i]).key.contains('.')
}

/// A further key without a dot that the first ones do not have.
proof fn lemma_one_more(entries: Seq<json::Entry>, n: int)
    requires
        0 <= n < entries.len(),
        good_keys(entries.take(n)),
        !entries[n].key.contains('.'),
        forall|i: int| 0 <= i < n ==> (#[trigger] entries[i]).key != entries[n].key,
    ensures
        good_keys(entries.take(n + 1)),
{
    let next = entries.take(n + 1);
    assert forall|i: int, j: int| 0 <= i < j < next.len() implies (#[trigger] next[i]).key != (
    #[trigger] next[j]).key by {
        if j < n {
            assert(entries.take(n)[i].key != entries.take(n)[j].key);
        }
    }
    assert forall|i: int| 0 <= i < next.len() implies !(#[trigger] next[i]).key.contains('.') by {
        if i < n {
            assert(!entries.take(n)[i].key.contains('.'));
        }
    }
}

spec fn sound_cells(entries: Seq<json::Entry>) -> bool {
    forall|i: int| 0 <= i < entries.len() ==> (#[trigger] entries[i]).cell.is_sound()
}

proof fn lemma_finds_each(event: NormalizedEvent, column: Seq<char>, entries: Seq<json::Entry>)
    requires
        good_keys(entries),
        sound_cells(entries),
        eval::column_text(event, column) == Some(json::entries_text(entries)),
        json::all_flat(entries) || eval::column_json(event, column) is Some,
    ensures
        eval::finds_what_was_written(event) ==> finds_each(event, column, entries),
{
}

proof fn lemma_alb_request_keys(f: Seq<Seq<char>>)
    ensures
        good_keys(alb::alb_request(f)),
{
    reveal_strlit("method");
    reveal_strlit("url");
    reveal_strlit("protocol");
    reveal_strlit("trace_id");
    reveal_strlit("domain_name");
    reveal_strlit("request_creation_time");
    reveal_strlit("actions_executed");
    reveal_strlit("redirect_url");
    assert(!"method"@.contains('.'));
    assert(!"url"@.contains('.'));
    assert(!"protocol"@.contains('.'));
    assert(!"trace_id"@.contains('.'));
    assert(!"domain_name"@.contains('.'));
    assert(!"request_creation_time"@.contains('.'));
    assert(!"actions_executed"@.contains('.'));
    assert(!"redirect_url"@.contains('.'));
    assert("protocol"@[0] != "trace_id"@[0]);
    let all = alb::alb_request(f);
    lemma_one_more(all, 0);
    lemma_one_more(all, 1);
    lemma_one_more(all, 2);
    lemma_one_more(all, 3);
    lemma_one_more(all, 4);
    lemma_one_more(all, 5);
    lemma_one_more(all, 6);
    lemma_one_more(all, 7);
    assert(all.take(8) =~= all);
}

proof fn lemma_alb_response_keys(f: Seq<Seq<char>>, times: alb::TimesModel)
    ensures
        good_keys(alb::alb_response(f, times)),
{
    reveal_strlit("request_processing_time");
    reveal_strlit("target_processing_time");
    reveal_strlit("response_processing_time");
    reveal_strlit("elb_status_code");
    reveal_strlit("target_status_code");
    reveal_strlit("received_bytes");
    reveal_strlit("sent_bytes");
    reveal_strlit("error_reason");
    reveal_strlit("classification");
    reveal_strlit("classification_reason");
    assert(!"request_processing_time"@.contains('.'));
    assert(!"target_processing_time"@.contains('.'));
    assert(!"response_processing_time"@.contains('.'));
    assert(!"elb_status_code"@.contains('.'));
    assert(!"target_status_code"@.contains('.'));
    assert(!"received_bytes"@.contains('.'));
    assert(!"sent_bytes"@.contains('.'));
    assert(!"error_reason"@.contains('.'));
    assert(!"classification"@.contains('.'));
    assert(!"classification_reason"@.contains('.'));
    assert("received_bytes"@[0] != "classification"@[0]);
    let all = alb::alb_response(f, times);
    lemma_one_more(all, 0);
    lemma_one_more(all, 1);
    lemma_one_more(all, 2);
    lemma_one_more(all, 3);
    lemma_one_more(all, 4);
    lemma_one_more(all, 5);
    lemma_one_more(all, 6);
    lemma_one_more(all, 7);
    lemma_one_more(all, 8);
    lemma_one_more(all, 9);
    assert(all.take(10) =~= all);
}

proof fn lemma_alb_resources_keys(f: Seq<Seq<char>>)
    ensures
        good_keys(alb::alb_resources(f)),
{
    reveal_strlit("load_balancer");
    reveal_strlit("target");
    reveal_strlit("target_group_arn");
    reveal_strlit("ssl_cipher");
    reveal_strlit("ssl_protocol");
    reveal_strlit("chosen_cert_arn");
    assert(!"load_balancer"@.contains('.'));
    assert(!"target"@.contains('.'));
    assert(!"target_group_arn"@.contains('.'));
    assert(!"ssl_cipher"@.contains('.'));
    assert(!"ssl_protocol"@.contains('.'));
    assert(!"chosen_cert_arn"@.contains('.'));
    let all = alb::alb_resources(f);
    lemma_one_more(all, 0);
    lemma_one_more(all, 1);
    lemma_one_more(all, 2);
    lemma_one_more(all, 3);
    lemma_one_more(all, 4);
    lemma_one_more(all, 5);
    assert(all.take(6) =~= all);
}

proof fn lemma_alb_raw_keys(line: Seq<char>)
    ensures
        good_keys(alb::alb_raw(line)),
{
    reveal_strlit("log_type");
    reveal_strlit("line");
    assert(!"log_type"@.contains('.'));
    assert(!"line"@.contains('.'));
    let all = alb::alb_raw(line);
    lemma_one_more(all, 0);
    lemma_one_more(all, 1);
    assert(all.take(2) =~= all);
}

/// The text of a duration is JSON, where it has one.
pub open spec fn is_readable(time: Option<number::DoubleModel>) -> bool {
    json::Cell::of_double(time).is_sound()
}

proof fn lemma_alb_request(f: Seq<Seq<char>>, event: NormalizedEvent)
    requires
        eval::column_text(event, "request"@) == Some(json::entries_text(alb::alb_request(f))),
    ensures
        eval::finds_what_was_written(event) ==> finds_each(event, "request"@, alb::alb_request(f)),
{
    lemma_alb_request_keys(f);
    lemma_finds_each(event, "request"@, alb::alb_request(f));
}

proof fn lemma_alb_response(f: Seq<Seq<char>>, times: alb::TimesModel, event: NormalizedEvent)
    requires
        eval::column_text(event, "response"@) == Some(
            json::entries_text(alb::alb_response(f, times)),
        ),
        is_readable(times.request),
        is_readable(times.target),
        is_readable(times.response),
    ensures
        eval::finds_what_was_written(event) ==> finds_each(
            event,
            "response"@,
            alb::alb_response(f, times),
        ),
{
    lemma_alb_response_keys(f, times);
    lemma_finds_each(event, "response"@, alb::alb_response(f, times));
}

proof fn lemma_alb_resources(f: Seq<Seq<char>>, event: NormalizedEvent)
    requires
        eval::column_text(event, "resources"@) == Some(json::entries_text(alb::alb_resources(f))),
    ensures
        eval::finds_what_was_written(event) ==> finds_each(
            event,
            "resources"@,
            alb::alb_resources(f),
        ),
{
    lemma_alb_resources_keys(f);
    lemma_finds_each(event, "resources"@, alb::alb_resources(f));
}

proof fn lemma_alb_raw(line: Seq<char>, event: NormalizedEvent)
    requires
        eval::column_text(event, "raw"@) == Some(json::entries_text(alb::alb_raw(line))),
    ensures
        eval::finds_what_was_written(event) ==> finds_each(event, "raw"@, alb::alb_raw(line)),
{
    lemma_alb_raw_keys(line);
    lemma_finds_each(event, "raw"@, alb::alb_raw(line));
}

/// A rule finds in an event out of a load balancer line what the line says:
/// each member of `request`, `response`, `resources` and `raw` under its own
/// name, and nothing where the line has a dash.
pub proof fn rules_find_what_an_alb_line_says(
    line: Seq<char>,
    f: Seq<Seq<char>>,
    at: Stamp,
    file_id: u32,
    record_index: u64,
    keep_raw: bool,
    event: NormalizedEvent,
)
    requires
        alb::record_event(line, f, at, alb::times_of(f), file_id, record_index, keep_raw) == Some(
            event@,
        ),
    ensures
        eval::finds_what_was_written(event) ==> {
            &&& finds_each(event, "request"@, alb::alb_request(f))
            &&& finds_each(event, "resources"@, alb::alb_resources(f))
            &&& keep_raw ==> finds_each(event, "raw"@, alb::alb_raw(line))
            &&& is_readable(alb::times_of(f).request) && is_readable(alb::times_of(f).target)
                && is_readable(alb::times_of(f).response) ==> finds_each(
                event,
                "response"@,
                alb::alb_response(f, alb::times_of(f)),
            )
        },
{
    eval::lemma_json_columns();
    let times = alb::times_of(f);
    assert(event@.request == Some(json::entries_text(alb::alb_request(f))));
    assert(event@.response == Some(json::entries_text(alb::alb_response(f, times))));
    assert(event@.resources == Some(json::entries_text(alb::alb_resources(f))));
    lemma_alb_request(f, event);
    lemma_alb_resources(f, event);
    if keep_raw {
        assert(event@.raw == Some(json::entries_text(alb::alb_raw(line))));
        lemma_alb_raw(line, event);
    }
    if is_readable(times.request) && is_readable(times.target) && is_readable(times.response) {
        lemma_alb_response(f, times, event);
    }
}

// -------------------------------------------------- one record per line

proof fn lemma_append(entries: Seq<json::Entry>, key: Seq<char>, value: Option<Seq<char>>)
    requires
        good_keys(entries),
        !key.contains('.'),
        forall|i: int| 0 <= i < entries.len() ==> (#[trigger] entries[i]).key != key,
    ensures
        good_keys(entries + ndjson::if_some(key, value)),
        forall|i: int|
            0 <= i < (entries + ndjson::if_some(key, value)).len() ==> (#[trigger] (entries
                + ndjson::if_some(key, value))[i]).key == key || (i < entries.len() && (entries
                + ndjson::if_some(key, value))[i] == entries[i]),
{
    let next = entries + ndjson::if_some(key, value);
    assert forall|i: int, j: int| 0 <= i < j < next.len() implies (#[trigger] next[i]).key != (
    #[trigger] next[j]).key by {
        if j < entries.len() {
            assert(entries[i].key != entries[j].key);
        }
    }
    assert forall|i: int| 0 <= i < next.len() implies !(#[trigger] next[i]).key.contains('.') by {
        if i < entries.len() {
            assert(!entries[i].key.contains('.'));
        }
    }
}

/// Which names the members of a `request` column can have.
spec fn is_request_key(key: Seq<char>, n: int) -> bool {
    ||| key == "method"@
    ||| key == "url"@
    ||| key == "protocol"@
    ||| n > 0 && key == "request_id"@
    ||| n > 1 && key == "country"@
    ||| n > 2 && key == "referer"@
    ||| n > 3 && key == "trace_id"@
}

spec fn has_request_keys(entries: Seq<json::Entry>, n: int) -> bool {
    forall|i: int| 0 <= i < entries.len() ==> is_request_key((#[trigger] entries[i]).key, n)
}

proof fn lemma_request_keys(r: ndjson::RequestModel)
    ensures
        good_keys(ndjson::request_entries(r)),
{
    reveal_strlit("method");
    reveal_strlit("url");
    reveal_strlit("protocol");
    reveal_strlit("request_id");
    reveal_strlit("country");
    reveal_strlit("referer");
    reveal_strlit("trace_id");
    assert(!"method"@.contains('.'));
    assert(!"url"@.contains('.'));
    assert(!"protocol"@.contains('.'));
    assert(!"request_id"@.contains('.'));
    assert(!"country"@.contains('.'));
    assert(!"referer"@.contains('.'));
    assert(!"trace_id"@.contains('.'));
    assert("protocol"@[0] != "trace_id"@[0]);
    assert("country"@[0] != "referer"@[0]);
    let first = seq![
        json::entry("method"@, json::Cell::of_text(r.method)),
        json::entry("url"@, json::Cell::of_text(r.url)),
        json::entry("protocol"@, json::Cell::of_text(r.protocol)),
    ];
    assert(has_request_keys(first, 0));
    lemma_append(first, "request_id"@, r.request_id);
    let second = first + ndjson::if_some("request_id"@, r.request_id);
    assert(has_request_keys(second, 1));
    lemma_append(second, "country"@, r.country);
    let third = second + ndjson::if_some("country"@, r.country);
    assert(has_request_keys(third, 2));
    lemma_append(third, "referer"@, r.referer);
    let fourth = third + ndjson::if_some("referer"@, r.referer);
    assert(has_request_keys(fourth, 3));
    lemma_append(fourth, "trace_id"@, r.trace_id);
}

proof fn lemma_request(r: ndjson::RequestModel, event: NormalizedEvent)
    requires
        eval::column_text(event, "request"@) == Some(
            json::entries_text(ndjson::request_entries(r)),
        ),
    ensures
        eval::finds_what_was_written(event) ==> finds_each(
            event,
            "request"@,
            ndjson::request_entries(r),
        ),
{
    let entries = ndjson::request_entries(r);
    lemma_request_keys(r);
    assert(sound_cells(entries) && json::all_flat(entries));
    lemma_finds_each(event, "request"@, entries);
}

proof fn lemma_member_sound(v: Json, key: Seq<char>)
    requires
        json::is_part(v),
    ensures
        json::Cell::of_value(v.member(key)).is_sound(),
        v.member(key) matches Some(m) ==> json::is_part(m),
{
    if let Some(m) = v.member(key) {
        assert(json::is_child(v, m));
        json::lemma_child_part(v, m);
    }
}

proof fn lemma_inner_sound(v: Json, outer: Seq<char>, key: Seq<char>)
    requires
        json::is_part(v),
    ensures
        json::Cell::of_value(ndjson::inner(v, outer, key)).is_sound(),
        ndjson::inner(v, outer, key) matches Some(m) ==> json::is_part(m),
{
    lemma_member_sound(v, outer);
    if let Some(m) = v.member(outer) {
        lemma_member_sound(m, key);
    }
}

spec fn waf_cells(v: Json) -> ndjson::Columns {
    ndjson::waf_columns(v, ndjson::waf_fields(v))->Some_0
}

spec fn apigw_cells(v: Json) -> ndjson::Columns {
    ndjson::apigw_columns(v, ndjson::apigw_fields(v))->Some_0
}

spec fn nginx_cells(v: Json) -> ndjson::Columns {
    ndjson::nginx_columns(v, ndjson::nginx_fields(v))->Some_0
}

proof fn lemma_waf_response_keys(v: Json)
    requires
        v.member("httpRequest"@) is Some,
    ensures
        good_keys(waf_cells(v).response),
{
    reveal_strlit("action");
    reveal_strlit("labels");
    reveal_strlit("match_details");
    reveal_strlit("response_code_sent");
    reveal_strlit("terminating_rule_id");
    reveal_strlit("terminating_rule_type");
    assert(!"action"@.contains('.'));
    assert(!"labels"@.contains('.'));
    assert(!"match_details"@.contains('.'));
    assert(!"response_code_sent"@.contains('.'));
    assert(!"terminating_rule_id"@.contains('.'));
    assert(!"terminating_rule_type"@.contains('.'));
    assert("action"@[0] != "labels"@[0]);
    let all = waf_cells(v).response;
    lemma_one_more(all, 0);
    lemma_one_more(all, 1);
    lemma_one_more(all, 2);
    lemma_one_more(all, 3);
    lemma_one_more(all, 4);
    lemma_one_more(all, 5);
    assert(all.take(6) =~= all);
}

proof fn lemma_waf_resources_keys(v: Json)
    requires
        v.member("httpRequest"@) is Some,
    ensures
        good_keys(waf_cells(v).resources),
{
    reveal_strlit("host");
    reveal_strlit("http_source_id");
    reveal_strlit("http_source_name");
    reveal_strlit("web_acl_id");
    assert(!"host"@.contains('.'));
    assert(!"http_source_id"@.contains('.'));
    assert(!"http_source_name"@.contains('.'));
    assert(!"web_acl_id"@.contains('.'));
    let all = waf_cells(v).resources;
    lemma_one_more(all, 0);
    lemma_one_more(all, 1);
    lemma_one_more(all, 2);
    lemma_one_more(all, 3);
    assert(all.take(4) =~= all);
}

proof fn lemma_apigw_response_keys(v: Json)
    ensures
        good_keys(apigw_cells(v).response),
{
    reveal_strlit("integration_latency");
    reveal_strlit("integration_status");
    reveal_strlit("response_length");
    reveal_strlit("status");
    assert(!"integration_latency"@.contains('.'));
    assert(!"integration_status"@.contains('.'));
    assert(!"response_length"@.contains('.'));
    assert(!"status"@.contains('.'));
    let all = apigw_cells(v).response;
    lemma_one_more(all, 0);
    lemma_one_more(all, 1);
    lemma_one_more(all, 2);
    lemma_one_more(all, 3);
    assert(all.take(4) =~= all);
}

proof fn lemma_apigw_resources_keys(v: Json)
    ensures
        good_keys(apigw_cells(v).resources),
{
    reveal_strlit("api_id");
    reveal_strlit("resource_path");
    reveal_strlit("stage");
    assert(!"api_id"@.contains('.'));
    assert(!"resource_path"@.contains('.'));
    assert(!"stage"@.contains('.'));
    let all = apigw_cells(v).resources;
    lemma_one_more(all, 0);
    lemma_one_more(all, 1);
    lemma_one_more(all, 2);
    assert(all.take(3) =~= all);
}

proof fn lemma_nginx_response_keys(v: Json)
    requires
        ndjson::nginx_source(v).member("birdview"@) is Some,
    ensures
        good_keys(nginx_cells(v).response),
{
    reveal_strlit("body_bytes_sent");
    reveal_strlit("bytes_sent");
    reveal_strlit("request_time");
    reveal_strlit("status");
    reveal_strlit("upstream_response_time");
    assert(!"body_bytes_sent"@.contains('.'));
    assert(!"bytes_sent"@.contains('.'));
    assert(!"request_time"@.contains('.'));
    assert(!"status"@.contains('.'));
    assert(!"upstream_response_time"@.contains('.'));
    let all = nginx_cells(v).response;
    lemma_one_more(all, 0);
    lemma_one_more(all, 1);
    lemma_one_more(all, 2);
    lemma_one_more(all, 3);
    lemma_one_more(all, 4);
    assert(all.take(5) =~= all);
}

proof fn lemma_nginx_resources_keys(v: Json)
    requires
        ndjson::nginx_source(v).member("birdview"@) is Some,
    ensures
        good_keys(nginx_cells(v).resources),
{
    reveal_strlit("environment");
    reveal_strlit("host");
    reveal_strlit("log_path");
    reveal_strlit("remote_addr");
    reveal_strlit("service");
    assert(!"environment"@.contains('.'));
    assert(!"host"@.contains('.'));
    assert(!"log_path"@.contains('.'));
    assert(!"remote_addr"@.contains('.'));
    assert(!"service"@.contains('.'));
    assert("environment"@[0] != "remote_addr"@[0]);
    let all = nginx_cells(v).resources;
    lemma_one_more(all, 0);
    lemma_one_more(all, 1);
    lemma_one_more(all, 2);
    lemma_one_more(all, 3);
    lemma_one_more(all, 4);
    assert(all.take(5) =~= all);
}

proof fn lemma_waf_response(v: Json, event: NormalizedEvent)
    requires
        v.member("httpRequest"@) is Some,
        json::is_part(v),
        eval::column_text(event, "response"@) == Some(json::entries_text(waf_cells(v).response)),
        json::all_flat(waf_cells(v).response) || eval::column_json(event, "response"@) is Some,
    ensures
        eval::finds_what_was_written(event) ==> finds_each(
            event,
            "response"@,
            waf_cells(v).response,
        ),
{
    let entries = waf_cells(v).response;
    lemma_member_sound(v, "action"@);
    lemma_member_sound(v, "labels"@);
    lemma_member_sound(v, "terminatingRuleMatchDetails"@);
    lemma_member_sound(v, "responseCodeSent"@);
    lemma_member_sound(v, "terminatingRuleId"@);
    lemma_member_sound(v, "terminatingRuleType"@);
    assert(sound_cells(entries));
    lemma_waf_response_keys(v);
    lemma_finds_each(event, "response"@, entries);
}

proof fn lemma_waf_resources(v: Json, event: NormalizedEvent)
    requires
        v.member("httpRequest"@) is Some,
        json::is_part(v),
        eval::column_text(event, "resources"@) == Some(json::entries_text(waf_cells(v).resources)),
        json::all_flat(waf_cells(v).resources) || eval::column_json(event, "resources"@) is Some,
    ensures
        eval::finds_what_was_written(event) ==> finds_each(
            event,
            "resources"@,
            waf_cells(v).resources,
        ),
{
    let entries = waf_cells(v).resources;
    lemma_member_sound(v, "httpSourceId"@);
    lemma_member_sound(v, "httpSourceName"@);
    lemma_member_sound(v, "webaclId"@);
    assert(sound_cells(entries));
    lemma_waf_resources_keys(v);
    lemma_finds_each(event, "resources"@, entries);
}

proof fn lemma_apigw_response(v: Json, event: NormalizedEvent)
    requires
        json::is_part(v),
        eval::column_text(event, "response"@) == Some(json::entries_text(apigw_cells(v).response)),
        json::all_flat(apigw_cells(v).response) || eval::column_json(event, "response"@) is Some,
    ensures
        eval::finds_what_was_written(event) ==> finds_each(
            event,
            "response"@,
            apigw_cells(v).response,
        ),
{
    let entries = apigw_cells(v).response;
    assert(sound_cells(entries));
    lemma_apigw_response_keys(v);
    lemma_finds_each(event, "response"@, entries);
}

proof fn lemma_apigw_resources(v: Json, event: NormalizedEvent)
    requires
        json::is_part(v),
        eval::column_text(event, "resources"@) == Some(
            json::entries_text(apigw_cells(v).resources),
        ),
        json::all_flat(apigw_cells(v).resources) || eval::column_json(event, "resources"@) is Some,
    ensures
        eval::finds_what_was_written(event) ==> finds_each(
            event,
            "resources"@,
            apigw_cells(v).resources,
        ),
{
    let entries = apigw_cells(v).resources;
    assert(sound_cells(entries));
    lemma_apigw_resources_keys(v);
    lemma_finds_each(event, "resources"@, entries);
}

proof fn lemma_nginx_response(v: Json, event: NormalizedEvent)
    requires
        ndjson::nginx_source(v).member("birdview"@) is Some,
        json::is_part(v),
        eval::column_text(event, "response"@) == Some(json::entries_text(nginx_cells(v).response)),
        json::all_flat(nginx_cells(v).response) || eval::column_json(event, "response"@) is Some,
    ensures
        eval::finds_what_was_written(event) ==> finds_each(
            event,
            "response"@,
            nginx_cells(v).response,
        ),
{
    let entries = nginx_cells(v).response;
    lemma_member_sound(v, "_source"@);
    let source = ndjson::nginx_source(v);
    assert(json::is_part(source));
    lemma_member_sound(source, "birdview"@);
    let b = source.member("birdview"@)->Some_0;
    lemma_member_sound(b, "body_bytes_sent"@);
    lemma_member_sound(b, "bytes_sent"@);
    lemma_member_sound(b, "request_time"@);
    lemma_member_sound(b, "upstream_response_time"@);
    assert(sound_cells(entries));
    lemma_nginx_response_keys(v);
    lemma_finds_each(event, "response"@, entries);
}

proof fn lemma_nginx_resources(v: Json, event: NormalizedEvent)
    requires
        ndjson::nginx_source(v).member("birdview"@) is Some,
        json::is_part(v),
        eval::column_text(event, "resources"@) == Some(
            json::entries_text(nginx_cells(v).resources),
        ),
        json::all_flat(nginx_cells(v).resources) || eval::column_json(event, "resources"@) is Some,
    ensures
        eval::finds_what_was_written(event) ==> finds_each(
            event,
            "resources"@,
            nginx_cells(v).resources,
        ),
{
    let entries = nginx_cells(v).resources;
    lemma_member_sound(v, "_source"@);
    let source = ndjson::nginx_source(v);
    assert(json::is_part(source));
    lemma_inner_sound(source, "service"@, "environment"@);
    lemma_inner_sound(source, "service"@, "name"@);
    lemma_inner_sound(source, "log"@, "file"@);
    if let Some(file) = ndjson::inner(source, "log"@, "file"@) {
        lemma_member_sound(file, "path"@);
    }
    assert(sound_cells(entries));
    lemma_nginx_resources_keys(v);
    lemma_finds_each(event, "resources"@, entries);
}

/// A rule finds in an event out of a JSON line what its columns were filled
/// with: each member under its own name, and nothing where the line has none.
/// A column with nested values is read back where it is JSON, which it is
/// unless it nests too deep or holds a double out of range.
pub proof fn rules_find_what_a_json_line_says(
    log_type: LogType,
    line: Seq<char>,
    file_id: u32,
    record_index: u64,
    keep_raw: bool,
    event: NormalizedEvent,
)
    requires
        ndjson::line_event(log_type, line, file_id, record_index, keep_raw) == Some(event@),
    ensures
        ndjson::columns_of(log_type, json::json_of(line)->Some_0) matches Some(c) && (
        eval::finds_what_was_written(event) ==> {
            &&& finds_each(event, "request"@, c.request)
            &&& json::all_flat(c.response) || eval::column_json(event, "response"@) is Some
                ==> finds_each(event, "response"@, c.response)
            &&& json::all_flat(c.resources) || eval::column_json(event, "resources"@) is Some
                ==> finds_each(event, "resources"@, c.resources)
        }),
{
    eval::lemma_json_columns();
    let v = json::json_of(line)->Some_0;
    let c = ndjson::columns_of(log_type, v)->Some_0;
    assert(json::lies_within(v, v, 0));
    assert(json::is_part(v));
    assert(eval::column_text(event, "request"@) == Some(json::entries_text(c.request)));
    assert(eval::column_text(event, "response"@) == Some(json::entries_text(c.response)));
    assert(eval::column_text(event, "resources"@) == Some(json::entries_text(c.resources)));
    let r = choose|r: ndjson::RequestModel| c.request == #[trigger] ndjson::request_entries(r);
    lemma_request(r, event);
    let whole = json::all_flat(c.response) || eval::column_json(event, "response"@) is Some;
    let named = json::all_flat(c.resources) || eval::column_json(event, "resources"@) is Some;
    match log_type {
        LogType::WafAcl => {
            if whole {
                lemma_waf_response(v, event);
            }
            if named {
                lemma_waf_resources(v, event);
            }
        },
        LogType::ApigwAccess => {
            if whole {
                lemma_apigw_response(v, event);
            }
            if named {
                lemma_apigw_resources(v, event);
            }
        },
        LogType::NginxAccess => {
            if whole {
                lemma_nginx_response(v, event);
            }
            if named {
                lemma_nginx_resources(v, event);
            }
        },
        _ => {},
    }
}

// ------------------------------------------------------- mapped records

/// What a mapping finds in a part of a text is a part of that text.
proof fn lemma_value_part(record: Json, paths: Seq<Seq<char>>, i: int)
    requires
        json::is_part(record),
        0 <= i,
    ensures
        mapping::first_from(record, paths, i, |v: Json| Some(v)) matches Some(v) ==> json::is_part(
            v,
        ),
    decreases paths.len() - i,
{
    if i < paths.len() {
        lemma_value_part(record, paths, i + 1);
        if let Some(v) = mapping::present_at(record, paths[i]) {
            let (source, root, depth) = choose|source: Seq<char>, root: Json, depth: nat|
                #![trigger json::json_of(source), json::lies_within(root, record, depth)]
                json::json_of(source) == Some(root) && json::lies_within(root, record, depth);
            let segments = split::split(paths[i], '.');
            mapping::lemma_descend_within(root, depth, record, segments);
            assert(json::json_of(source) == Some(root) && json::lies_within(
                root,
                v,
                depth + segments.len(),
            ));
        }
    }
}

/// Under a column that keeps this part of a record a rule finds, at any path,
/// what the part has there, and nothing where the record has no such part.
pub open spec fn finds_the_part(
    event: NormalizedEvent,
    column: Seq<char>,
    part: Option<Json>,
    path: Seq<char>,
) -> bool {
    let found = eval::field_value(column + "."@ + path, event);
    match part {
        Some(v) => json::only_counts(v) || eval::column_json(event, column) is Some
            ==> eval::finds_like(found, mapping::present_at(v, path)),
        None => found is None,
    }
}

proof fn lemma_finds_the_part(
    event: NormalizedEvent,
    column: Seq<char>,
    part: Option<Json>,
    path: Seq<char>,
)
    requires
        eval::is_json_column(column),
        eval::column_text(event, column) == parse::kept_json(part),
        part matches Some(v) ==> json::is_part(v),
    ensures
        eval::finds_what_was_kept(event) ==> finds_the_part(event, column, part, path),
{
    eval::lemma_column_and_path(column, path);
    if let Some(v) = part {
        assert(eval::column_text(event, column) == Some(json::json_text(v)));
    }
}

/// A rule finds in an event out of a mapped record what the record has: under
/// `request`, `response` and `resources` at any path what the mapped part has
/// at that path, and under `raw`, where it is kept, what the record itself
/// has. A part is read back where it is JSON, which it is unless it holds a
/// double out of range.
pub proof fn rules_find_what_a_record_has(
    record: Json,
    map: FieldMap,
    file_id: u32,
    record_index: u64,
    keep_raw: bool,
    event: NormalizedEvent,
    path: Seq<char>,
)
    requires
        event@ == parse::mapped_event(record, file_id, record_index, keep_raw, map),
    ensures
        json::is_part(record) && eval::finds_what_was_kept(event) ==> {
            &&& finds_the_part(
                event,
                "request"@,
                mapping::value_in(record, map.paths(Field::Request)),
                path,
            )
            &&& finds_the_part(
                event,
                "response"@,
                mapping::value_in(record, map.paths(Field::Response)),
                path,
            )
            &&& finds_the_part(
                event,
                "resources"@,
                mapping::value_in(record, map.paths(Field::Resources)),
                path,
            )
            &&& keep_raw ==> finds_the_part(event, "raw"@, Some(record), path)
        },
{
    eval::lemma_json_columns();
    if json::is_part(record) {
        lemma_value_part(record, map.paths(Field::Request), 0);
        lemma_value_part(record, map.paths(Field::Response), 0);
        lemma_value_part(record, map.paths(Field::Resources), 0);
        let request = mapping::value_in(record, map.paths(Field::Request));
        let response = mapping::value_in(record, map.paths(Field::Response));
        let resources = mapping::value_in(record, map.paths(Field::Resources));
        lemma_finds_the_part(event, "request"@, request, path);
        lemma_finds_the_part(event, "response"@, response, path);
        lemma_finds_the_part(event, "resources"@, resources, path);
        if keep_raw {
            lemma_finds_the_part(event, "raw"@, Some(record), path);
        }
    }
}

} // verus!
