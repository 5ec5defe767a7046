//! The preview: which leaves a record has, and which column each is said to
//! feed.

use vstd::prelude::*;

use crate::detect::LogType;
use crate::json;
use crate::json::Json;
use crate::laws::lines;
use crate::mapping::Field;
use crate::ndjson;
use crate::number;
use crate::preview;
use crate::split;

verus! {

// ------------------------------------------------------------------- tables

/// Each key that a JSON line is read by, with the column it is said to feed.
pub proof fn labels_name_column_by_key()
    ensures
        preview::label_table(LogType::WafAcl) == seq![
            ("timestamp"@, "event_time"@),
            ("action"@, "event_name"@),
            ("webaclId"@, "resources.web_acl_id"@),
            ("terminatingRuleId"@, "response.terminating_rule_id"@),
            ("terminatingRuleType"@, "response.terminating_rule_type"@),
            ("httpSourceName"@, "resources.http_source_name"@),
            ("httpSourceId"@, "resources.http_source_id"@),
            ("responseCodeSent"@, "response.response_code_sent"@),
            ("httpRequest.clientIp"@, "source_ip"@),
            ("httpRequest.country"@, "request.country"@),
            ("httpRequest.uri"@, "request.url"@),
            ("httpRequest.args"@, "request.url"@),
            ("httpRequest.httpVersion"@, "request.protocol"@),
            ("httpRequest.httpMethod"@, "request.method"@),
            ("httpRequest.requestId"@, "request.request_id"@),
        ],
        preview::label_table(LogType::ApigwAccess) == seq![
            ("request_time"@, "event_time"@),
            ("http_method"@, "event_name"@),
            ("ip"@, "source_ip"@),
            ("user_agent"@, "user_agent"@),
            ("status"@, "response.status"@),
            ("path"@, "request.url"@),
            ("protocol"@, "request.protocol"@),
            ("request_id"@, "request.request_id"@),
            ("response_length"@, "response.response_length"@),
            ("integration_status"@, "response.integration_status"@),
            ("integration_latency"@, "response.integration_latency"@),
            ("api_id"@, "resources.api_id"@),
            ("stage"@, "resources.stage"@),
            ("resource_path"@, "resources.resource_path"@),
        ],
        preview::label_table(LogType::NginxAccess) == seq![
            ("_source.@timestamp"@, "event_time"@),
            ("_source.birdview.request_method"@, "event_name"@),
            ("_source.birdview.client_ip"@, "source_ip"@),
            ("_source.birdview.http_user_agent"@, "user_agent"@),
            ("_source.birdview.status"@, "response.status"@),
            ("_source.birdview.host"@, "resources.host"@),
            ("_source.birdview.request_uri"@, "request.url"@),
            ("_source.birdview.server_protocol"@, "request.protocol"@),
            ("_source.birdview.http_referer"@, "request.referer"@),
            ("_source.birdview.bytes_sent"@, "response.bytes_sent"@),
            ("_source.birdview.body_bytes_sent"@, "response.body_bytes_sent"@),
            ("_source.birdview.request_time"@, "response.request_time"@),
            ("_source.birdview.upstream_response_time"@, "response.upstream_response_time"@),
            ("_source.birdview.remote_addr"@, "resources.remote_addr"@),
            ("_source.service.name"@, "resources.service"@),
            ("_source.service.environment"@, "resources.environment"@),
            ("_source.trace.id"@, "request.trace_id"@),
        ],
{
}

/// Each position of a load balancer line, with the column it is said to feed.
pub proof fn labels_name_column_by_position(i: int)
    ensures
        preview::alb_column(1) == Some("event_time"@),
        preview::alb_column(2) == Some("resources.load_balancer"@),
        preview::alb_column(3) == Some("source_ip"@),
        preview::alb_column(4) == Some("resources.target"@),
        preview::alb_column(5) == Some("response.request_processing_time"@),
        preview::alb_column(6) == Some("response.target_processing_time"@),
        preview::alb_column(7) == Some("response.response_processing_time"@),
        preview::alb_column(8) == Some("response.elb_status_code"@),
        preview::alb_column(9) == Some("response.target_status_code"@),
        preview::alb_column(10) == Some("response.received_bytes"@),
        preview::alb_column(11) == Some("response.sent_bytes"@),
        preview::alb_column(12) == Some("request.url"@),
        preview::alb_column(13) == Some("user_agent"@),
        preview::alb_column(14) == Some("resources.ssl_cipher"@),
        preview::alb_column(15) == Some("resources.ssl_protocol"@),
        preview::alb_column(16) == Some("resources.target_group_arn"@),
        preview::alb_column(17) == Some("request.trace_id"@),
        preview::alb_column(18) == Some("request.domain_name"@),
        preview::alb_column(19) == Some("resources.chosen_cert_arn"@),
        preview::alb_column(21) == Some("request.request_creation_time"@),
        preview::alb_column(22) == Some("request.actions_executed"@),
        preview::alb_column(23) == Some("request.redirect_url"@),
        preview::alb_column(24) == Some("error_message"@),
        preview::alb_column(27) == Some("response.classification"@),
        preview::alb_column(28) == Some("response.classification_reason"@),
        i == 0 || i == 20 || i == 25 || i == 26 || i >= 29 || i < 0 ==> preview::alb_column(i) is None,
{
}

proof fn lemma_column_in(table: Seq<(Seq<char>, Seq<char>)>, k: int, i: int)
    requires
        0 <= i <= k < table.len(),
        forall|j: int|
            0 <= j < k ==> (#[trigger] table[j]).0 != table[k].0 && table[j].0 != "_source."@
                + table[k].0,
    ensures
        preview::column_in(table, table[k].0, i) == Some(table[k].1),
    decreases k - i,
{
    if i < k {
        assert(table[i].0 != table[k].0);
        lemma_column_in(table, k, i + 1);
    }
}

/// A key of a table is found with the column of its first row, and so is an
/// nginx key without the wrapper in front.
pub proof fn labels_are_found_by_key(table: Seq<(Seq<char>, Seq<char>)>, k: int, bare: Seq<char>)
    requires
        0 <= k < table.len(),
    ensures
        (forall|j: int|
            0 <= j < k ==> (#[trigger] table[j]).0 != table[k].0 && table[j].0 != "_source."@
                + table[k].0) ==> preview::column_in(table, table[k].0, 0) == Some(table[k].1),
        table[k].0 == "_source."@ + bare && (forall|j: int|
            0 <= j < k ==> (#[trigger] table[j]).0 != bare && table[j].0 != "_source."@ + bare)
            ==> preview::column_in(table, bare, 0) == Some(table[k].1),
        (forall|j: int|
            0 <= j < table.len() ==> (#[trigger] table[j]).0 != bare && table[j].0 != "_source."@
                + bare) ==> preview::column_in(table, bare, 0) is None,
{
    if forall|j: int|
        0 <= j < k ==> (#[trigger] table[j]).0 != table[k].0 && table[j].0 != "_source."@
            + table[k].0 {
        lemma_column_in(table, k, 0);
    }
    if table[k].0 == "_source."@ + bare && (forall|j: int|
        0 <= j < k ==> (#[trigger] table[j]).0 != bare && table[j].0 != "_source."@ + bare) {
        lemma_bare(table, k, bare, 0);
    }
    if forall|j: int|
        0 <= j < table.len() ==> (#[trigger] table[j]).0 != bare && table[j].0 != "_source."@
            + bare {
        lemma_none(table, bare, 0);
    }
}

proof fn lemma_bare(table: Seq<(Seq<char>, Seq<char>)>, k: int, bare: Seq<char>, i: int)
    requires
        0 <= i <= k < table.len(),
        table[k].0 == "_source."@ + bare,
        forall|j: int|
            0 <= j < k ==> (#[trigger] table[j]).0 != bare && table[j].0 != "_source."@ + bare,
    ensures
        preview::column_in(table, bare, i) == Some(table[k].1),
    decreases k - i,
{
    if i < k {
        assert(table[i].0 != bare);
        lemma_bare(table, k, bare, i + 1);
    }
}

proof fn lemma_none(table: Seq<(Seq<char>, Seq<char>)>, bare: Seq<char>, i: int)
    requires
        0 <= i,
        forall|j: int|
            0 <= j < table.len() ==> (#[trigger] table[j]).0 != bare && table[j].0 != "_source."@
                + bare,
    ensures
        preview::column_in(table, bare, i) is None,
    decreases table.len() - i,
{
    if i < table.len() {
        assert(table[i].0 != bare);
        lemma_none(table, bare, i + 1);
    }
}

/// What the preview says of the address, the client, the method and the time
/// of an API Gateway line holds of the event: each feeds the column it is
/// said to feed.
pub proof fn gateway_labels_hold_of_the_event(
    v: Json,
    line: Seq<char>,
    file_id: u32,
    record_index: u64,
    keep_raw: bool,
)
    ensures
        ndjson::event_of(LogType::ApigwAccess, v, line, file_id, record_index, keep_raw) matches Some(
            e,
        ) && ({
            let table = preview::label_table(LogType::ApigwAccess);
            &&& preview::column_in(table, "ip"@, 0) == Some("source_ip"@) && e.source_ip
                == v.text_at("ip"@)
            &&& preview::column_in(table, "http_method"@, 0) == Some("event_name"@) && e.event_name
                == v.text_at("http_method"@)
            &&& preview::column_in(table, "user_agent"@, 0) == Some("user_agent"@) && e.user_agent
                == v.text_at("user_agent"@)
            &&& preview::column_in(table, "request_time"@, 0) == Some("event_time"@) && (
            v.text_at("request_time"@) is None ==> e.event_time is None)
        }),
{
    lines::gateway_lines_feed_columns_by_key(v, line, file_id, record_index, keep_raw);
    let table = preview::label_table(LogType::ApigwAccess);
    reveal_strlit("ip");
    reveal_strlit("http_method");
    reveal_strlit("user_agent");
    reveal_strlit("request_time");
    reveal_strlit("_source.");
    assert("ip"@.len() == 2 && "http_method"@.len() == 11 && "user_agent"@.len() == 10
        && "request_time"@.len() == 12 && "_source."@.len() == 8);
    assert(table[0].0 == "request_time"@);
    assert(table[1].0 == "http_method"@);
    assert(table[2].0 == "ip"@);
    assert(table[3].0 == "user_agent"@);
    lemma_column_in(table, 0, 0);
    lemma_column_in(table, 1, 0);
    lemma_column_in(table, 2, 0);
    lemma_column_in(table, 3, 0);
}

// ------------------------------------------------------------------- leaves

/// A plain value is one leaf with its text, a `null` is none.
pub proof fn plain_values_are_leaves(path: Seq<char>, v: Json)
    ensures
        preview::leaves_at(path, Json::Null) == Seq::<preview::Leaf>::empty(),
        v matches Json::Text(t) ==> preview::leaves_at(path, v) == seq![
            (preview::Leaf { path, value: t@ }),
        ],
        v is Bool || v is Number ==> preview::leaves_at(path, v) == seq![
            (preview::Leaf { path, value: json::json_text(v) }),
        ],
{
}

/// The leaves of an object are those of its members, under their keys; of a
/// list those of its items, under their positions.
pub proof fn members_are_leaves_under_their_key(
    path: Seq<char>,
    pairs: Vec<(String, Json)>,
    items: Vec<Json>,
    n: nat,
)
    ensures
        preview::leaves_at(path, Json::Object(pairs)) == preview::pair_leaves(
            path,
            pairs@,
            pairs@.len(),
        ),
        0 < n <= pairs@.len() ==> preview::pair_leaves(path, pairs@, n) == preview::pair_leaves(
            path,
            pairs@,
            (n - 1) as nat,
        ) + preview::leaves_at(
            if path.len() == 0 {
                pairs@[n - 1].0@
            } else {
                path + "."@ + pairs@[n - 1].0@
            },
            pairs@[n - 1].1,
        ),
        preview::leaves_at(path, Json::Array(items)) == preview::item_leaves(
            path,
            items@,
            items@.len(),
        ),
        0 < n <= items@.len() ==> preview::item_leaves(path, items@, n) == preview::item_leaves(
            path,
            items@,
            (n - 1) as nat,
        ) + preview::leaves_at(
            if path.len() == 0 {
                number::decimal((n - 1) as nat)
            } else {
                path + "."@ + number::decimal((n - 1) as nat)
            },
            items@[n - 1],
        ),
        preview::pair_leaves(path, pairs@, 0) == Seq::<preview::Leaf>::empty(),
        preview::item_leaves(path, items@, 0) == Seq::<preview::Leaf>::empty(),
{
}

/// A leaf below a payload root goes by the path a rule would write.
pub proof fn payload_leaves_go_by_their_rule_path(root: Seq<char>, field: Field, rest: Seq<char>)
    ensures
        preview::payload_label(seq![(root, field)], root, 0) == Some(
            (field.key_text(), field.label_text()),
        ),
        preview::payload_label(seq![(root, field)], root + "."@ + rest, 0) == Some(
            (field.key_text() + "."@ + rest, field.key_text() + "."@ + rest),
        ),
        preview::is_payload(field) <==> field == Field::Request || field == Field::Response || field
            == Field::Resources,
{
    reveal_strlit(".");
    let path = root + "."@ + rest;
    let at = root.len() as int + 1;
    assert(path.subrange(0, at) =~= root + "."@);
    assert(split::starts_with(path, root + "."@));
    assert(path.skip(at) =~= rest);
    assert(path.len() != root.len());
}

} // verus!
