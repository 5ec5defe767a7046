//! Records: which of a record's values an event keeps, and where.

use vstd::prelude::*;

use crate::json;
use crate::json::Json;
use crate::laws::conditions;
use crate::laws::texts;
use crate::mapping;
use crate::mapping::{Field, FieldMap};
use crate::model::NormalizedEvent;
use crate::parse;
use crate::rule::eval;
use crate::split;
use crate::stamp;
use crate::text;

verus! {

// ------------------------------------------------------------------ paths

/// A key without a dot is a member of the record.
pub proof fn a_plain_path_is_a_member(record: Json, key: Seq<char>)
    requires
        record is Object,
        !key.contains('.'),
    ensures
        mapping::value_at(record, key) == record.member(key),
{
    let pieces = seq![key];
    texts::splitting_undoes_joining(pieces, '.');
    assert(texts::joined(pieces, '.') == key);
    lemma_one_step(record, key);
}

pub proof fn lemma_one_step(record: Json, key: Seq<char>)
    ensures
        mapping::descend(record, seq![key]) == mapping::step(record, key),
{
    assert(seq![key].drop_first() =~= Seq::empty());
    match mapping::step(record, key) {
        Some(next) => {
            assert(mapping::descend(next, Seq::empty()) == Some(next));
        },
        None => {},
    }
}

/// A dot leads from an object into one of its members.
pub proof fn a_dot_leads_into_a_member(record: Json, head: Seq<char>, rest: Seq<char>)
    requires
        record is Object,
        !head.contains('.'),
    ensures
        mapping::value_at(record, head + "."@ + rest) == match record.member(head) {
            Some(inner) => mapping::value_at(inner, rest),
            None => None,
        },
{
    reveal_strlit(".");
    assert("."@ =~= seq!['.']);
    let path = head + "."@ + rest;
    texts::the_first_separator_parts(head, rest, '.');
    texts::lemma_split_head(head, rest, '.');
    let segments = split::split(path, '.');
    assert(segments =~= seq![head] + split::split(rest, '.'));
    assert(segments.drop_first() =~= split::split(rest, '.'));
}

// --------------------------------------------------------------- mappings

/// The record has this string at the path.
pub open spec fn has_string(record: Json, path: Seq<char>, t: Seq<char>) -> bool {
    mapping::value_at(record, path) matches Some(Json::Text(s)) && s@ == t
}

/// No path before the `k`th leads to a string.
pub open spec fn no_string_before(record: Json, paths: Seq<Seq<char>>, k: int) -> bool {
    forall|j: int|
        0 <= j < k ==> !(mapping::value_at(record, #[trigger] paths[j]) matches Some(Json::Text(_)))
}

/// `out` is the string at the first path that has one.
pub open spec fn first_string(
    record: Json,
    paths: Seq<Seq<char>>,
    out: Option<Seq<char>>,
) -> bool {
    match out {
        Some(t) => exists|k: int|
            0 <= k < paths.len() && has_string(record, #[trigger] paths[k], t) && no_string_before(
                record,
                paths,
                k,
            ),
        None => no_string_before(record, paths, paths.len() as int),
    }
}

proof fn lemma_first_string(record: Json, paths: Seq<Seq<char>>, i: int)
    requires
        0 <= i <= paths.len(),
        no_string_before(record, paths, i),
    ensures
        first_string(record, paths, mapping::first_from(record, paths, i, |v: Json| v.as_text())),
    decreases paths.len() - i,
{
    let coerce = |v: Json| v.as_text();
    if i < paths.len() {
        match mapping::value_at(record, paths[i]) {
            Some(Json::Text(s)) => {
                assert(mapping::present_at(record, paths[i]) == Some(Json::Text(s)));
                assert(coerce(Json::Text(s)) == Some(s@));
                assert(has_string(record, paths[i], s@));
            },
            other => {
                match mapping::present_at(record, paths[i]) {
                    Some(v) => {
                        assert(coerce(v) is None);
                    },
                    None => {},
                }
                lemma_first_string(record, paths, i + 1);
            },
        }
    }
}

/// The columns that keep a string of the record.
pub open spec fn keeps_a_string(field: Field) -> bool {
    match field {
        Field::EventSource | Field::EventName | Field::AwsRegion | Field::AccountId | Field::SourceIp | Field::UserAgent | Field::IdentityType | Field::IdentityArn | Field::IdentityName | Field::ErrorCode | Field::ErrorMessage => true,
        _ => false,
    }
}

/// A column's key names no path.
proof fn lemma_key_is_plain(field: Field)
    ensures
        split::split_once(field.key_text(), '.') is None,
{
    reveal_strlit("event_source");
    assert(!"event_source"@.contains('.'));
    reveal_strlit("event_name");
    assert(!"event_name"@.contains('.'));
    reveal_strlit("aws_region");
    assert(!"aws_region"@.contains('.'));
    reveal_strlit("account_id");
    assert(!"account_id"@.contains('.'));
    reveal_strlit("source_ip");
    assert(!"source_ip"@.contains('.'));
    reveal_strlit("user_agent");
    assert(!"user_agent"@.contains('.'));
    reveal_strlit("identity_type");
    assert(!"identity_type"@.contains('.'));
    reveal_strlit("identity_arn");
    assert(!"identity_arn"@.contains('.'));
    reveal_strlit("identity_name");
    assert(!"identity_name"@.contains('.'));
    reveal_strlit("error_code");
    assert(!"error_code"@.contains('.'));
    reveal_strlit("error_message");
    assert(!"error_message"@.contains('.'));
    reveal_strlit("request");
    assert(!"request"@.contains('.'));
    reveal_strlit("response");
    assert(!"response"@.contains('.'));
    reveal_strlit("resources");
    assert(!"resources"@.contains('.'));
    reveal_strlit("mfa_authenticated");
    assert(!"mfa_authenticated"@.contains('.'));
    reveal_strlit("read_only");
    assert(!"read_only"@.contains('.'));
    reveal_strlit("management_event");
    assert(!"management_event"@.contains('.'));
    reveal_strlit("event_time");
    assert(!"event_time"@.contains('.'));
    texts::the_first_separator_parts(field.key_text(), Seq::empty(), '.');
}

/// What a rule finds under the key of a text column is the string at the
/// first of the mapping's paths for that column that has one; nothing where
/// none has.
pub proof fn text_columns_keep_the_first_string(
    record: Json,
    file_id: u32,
    record_index: u64,
    keep_raw: bool,
    map: FieldMap,
    event: NormalizedEvent,
    field: Field,
)
    requires
        event@ == parse::mapped_event(record, file_id, record_index, keep_raw, map),
        keeps_a_string(field),
    ensures
        match eval::field_value(field.key_text(), event) {
            Some(eval::Datum::Text(t)) => first_string(record, map.paths(field), Some(t)),
            Some(_) => false,
            None => first_string(record, map.paths(field), None),
        },
{
    lemma_key_is_plain(field);
    conditions::columns_are_found_by_name(event);
    lemma_first_string(record, map.paths(field), 0);
}

/// The flag that a value spells: a boolean, or one of four words.
pub open spec fn spells(value: Option<Json>, flag: bool) -> bool {
    match value {
        Some(Json::Bool(b)) => b == flag,
        Some(Json::Text(t)) => if flag {
            t@ == "true"@ || t@ == "Yes"@
        } else {
            t@ == "false"@ || t@ == "No"@
        },
        _ => false,
    }
}

/// No path before the `k`th leads to a flag.
pub open spec fn no_flag_before(record: Json, paths: Seq<Seq<char>>, k: int) -> bool {
    forall|j: int|
        0 <= j < k ==> !spells(mapping::value_at(record, #[trigger] paths[j]), true) && !spells(
            mapping::value_at(record, paths[j]),
            false,
        )
}

/// `out` is the flag at the first path that has one.
pub open spec fn first_flag(record: Json, paths: Seq<Seq<char>>, out: Option<bool>) -> bool {
    match out {
        Some(flag) => exists|k: int|
            0 <= k < paths.len() && spells(mapping::value_at(record, #[trigger] paths[k]), flag)
                && no_flag_before(record, paths, k),
        None => no_flag_before(record, paths, paths.len() as int),
    }
}

proof fn lemma_first_flag(record: Json, paths: Seq<Seq<char>>, i: int)
    requires
        0 <= i <= paths.len(),
        no_flag_before(record, paths, i),
    ensures
        first_flag(record, paths, mapping::first_from(record, paths, i, |v: Json| mapping::flag_of(v))),
    decreases paths.len() - i,
{
    let coerce = |v: Json| mapping::flag_of(v);
    if i < paths.len() {
        let here = mapping::value_at(record, paths[i]);
        reveal_strlit("true");
        reveal_strlit("false");
        reveal_strlit("Yes");
        reveal_strlit("No");
        assert("true"@.len() == 4 && "false"@.len() == 5 && "Yes"@.len() == 3 && "No"@.len() == 2);
        match mapping::present_at(record, paths[i]) {
            Some(v) => {
                assert(coerce(v) == mapping::flag_of(v));
                match mapping::flag_of(v) {
                    Some(flag) => {
                        assert(spells(here, flag));
                    },
                    None => {
                        assert(!spells(here, true) && !spells(here, false));
                        lemma_first_flag(record, paths, i + 1);
                    },
                }
            },
            None => {
                lemma_first_flag(record, paths, i + 1);
            },
        }
    }
}

/// What a rule finds under the key of a flag column is the flag at the first
/// of the mapping's paths for that column that spells one.
pub proof fn flag_columns_keep_the_first_flag(
    record: Json,
    file_id: u32,
    record_index: u64,
    keep_raw: bool,
    map: FieldMap,
    event: NormalizedEvent,
    field: Field,
)
    requires
        event@ == parse::mapped_event(record, file_id, record_index, keep_raw, map),
        field == Field::MfaAuthenticated || field == Field::ReadOnly || field
            == Field::ManagementEvent,
    ensures
        match eval::field_value(field.key_text(), event) {
            Some(eval::Datum::Bool(b)) => first_flag(record, map.paths(field), Some(b)),
            Some(_) => false,
            None => first_flag(record, map.paths(field), None),
        },
{
    lemma_key_is_plain(field);
    conditions::columns_are_found_by_name(event);
    lemma_first_flag(record, map.paths(field), 0);
}

/// No path before the `k`th leads to a value other than `null`.
pub open spec fn nothing_before(record: Json, paths: Seq<Seq<char>>, k: int) -> bool {
    forall|j: int|
        0 <= j < k ==> (mapping::value_at(record, #[trigger] paths[j]) is None || mapping::value_at(
            record,
            paths[j],
        ) == Some(Json::Null))
}

/// `out` is the text of the value at the first path that has one.
pub open spec fn first_value(
    record: Json,
    paths: Seq<Seq<char>>,
    out: Option<Seq<char>>,
) -> bool {
    match out {
        Some(t) => exists|k: int|
            0 <= k < paths.len() && (mapping::value_at(record, #[trigger] paths[k]) matches Some(v)
                && v !is Null && json::json_text(v) == t) && nothing_before(record, paths, k),
        None => nothing_before(record, paths, paths.len() as int),
    }
}

proof fn lemma_first_value(record: Json, paths: Seq<Seq<char>>, i: int)
    requires
        0 <= i <= paths.len(),
        nothing_before(record, paths, i),
    ensures
        first_value(
            record,
            paths,
            parse::kept_json(mapping::first_from(record, paths, i, |v: Json| Some(v))),
        ),
    decreases paths.len() - i,
{
    let coerce = |v: Json| Some(v);
    if i < paths.len() {
        match mapping::present_at(record, paths[i]) {
            Some(v) => {
                assert(coerce(v) == Some(v));
                assert(mapping::value_at(record, paths[i]) == Some(v));
            },
            None => {
                lemma_first_value(record, paths, i + 1);
            },
        }
    }
}

/// What a rule finds under the key of a JSON column is the text of the value
/// at the first of the mapping's paths for that column that has one.
pub proof fn json_columns_keep_the_first_value(
    record: Json,
    file_id: u32,
    record_index: u64,
    keep_raw: bool,
    map: FieldMap,
    event: NormalizedEvent,
    field: Field,
)
    requires
        event@ == parse::mapped_event(record, file_id, record_index, keep_raw, map),
        field == Field::Request || field == Field::Response || field == Field::Resources,
    ensures
        match eval::field_value(field.key_text(), event) {
            Some(eval::Datum::Text(t)) => first_value(record, map.paths(field), Some(t)),
            Some(_) => false,
            None => first_value(record, map.paths(field), None),
        },
{
    lemma_key_is_plain(field);
    conditions::columns_are_found_by_name(event);
    lemma_first_value(record, map.paths(field), 0);
}

// --------------------------------------------------- records of CloudTrail

/// With no mapping of its own a record feeds each column from the key that
/// CloudTrail writes it under.
pub proof fn trail_records_feed_columns_by_key(
    record: Json,
    file_id: u32,
    record_index: u64,
    keep_raw: bool,
    map: FieldMap,
)
    requires
        record is Object,
        map.named() == Map::<Seq<char>, Seq<Seq<char>>>::empty(),
    ensures
        ({
            let event = parse::mapped_event(record, file_id, record_index, keep_raw, map);
            &&& event.event_source == record.text_at("eventSource"@)
            &&& event.event_name == record.text_at("eventName"@)
            &&& event.aws_region == record.text_at("awsRegion"@)
            &&& event.account_id == record.text_at("recipientAccountId"@)
            &&& event.source_ip == record.text_at("sourceIPAddress"@)
            &&& event.user_agent == record.text_at("userAgent"@)
            &&& event.error_code == record.text_at("errorCode"@)
            &&& event.error_message == record.text_at("errorMessage"@)
            &&& event.event_time == match record.text_at("eventTime"@) {
                Some(t) => stamp::rfc3339_time(t),
                None => None,
            }
            &&& event.read_only == match record.member("readOnly"@) {
                Some(v) => mapping::flag_of(v),
                None => None,
            }
            &&& event.management_event == match record.member("managementEvent"@) {
                Some(v) => mapping::flag_of(v),
                None => None,
            }
            &&& keeps_member(record, "requestParameters"@, event.request)
            &&& keeps_member(record, "responseElements"@, event.response)
            &&& keeps_member(record, "resources"@, event.resources)
            &&& event.raw == if keep_raw {
                Some(json::json_text(record))
            } else {
                None
            }
            &&& event.file_id == file_id && event.record_index == record_index
        }),
{
    lemma_plain_keys();
    lemma_single(record, "eventSource"@);
    lemma_single(record, "eventName"@);
    lemma_single(record, "awsRegion"@);
    lemma_single(record, "recipientAccountId"@);
    lemma_single(record, "sourceIPAddress"@);
    lemma_single(record, "userAgent"@);
    lemma_single(record, "errorCode"@);
    lemma_single(record, "errorMessage"@);
    lemma_single(record, "eventTime"@);
    lemma_single(record, "readOnly"@);
    lemma_single(record, "managementEvent"@);
    lemma_single(record, "requestParameters"@);
    lemma_single(record, "responseElements"@);
    lemma_single(record, "resources"@);
}

proof fn lemma_plain_keys()
    ensures
        !"eventSource"@.contains('.'),
        !"eventName"@.contains('.'),
        !"awsRegion"@.contains('.'),
        !"recipientAccountId"@.contains('.'),
        !"sourceIPAddress"@.contains('.'),
        !"userAgent"@.contains('.'),
        !"errorCode"@.contains('.'),
        !"errorMessage"@.contains('.'),
        !"eventTime"@.contains('.'),
        !"readOnly"@.contains('.'),
        !"managementEvent"@.contains('.'),
        !"requestParameters"@.contains('.'),
        !"responseElements"@.contains('.'),
        !"resources"@.contains('.'),
{
    reveal_strlit("eventSource");
    assert(!"eventSource"@.contains('.'));
    reveal_strlit("eventName");
    assert(!"eventName"@.contains('.'));
    reveal_strlit("awsRegion");
    assert(!"awsRegion"@.contains('.'));
    reveal_strlit("recipientAccountId");
    assert(!"recipientAccountId"@.contains('.'));
    reveal_strlit("sourceIPAddress");
    assert(!"sourceIPAddress"@.contains('.'));
    reveal_strlit("userAgent");
    assert(!"userAgent"@.contains('.'));
    reveal_strlit("errorCode");
    assert(!"errorCode"@.contains('.'));
    reveal_strlit("errorMessage");
    assert(!"errorMessage"@.contains('.'));
    reveal_strlit("eventTime");
    assert(!"eventTime"@.contains('.'));
    reveal_strlit("readOnly");
    assert(!"readOnly"@.contains('.'));
    reveal_strlit("managementEvent");
    assert(!"managementEvent"@.contains('.'));
    reveal_strlit("requestParameters");
    assert(!"requestParameters"@.contains('.'));
    reveal_strlit("responseElements");
    assert(!"responseElements"@.contains('.'));
    reveal_strlit("resources");
    assert(!"resources"@.contains('.'));
}

/// The column keeps the text of that member, unless it is `null` or missing.
pub open spec fn keeps_member(record: Json, key: Seq<char>, column: Option<Seq<char>>) -> bool {
    match record.member(key) {
        None | Some(Json::Null) => column is None,
        Some(v) => column == Some(json::json_text(v)),
    }
}

proof fn lemma_single(record: Json, key: Seq<char>)
    requires
        record is Object,
        !key.contains('.'),
    ensures
        mapping::text_in(record, seq![key]) == record.text_at(key),
        mapping::flag_in(record, seq![key]) == match record.member(key) {
            Some(v) => mapping::flag_of(v),
            None => None,
        },
        mapping::time_in(record, seq![key]) == match record.text_at(key) {
            Some(t) => stamp::rfc3339_time(t),
            None => None,
        },
        keeps_member(record, key, parse::kept_json(mapping::value_in(record, seq![key]))),
{
    a_plain_path_is_a_member(record, key);
    let paths = seq![key];
    assert(mapping::first_from(record, paths, 1, |v: Json| v.as_text()) is None);
    assert(mapping::first_from(record, paths, 1, |v: Json| mapping::flag_of(v)) is None);
    assert(mapping::first_from(record, paths, 1, |v: Json| mapping::time_of(v)) is None);
    assert(mapping::first_from(record, paths, 1, |v: Json| Some(v)) is None);
}

/// A record whose only error key is `errorCode` becomes an event with that
/// code and no message, and the other way round.
pub proof fn error_codes_and_messages_stay_apart(
    record: Json,
    file_id: u32,
    record_index: u64,
    keep_raw: bool,
    map: FieldMap,
    t: Seq<char>,
)
    requires
        record is Object,
        map.named() == Map::<Seq<char>, Seq<Seq<char>>>::empty(),
    ensures
        ({
            let event = parse::mapped_event(record, file_id, record_index, keep_raw, map);
            &&& record.text_at("errorCode"@) == Some(t) && record.member("errorMessage"@) is None
                ==> event.error_code == Some(t) && event.error_message is None
            &&& record.text_at("errorMessage"@) == Some(t) && record.member("errorCode"@) is None
                ==> event.error_message == Some(t) && event.error_code is None
        }),
{
    trail_records_feed_columns_by_key(record, file_id, record_index, keep_raw, map);
}

/// A member, of an object.
pub open spec fn object_at(record: Json, key: Seq<char>) -> Option<Json> {
    match record.member(key) {
        Some(v) => if v is Object {
            Some(v)
        } else {
            None
        },
        None => None,
    }
}

proof fn lemma_two_texts(record: Json, a: Seq<char>, b: Seq<char>)
    ensures
        mapping::text_in(record, seq![a, b]) == match mapping::text_in(record, seq![a]) {
            Some(t) => Some(t),
            None => mapping::text_in(record, seq![b]),
        },
        mapping::flag_in(record, seq![a, b]) == match mapping::flag_in(record, seq![a]) {
            Some(t) => Some(t),
            None => mapping::flag_in(record, seq![b]),
        },
{
    let as_text = |v: Json| v.as_text();
    let as_flag = |v: Json| mapping::flag_of(v);
    let both = seq![a, b];
    assert(mapping::first_from(record, both, 2, as_text) is None);
    assert(mapping::first_from(record, both, 2, as_flag) is None);
    assert(mapping::first_from(record, both, 1, as_text) == mapping::first_from(
        record,
        seq![b],
        0,
        as_text,
    )) by {
        assert(mapping::first_from(record, seq![b], 1, as_text) is None);
    }
    assert(mapping::first_from(record, both, 1, as_flag) == mapping::first_from(
        record,
        seq![b],
        0,
        as_flag,
    )) by {
        assert(mapping::first_from(record, seq![b], 1, as_flag) is None);
    }
    assert(mapping::first_from(record, seq![a], 1, as_text) is None);
    assert(mapping::first_from(record, seq![a], 1, as_flag) is None);
}

/// Two records that agree on a path agree on what is read from it.
proof fn lemma_same_path(record: Json, path: Seq<char>, inner: Json, key: Seq<char>)
    requires
        mapping::value_at(record, path) == mapping::value_at(inner, key),
    ensures
        mapping::text_in(record, seq![path]) == mapping::text_in(inner, seq![key]),
        mapping::flag_in(record, seq![path]) == mapping::flag_in(inner, seq![key]),
{
    let as_text = |v: Json| v.as_text();
    let as_flag = |v: Json| mapping::flag_of(v);
    assert(mapping::first_from(record, seq![path], 1, as_text) is None);
    assert(mapping::first_from(inner, seq![key], 1, as_text) is None);
    assert(mapping::first_from(record, seq![path], 1, as_flag) is None);
    assert(mapping::first_from(inner, seq![key], 1, as_flag) is None);
}

/// Who acted stands inside `userIdentity`: the type, the ARN and the name;
/// a session without a name has that of its issuer.
pub proof fn trail_records_name_who_acted(
    record: Json,
    file_id: u32,
    record_index: u64,
    keep_raw: bool,
    map: FieldMap,
    who: Json,
)
    requires
        record is Object,
        map.named() == Map::<Seq<char>, Seq<Seq<char>>>::empty(),
        object_at(record, "userIdentity"@) == Some(who),
    ensures
        ({
            let event = parse::mapped_event(record, file_id, record_index, keep_raw, map);
            &&& event.identity_type == who.text_at("type"@)
            &&& event.identity_arn == who.text_at("arn"@)
            &&& who.text_at("userName"@) matches Some(t) ==> event.identity_name == Some(t)
            &&& who.text_at("userName"@) is None ==> (object_at(who, "sessionContext"@) matches Some(
                session,
            ) ==> (object_at(session, "sessionIssuer"@) matches Some(issuer) ==> event.identity_name
                == issuer.text_at("userName"@)))
        }),
{
    reveal_strlit("userIdentity");
    reveal_strlit("type");
    reveal_strlit("arn");
    reveal_strlit("userName");
    reveal_strlit("sessionContext");
    reveal_strlit("sessionIssuer");
    reveal_strlit(".");
    reveal_strlit("userIdentity.type");
    reveal_strlit("userIdentity.arn");
    reveal_strlit("userIdentity.userName");
    reveal_strlit("userIdentity.sessionContext.sessionIssuer.userName");
    assert(!"userIdentity"@.contains('.'));
    assert(!"type"@.contains('.'));
    assert(!"arn"@.contains('.'));
    assert(!"userName"@.contains('.'));
    assert(!"sessionContext"@.contains('.'));
    assert(!"sessionIssuer"@.contains('.'));
    assert("userIdentity.type"@ =~= "userIdentity"@ + "."@ + "type"@);
    assert("userIdentity.arn"@ =~= "userIdentity"@ + "."@ + "arn"@);
    assert("userIdentity.userName"@ =~= "userIdentity"@ + "."@ + "userName"@);
    let last = "sessionIssuer"@ + "."@ + "userName"@;
    let tail = "sessionContext"@ + "."@ + last;
    let deep = "userIdentity.sessionContext.sessionIssuer.userName"@;
    assert(deep =~= "userIdentity"@ + "."@ + tail);
    a_dot_leads_into_a_member(record, "userIdentity"@, "type"@);
    a_dot_leads_into_a_member(record, "userIdentity"@, "arn"@);
    a_dot_leads_into_a_member(record, "userIdentity"@, "userName"@);
    a_dot_leads_into_a_member(record, "userIdentity"@, tail);
    a_dot_leads_into_a_member(who, "sessionContext"@, last);
    lemma_single(who, "type"@);
    lemma_single(who, "arn"@);
    lemma_single(who, "userName"@);
    lemma_same_path(record, "userIdentity.type"@, who, "type"@);
    lemma_same_path(record, "userIdentity.arn"@, who, "arn"@);
    lemma_same_path(record, "userIdentity.userName"@, who, "userName"@);
    lemma_two_texts(record, "userIdentity.userName"@, deep);
    match object_at(who, "sessionContext"@) {
        Some(session) => {
            a_dot_leads_into_a_member(session, "sessionIssuer"@, "userName"@);
            match object_at(session, "sessionIssuer"@) {
                Some(issuer) => {
                    lemma_single(issuer, "userName"@);
                    lemma_same_path(record, deep, issuer, "userName"@);
                },
                None => {},
            }
        },
        None => {},
    }
}

/// MFA is what the session's attributes say; where they say nothing, what the
/// sign-in's `MFAUsed` does.
pub proof fn trail_records_tell_mfa_use(
    record: Json,
    file_id: u32,
    record_index: u64,
    keep_raw: bool,
    map: FieldMap,
    who: Json,
    session: Json,
    attributes: Json,
    more: Json,
)
    requires
        record is Object,
        map.named() == Map::<Seq<char>, Seq<Seq<char>>>::empty(),
    ensures
        ({
            let event = parse::mapped_event(record, file_id, record_index, keep_raw, map);
            let told = object_at(record, "userIdentity"@) == Some(who) && object_at(
                who,
                "sessionContext"@,
            ) == Some(session) && object_at(session, "attributes"@) == Some(attributes);
            &&& told ==> (attributes.member("mfaAuthenticated"@) matches Some(v) ==> (
            mapping::flag_of(v) is Some ==> event.mfa_authenticated == mapping::flag_of(v)))
            &&& record.member("userIdentity"@) is None && object_at(record, "additionalEventData"@)
                == Some(more) ==> event.mfa_authenticated == match more.member("MFAUsed"@) {
                Some(v) => mapping::flag_of(v),
                None => None,
            }
        }),
{
    reveal_strlit("userIdentity");
    reveal_strlit("sessionContext");
    reveal_strlit("attributes");
    reveal_strlit("mfaAuthenticated");
    reveal_strlit("additionalEventData");
    reveal_strlit("MFAUsed");
    reveal_strlit(".");
    reveal_strlit("additionalEventData.MFAUsed");
    reveal_strlit("userIdentity.sessionContext.attributes.mfaAuthenticated");
    assert(!"userIdentity"@.contains('.'));
    assert(!"sessionContext"@.contains('.'));
    assert(!"attributes"@.contains('.'));
    assert(!"mfaAuthenticated"@.contains('.'));
    assert(!"additionalEventData"@.contains('.'));
    assert(!"MFAUsed"@.contains('.'));
    let last = "attributes"@ + "."@ + "mfaAuthenticated"@;
    let tail = "sessionContext"@ + "."@ + last;
    let deep = "userIdentity.sessionContext.attributes.mfaAuthenticated"@;
    assert(deep =~= "userIdentity"@ + "."@ + tail);
    let used = "additionalEventData.MFAUsed"@;
    assert(used =~= "additionalEventData"@ + "."@ + "MFAUsed"@);
    a_dot_leads_into_a_member(record, "userIdentity"@, tail);
    a_dot_leads_into_a_member(record, "additionalEventData"@, "MFAUsed"@);
    lemma_two_texts(record, deep, used);
    if object_at(record, "userIdentity"@) == Some(who) && object_at(who, "sessionContext"@) == Some(
        session,
    ) && object_at(session, "attributes"@) == Some(attributes) {
        a_dot_leads_into_a_member(who, "sessionContext"@, last);
        a_dot_leads_into_a_member(session, "attributes"@, "mfaAuthenticated"@);
        lemma_single(attributes, "mfaAuthenticated"@);
        lemma_same_path(record, deep, attributes, "mfaAuthenticated"@);
    }
    if object_at(record, "additionalEventData"@) == Some(more) {
        lemma_single(more, "MFAUsed"@);
        lemma_same_path(record, used, more, "MFAUsed"@);
    }
    let as_flag = |v: Json| mapping::flag_of(v);
    if record.member("userIdentity"@) is None {
        assert(mapping::first_from(record, seq![deep], 1, as_flag) is None);
    }
}

/// The words a flag is spelled by, and no others.
pub proof fn flags_are_spelled_by_four_words(value: Json)
    ensures
        mapping::flag_of(value) == Some(true) <==> spells(Some(value), true),
        mapping::flag_of(value) == Some(false) <==> spells(Some(value), false),
{
    reveal_strlit("true");
    reveal_strlit("false");
    reveal_strlit("Yes");
    reveal_strlit("No");
    assert("true"@.len() == 4 && "false"@.len() == 5 && "Yes"@.len() == 3 && "No"@.len() == 2);
}

} // verus!
