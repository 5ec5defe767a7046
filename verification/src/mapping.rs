//! Field mapping: which JSON path feeds each stored column.
//!
//! CloudTrail is the default shape, but exports are not uniform: organisations
//! post-process them, and other AWS services use different key names. Rather
//! than hard-coding the shape in the parser, the mapping is data the user can
//! inspect and override before a run.

use vstd::prelude::*;

use crate::json;
use crate::json::Json;
use crate::number;
use crate::number::unsigned_of;
use crate::split;
use crate::split::split_char;
use crate::stamp;
use crate::stamp::{parse_rfc3339, Stamp};
use crate::text;
use crate::text::same;
use crate::textmap::TextMap;

verus! {

/// A column the rule engine and results UI can address.
#[derive(Debug, Clone, Copy, PartialEq, Eq, Structural)]
pub enum Field {
    EventTime,
    EventSource,
    EventName,
    AwsRegion,
    AccountId,
    SourceIp,
    UserAgent,
    IdentityType,
    IdentityArn,
    IdentityName,
    MfaAuthenticated,
    ErrorCode,
    ErrorMessage,
    ReadOnly,
    ManagementEvent,
    Request,
    Response,
    Resources,
}

impl Field {
    /// Every field, in the order the mapping editor shows them.
    pub const ALL: [Field; 18] = [
        Field::EventTime,
        Field::EventName,
        Field::EventSource,
        Field::AwsRegion,
        Field::AccountId,
        Field::SourceIp,
        Field::UserAgent,
        Field::IdentityType,
        Field::IdentityArn,
        Field::IdentityName,
        Field::MfaAuthenticated,
        Field::ErrorCode,
        Field::ErrorMessage,
        Field::ReadOnly,
        Field::ManagementEvent,
        Field::Request,
        Field::Response,
        Field::Resources,
    ];

    /// Stable key used in `mapping.json` and by rules.
    pub open spec fn key_text(self) -> Seq<char> {
        match self {
            Field::EventTime => "event_time"@,
            Field::EventSource => "event_source"@,
            Field::EventName => "event_name"@,
            Field::AwsRegion => "aws_region"@,
            Field::AccountId => "account_id"@,
            Field::SourceIp => "source_ip"@,
            Field::UserAgent => "user_agent"@,
            Field::IdentityType => "identity_type"@,
            Field::IdentityArn => "identity_arn"@,
            Field::IdentityName => "identity_name"@,
            Field::MfaAuthenticated => "mfa_authenticated"@,
            Field::ErrorCode => "error_code"@,
            Field::ErrorMessage => "error_message"@,
            Field::ReadOnly => "read_only"@,
            Field::ManagementEvent => "management_event"@,
            Field::Request => "request"@,
            Field::Response => "response"@,
            Field::Resources => "resources"@,
        }
    }

    /// Display name.
    pub open spec fn label_text(self) -> Seq<char> {
        match self {
            Field::EventTime => "이벤트 시각"@,
            Field::EventSource => "서비스"@,
            Field::EventName => "이벤트 이름"@,
            Field::AwsRegion => "리전"@,
            Field::AccountId => "계정 ID"@,
            Field::SourceIp => "출발지 IP"@,
            Field::UserAgent => "User-Agent"@,
            Field::IdentityType => "주체 유형"@,
            Field::IdentityArn => "주체 ARN"@,
            Field::IdentityName => "주체 이름"@,
            Field::MfaAuthenticated => "MFA 사용"@,
            Field::ErrorCode => "오류 코드"@,
            Field::ErrorMessage => "오류 메시지"@,
            Field::ReadOnly => "읽기 전용"@,
            Field::ManagementEvent => "관리 이벤트"@,
            Field::Request => "요청 파라미터"@,
            Field::Response => "응답 요소"@,
            Field::Resources => "대상 리소스"@,
        }
    }

    /// Paths tried in order when no mapping says otherwise.
    pub open spec fn default_paths(self) -> Seq<Seq<char>> {
        match self {
            Field::EventTime => seq!["eventTime"@],
            Field::EventSource => seq!["eventSource"@],
            Field::EventName => seq!["eventName"@],
            Field::AwsRegion => seq!["awsRegion"@],
            Field::AccountId => seq!["recipientAccountId"@],
            Field::SourceIp => seq!["sourceIPAddress"@],
            Field::UserAgent => seq!["userAgent"@],
            Field::IdentityType => seq!["userIdentity.type"@],
            Field::IdentityArn => seq!["userIdentity.arn"@],
            Field::IdentityName => seq!["userIdentity.userName"@, "userIdentity.sessionContext.sessionIssuer.userName"@],
            Field::MfaAuthenticated => seq!["userIdentity.sessionContext.attributes.mfaAuthenticated"@, "additionalEventData.MFAUsed"@],
            Field::ErrorCode => seq!["errorCode"@],
            Field::ErrorMessage => seq!["errorMessage"@],
            Field::ReadOnly => seq!["readOnly"@],
            Field::ManagementEvent => seq!["managementEvent"@],
            Field::Request => seq!["requestParameters"@],
            Field::Response => seq!["responseElements"@],
            Field::Resources => seq!["resources"@],
        }
    }

    /// Stable key used in `mapping.json` and by rules.
    pub fn key(self) -> (r: &'static str)
        ensures
            r@ == self.key_text(),
    {
        match self {
            Field::EventTime => "event_time",
            Field::EventSource => "event_source",
            Field::EventName => "event_name",
            Field::AwsRegion => "aws_region",
            Field::AccountId => "account_id",
            Field::SourceIp => "source_ip",
            Field::UserAgent => "user_agent",
            Field::IdentityType => "identity_type",
            Field::IdentityArn => "identity_arn",
            Field::IdentityName => "identity_name",
            Field::MfaAuthenticated => "mfa_authenticated",
            Field::ErrorCode => "error_code",
            Field::ErrorMessage => "error_message",
            Field::ReadOnly => "read_only",
            Field::ManagementEvent => "management_event",
            Field::Request => "request",
            Field::Response => "response",
            Field::Resources => "resources",
        }
    }

    /// The field with this key.
    pub fn from_key(key: &str) -> (r: Option<Field>)
        ensures
            match r {
                Some(field) => field.key_text() == key@,
                None => forall|field: Field| #[trigger] field.key_text() != key@,
            },
    {

        if same(key, "event_time") {
            Some(Field::EventTime)
        } else if same(key, "event_name") {
            Some(Field::EventName)
        } else if same(key, "event_source") {
            Some(Field::EventSource)
        } else if same(key, "aws_region") {
            Some(Field::AwsRegion)
        } else if same(key, "account_id") {
            Some(Field::AccountId)
        } else if same(key, "source_ip") {
            Some(Field::SourceIp)
        } else if same(key, "user_agent") {
            Some(Field::UserAgent)
        } else if same(key, "identity_type") {
            Some(Field::IdentityType)
        } else if same(key, "identity_arn") {
            Some(Field::IdentityArn)
        } else if same(key, "identity_name") {
            Some(Field::IdentityName)
        } else if same(key, "mfa_authenticated") {
            Some(Field::MfaAuthenticated)
        } else if same(key, "error_code") {
            Some(Field::ErrorCode)
        } else if same(key, "error_message") {
            Some(Field::ErrorMessage)
        } else if same(key, "read_only") {
            Some(Field::ReadOnly)
        } else if same(key, "management_event") {
            Some(Field::ManagementEvent)
        } else if same(key, "request") {
            Some(Field::Request)
        } else if same(key, "response") {
            Some(Field::Response)
        } else if same(key, "resources") {
            Some(Field::Resources)
        } else {
            None
        }
    }

    /// Display name. Lives here so the rule explanation, the results table,
    /// the detail view and the mapping editor all call a field the same thing.
    pub fn label(self) -> (r: &'static str)
        ensures
            r@ == self.label_text(),
    {
        match self {
            Field::EventTime => "이벤트 시각",
            Field::EventSource => "서비스",
            Field::EventName => "이벤트 이름",
            Field::AwsRegion => "리전",
            Field::AccountId => "계정 ID",
            Field::SourceIp => "출발지 IP",
            Field::UserAgent => "User-Agent",
            Field::IdentityType => "주체 유형",
            Field::IdentityArn => "주체 ARN",
            Field::IdentityName => "주체 이름",
            Field::MfaAuthenticated => "MFA 사용",
            Field::ErrorCode => "오류 코드",
            Field::ErrorMessage => "오류 메시지",
            Field::ReadOnly => "읽기 전용",
            Field::ManagementEvent => "관리 이벤트",
            Field::Request => "요청 파라미터",
            Field::Response => "응답 요소",
            Field::Resources => "대상 리소스",
        }
    }

    /// Paths tried in order. Several fields legitimately live in more than one
    /// place: `mfaAuthenticated` is a session attribute for assumed roles but
    /// `additionalEventData.MFAUsed` for ConsoleLogin.
    pub fn default_sources(self) -> (r: Vec<&'static str>)
        ensures
            slices(r@) == self.default_paths(),
    {
        let r: Vec<&'static str> = match self {
            Field::EventTime => vec!["eventTime"],
            Field::EventSource => vec!["eventSource"],
            Field::EventName => vec!["eventName"],
            Field::AwsRegion => vec!["awsRegion"],
            Field::AccountId => vec!["recipientAccountId"],
            Field::SourceIp => vec!["sourceIPAddress"],
            Field::UserAgent => vec!["userAgent"],
            Field::IdentityType => vec!["userIdentity.type"],
            Field::IdentityArn => vec!["userIdentity.arn"],
            Field::IdentityName => vec!["userIdentity.userName", "userIdentity.sessionContext.sessionIssuer.userName"],
            Field::MfaAuthenticated => vec!["userIdentity.sessionContext.attributes.mfaAuthenticated", "additionalEventData.MFAUsed"],
            Field::ErrorCode => vec!["errorCode"],
            Field::ErrorMessage => vec!["errorMessage"],
            Field::ReadOnly => vec!["readOnly"],
            Field::ManagementEvent => vec!["managementEvent"],
            Field::Request => vec!["requestParameters"],
            Field::Response => vec!["responseElements"],
            Field::Resources => vec!["resources"],
        };
        assert(slices(r@) =~= self.default_paths());
        r
    }
}

/// The texts of a list of string slices.
pub open spec fn slices(items: Seq<&str>) -> Seq<Seq<char>> {
    Seq::new(items.len(), |i: int| items[i]@)
}

/// Length, seventh and tenth character of a key; the tenth of a short key is
/// left out.
spec fn key_mark(field: Field) -> (int, char, char) {
    match field {
        Field::EventTime => (10, 't', 'e'),
        Field::EventSource => (12, 's', 'r'),
        Field::EventName => (10, 'n', 'e'),
        Field::AwsRegion => (10, 'g', 'n'),
        Field::AccountId => (10, 't', 'd'),
        Field::SourceIp => (9, '_', '-'),
        Field::UserAgent => (10, 'g', 't'),
        Field::IdentityType => (13, 't', 't'),
        Field::IdentityArn => (12, 't', 'a'),
        Field::IdentityName => (13, 't', 'n'),
        Field::MfaAuthenticated => (17, 't', 'n'),
        Field::ErrorCode => (10, 'c', 'e'),
        Field::ErrorMessage => (13, 'm', 's'),
        Field::ReadOnly => (9, 'n', '-'),
        Field::ManagementEvent => (16, 'm', 't'),
        Field::Request => (7, 't', '-'),
        Field::Response => (8, 's', '-'),
        Field::Resources => (9, 'c', '-'),
    }
}

proof fn lemma_key_mark(field: Field)
    ensures
        field.key_text().len() == key_mark(field).0,
        field.key_text()[6] == key_mark(field).1,
        field.key_text().len() > 9 ==> field.key_text()[9] == key_mark(field).2,
{
    reveal_strlit("event_time");
    reveal_strlit("event_source");
    reveal_strlit("event_name");
    reveal_strlit("aws_region");
    reveal_strlit("account_id");
    reveal_strlit("source_ip");
    reveal_strlit("user_agent");
    reveal_strlit("identity_type");
    reveal_strlit("identity_arn");
    reveal_strlit("identity_name");
    reveal_strlit("mfa_authenticated");
    reveal_strlit("error_code");
    reveal_strlit("error_message");
    reveal_strlit("read_only");
    reveal_strlit("management_event");
    reveal_strlit("request");
    reveal_strlit("response");
    reveal_strlit("resources");
}

/// No two fields share a key, so a key that went out comes back as the field
/// it was taken from.
pub proof fn field_keys_are_distinct(a: Field, b: Field)
    requires
        a.key_text() == b.key_text(),
    ensures
        a == b,
{
    lemma_key_mark(a);
    lemma_key_mark(b);
}

// ------------------------------------------------------------- the paths

/// One step down a path: an object by key, an array by index.
pub open spec fn step(value: Json, segment: Seq<char>) -> Option<Json> {
    match value {
        Json::Object(_) => value.member(segment),
        Json::Array(items) => match number::parse_unsigned(segment, usize::MAX as nat) {
            Some(n) => if n < items@.len() {
                Some(items@[n as int])
            } else {
                None
            },
            None => None,
        },
        _ => None,
    }
}

/// The value reached by these segments.
pub open spec fn descend(value: Json, segments: Seq<Seq<char>>) -> Option<Json>
    decreases segments.len(),
{
    if segments.len() == 0 {
        Some(value)
    } else {
        match step(value, segments[0]) {
            Some(next) => descend(next, segments.drop_first()),
            None => None,
        }
    }
}

/// Both paths end in nothing, or in values that say the same.
pub open spec fn both_alike(a: Option<Json>, b: Option<Json>) -> bool {
    match (a, b) {
        (None, None) => true,
        (Some(x), Some(y)) => json::alike(x, y),
        _ => false,
    }
}

proof fn lemma_alike_pair(
    a: Seq<(String, Json)>,
    b: Seq<(String, Json)>,
    key: Seq<char>,
    i: int,
)
    requires
        0 <= i <= b.len(),
        a.len() == b.len(),
        forall|k: int|
            0 <= k < b.len() ==> a[k].0@ == b[k].0@ && json::alike(a[k].1, (#[trigger] b[k]).1),
    ensures
        both_alike(json::pair_from(a, key, i), json::pair_from(b, key, i)),
    decreases b.len() - i,
{
    if i < b.len() && b[i].0@ != key {
        lemma_alike_pair(a, b, key, i + 1);
    }
}

/// Alike values lead to alike values along any path.
pub proof fn lemma_alike_descend(a: Json, b: Json, segments: Seq<Seq<char>>)
    requires
        json::alike(a, b),
    ensures
        both_alike(descend(a, segments), descend(b, segments)),
    decreases segments.len(),
{
    if segments.len() > 0 {
        let segment = segments[0];
        match (a, b) {
            (Json::Object(x), Json::Object(y)) => {
                lemma_alike_pair(x@, y@, segment, 0);
            },
            _ => {},
        }
        assert(both_alike(step(a, segment), step(b, segment)));
        if step(b, segment) is Some {
            lemma_alike_descend(
                step(a, segment)->Some_0,
                step(b, segment)->Some_0,
                segments.drop_first(),
            );
        }
    }
}

/// What a path leads to lies inside the value it starts from.
pub proof fn lemma_descend_within(root: Json, depth: nat, value: Json, segments: Seq<Seq<char>>)
    requires
        json::lies_within(root, value, depth),
        descend(value, segments) is Some,
    ensures
        json::lies_within(root, descend(value, segments)->Some_0, depth + segments.len()),
    decreases segments.len(),
{
    if segments.len() > 0 {
        let next = step(value, segments[0])->Some_0;
        json::lemma_child_within(root, value, next, depth);
        lemma_descend_within(root, depth + 1, next, segments.drop_first());
    }
}

/// The value at a dotted path.
pub open spec fn value_at(record: Json, path: Seq<char>) -> Option<Json> {
    descend(record, split::split(path, '.'))
}

/// The value at a dotted path; a JSON `null` counts as absent.
pub open spec fn present_at(record: Json, path: Seq<char>) -> Option<Json> {
    match value_at(record, path) {
        Some(Json::Null) => None,
        other => other,
    }
}

/// Walks a dotted path. Numeric segments index arrays, so `resources.0.type`
/// reaches into the list CloudTrail attaches to data events.
pub fn resolve<'a>(record: &'a Json, path: &str) -> (r: Option<&'a Json>)
    ensures
        json::opt_value(r) == value_at(*record, path@),
{
    let segments = split_char(path, '.');
    let ghost all = text::texts(segments@);
    let mut current: &'a Json = record;
    let mut i: usize = 0;
    assert(all.skip(0) =~= all);
    while i < segments.len()
        invariant
            i <= segments@.len(),
            all == text::texts(segments@),
            all == split::split(path@, '.'),
            descend(*record, all) == descend(*current, all.skip(i as int)),
        decreases segments@.len() - i,
    {
        let segment: &str = segments[i].as_str();
        proof {
            assert(all.skip(i as int)[0] == segment@);
            assert(all.skip(i as int).drop_first() =~= all.skip(i + 1));
        }
        match current {
            Json::Object(_) => match current.get(segment) {
                Some(next) => {
                    current = next;
                },
                None => return None,
            },
            Json::Array(items) => match unsigned_of(segment, usize::MAX as u64) {
                Some(n) => {
                    let k: usize = n as usize;
                    if k < items.len() {
                        current = &items[k];
                    } else {
                        return None;
                    }
                },
                None => return None,
            },
            _ => return None,
        }
        i += 1;
    }
    Some(current)
}

/// The value at a dotted path; a JSON `null` counts as absent.
pub fn present<'a>(record: &'a Json, path: &str) -> (r: Option<&'a Json>)
    ensures
        json::opt_value(r) == present_at(*record, path@),
{
    match resolve(record, path) {
        Some(value) => {
            if value.is_null() {
                None
            } else {
                Some(value)
            }
        },
        None => None,
    }
}

// ------------------------------------------------------------- coercions

/// CloudTrail spells booleans three ways: real bools, "true"/"false", and
/// "Yes"/"No" for `additionalEventData.MFAUsed`.
pub open spec fn flag_of(value: Json) -> Option<bool> {
    match value {
        Json::Bool(b) => Some(b),
        Json::Text(t) => if t@ == "Yes"@ || t@ == "true"@ {
            Some(true)
        } else if t@ == "No"@ || t@ == "false"@ {
            Some(false)
        } else {
            None
        },
        _ => None,
    }
}

/// The time that a string names.
pub open spec fn time_of(value: Json) -> Option<Stamp> {
    match value.as_text() {
        Some(t) => stamp::rfc3339_time(t),
        None => None,
    }
}

/// CloudTrail spells booleans three ways: real bools, "true"/"false", and
/// "Yes"/"No" for `additionalEventData.MFAUsed`.
pub fn as_bool(value: &Json) -> (r: Option<bool>)
    ensures
        r == flag_of(*value),
{
    match value {
        Json::Bool(b) => Some(*b),
        Json::Text(t) => {
            let t: &str = t.as_str();
            proof {
                reveal_strlit("Yes");
                reveal_strlit("No");
                reveal_strlit("true");
                reveal_strlit("false");
            }
            if same(t, "Yes") || same(t, "true") {
                Some(true)
            } else if same(t, "No") || same(t, "false") {
                Some(false)
            } else {
                None
            }
        },
        _ => None,
    }
}

// ------------------------------------------------------------ the mapping

/// User-editable source paths per field. Absent entries fall back to the
/// CloudTrail defaults, so a partial mapping only overrides what it names.
#[derive(Debug)]
pub struct FieldMap {
    overrides: TextMap<Vec<String>>,
}

impl FieldMap {
    /// The paths that the mapping names, by key.
    pub closed spec fn named(self) -> Map<Seq<char>, Seq<Seq<char>>> {
        self.overrides@.map_values(|v: Vec<String>| text::texts(v@))
    }

    /// Paths to try for `field`, user-specified or default.
    pub open spec fn paths(self, field: Field) -> Seq<Seq<char>> {
        if self.named().dom().contains(field.key_text()) {
            self.named()[field.key_text()]
        } else {
            field.default_paths()
        }
    }
}

/// The first value from path `i` on that is there and survives `coerce`.
/// Coercion is inside the fallback on purpose: a path whose value cannot be
/// used must fall through to the next path, not give up.
pub open spec fn first_from<T>(
    record: Json,
    paths: Seq<Seq<char>>,
    i: int,
    coerce: spec_fn(Json) -> Option<T>,
) -> Option<T>
    decreases paths.len() - i,
{
    if i < 0 || i >= paths.len() {
        None
    } else {
        let here = match present_at(record, paths[i]) {
            Some(value) => coerce(value),
            None => None,
        };
        match here {
            Some(t) => Some(t),
            None => first_from(record, paths, i + 1, coerce),
        }
    }
}

/// The first value that is there.
pub open spec fn value_in(record: Json, paths: Seq<Seq<char>>) -> Option<Json> {
    first_from(record, paths, 0, |v: Json| Some(v))
}

/// The first string.
pub open spec fn text_in(record: Json, paths: Seq<Seq<char>>) -> Option<Seq<char>> {
    first_from(record, paths, 0, |v: Json| v.as_text())
}

/// The first boolean, however it is spelled.
pub open spec fn flag_in(record: Json, paths: Seq<Seq<char>>) -> Option<bool> {
    first_from(record, paths, 0, |v: Json| flag_of(v))
}

/// The first RFC 3339 time.
pub open spec fn time_in(record: Json, paths: Seq<Seq<char>>) -> Option<Stamp> {
    first_from(record, paths, 0, |v: Json| time_of(v))
}

impl Default for FieldMap {
    fn default() -> (map: Self)
        ensures
            map.named() == Map::<Seq<char>, Seq<Seq<char>>>::empty(),
    {
        FieldMap::new()
    }
}

impl FieldMap {
    /// A mapping that overrides nothing.
    pub fn new() -> (map: FieldMap)
        ensures
            map.named() == Map::<Seq<char>, Seq<Seq<char>>>::empty(),
    {
        let map = FieldMap { overrides: TextMap::new() };
        assert(map.named() =~= Map::empty());
        map
    }

    /// Stores the paths of whatever key, known or not, as a saved mapping
    /// lists them.
    pub fn set_key(&mut self, key: &str, sources: Vec<String>)
        ensures
            final(self).named() == old(self).named().insert(key@, text::texts(sources@)),
    {
        let ghost before = self.named();
        self.overrides.insert(key.to_owned(), sources);
        assert(self.named() =~= before.insert(key@, text::texts(sources@)));
    }

    pub fn set(&mut self, field: Field, sources: Vec<String>)
        ensures
            final(self).named() == old(self).named().insert(
                field.key_text(),
                text::texts(sources@),
            ),
    {
        self.set_key(field.key(), sources);
    }

    /// Paths to try for `field`, user-specified or default.
    pub fn sources(&self, field: Field) -> (r: Vec<&str>)
        ensures
            slices(r@) == self.paths(field),
    {
        match self.overrides.get(field.key()) {
            Some(paths) => {
                let mut r: Vec<&str> = Vec::new();
                let mut i: usize = 0;
                while i < paths.len()
                    invariant
                        i <= paths@.len(),
                        slices(r@) == text::texts(paths@).take(i as int),
                    decreases paths@.len() - i,
                {
                    let ghost before = slices(r@);
                    r.push(paths[i].as_str());
                    assert(slices(r@) =~= before.push(paths@[i as int]@));
                    assert(text::texts(paths@).take(i + 1) =~= before.push(paths@[i as int]@));
                    i += 1;
                }
                assert(text::texts(paths@).take(i as int) =~= text::texts(paths@));
                r
            },
            None => field.default_sources(),
        }
    }

    /// First path that yields a value. Missing paths are not errors: an
    /// absent field is simply absent.
    pub fn lookup<'a>(&self, record: &'a Json, field: Field) -> (r: Option<&'a Json>)
        ensures
            json::opt_value(r) == value_in(*record, self.paths(field)),
    {
        let paths = self.sources(field);
        let ghost all = slices(paths@);
        let mut i: usize = 0;
        while i < paths.len()
            invariant
                i <= paths@.len(),
                all == slices(paths@),
                all == self.paths(field),
                value_in(*record, all) == first_from(*record, all, i as int, |v: Json| Some(v)),
            decreases paths@.len() - i,
        {
            match present(record, paths[i]) {
                Some(value) => {
                    return Some(value);
                },
                None => {},
            }
            i += 1;
        }
        None
    }

    /// First path whose value survives `coerce`.
    pub fn lookup_with<'a, T, F: Fn(&'a Json) -> Option<T>>(
        &self,
        record: &'a Json,
        field: Field,
        coerce: F,
    ) -> (r: Option<T>)
        requires
            forall|v: &'a Json| #[trigger] coerce.requires((v,)),
        ensures
            match r {
                Some(t) => exists|i: int|
                    0 <= i < self.paths(field).len() && #[trigger] yields(
                        *record,
                        self.paths(field)[i],
                        coerce,
                        Some(t),
                    ) && forall|j: int|
                        0 <= j < i ==> #[trigger] yields(
                            *record,
                            self.paths(field)[j],
                            coerce,
                            None,
                        ),
                None => forall|j: int|
                    0 <= j < self.paths(field).len() ==> #[trigger] yields(
                        *record,
                        self.paths(field)[j],
                        coerce,
                        None,
                    ),
            },
    {
        let paths = self.sources(field);
        let ghost all = slices(paths@);
        let mut i: usize = 0;
        while i < paths.len()
            invariant
                i <= paths@.len(),
                all == slices(paths@),
                all == self.paths(field),
                forall|v: &'a Json| #[trigger] coerce.requires((v,)),
                forall|j: int| 0 <= j < i ==> #[trigger] yields(*record, all[j], coerce, None),
            decreases paths@.len() - i,
        {
            assert(all[i as int] == paths@[i as int]@);
            match present(record, paths[i]) {
                Some(value) => {
                    let found = coerce(value);
                    assert(yields(*record, all[i as int], coerce, found));
                    match found {
                        Some(t) => {
                            assert(yields(*record, self.paths(field)[i as int], coerce, Some(t)));
                            return Some(t);
                        },
                        None => {},
                    }
                },
                None => {
                    assert(yields(*record, all[i as int], coerce, None));
                },
            }
            i += 1;
        }
        None
    }

    /// First path that holds a string.
    pub fn lookup_text(&self, record: &Json, field: Field) -> (r: Option<String>)
        ensures
            text::opt(r) == text_in(*record, self.paths(field)),
    {
        let paths = self.sources(field);
        let ghost all = slices(paths@);
        let mut i: usize = 0;
        while i < paths.len()
            invariant
                i <= paths@.len(),
                all == slices(paths@),
                all == self.paths(field),
                text_in(*record, all) == first_from(
                    *record,
                    all,
                    i as int,
                    |v: Json| v.as_text(),
                ),
            decreases paths@.len() - i,
        {
            match present(record, paths[i]) {
                Some(value) => match value.as_str() {
                    Some(t) => {
                        return Some(t.to_owned());
                    },
                    None => {},
                },
                None => {},
            }
            i += 1;
        }
        None
    }

    /// First path that holds a boolean, however it is spelled.
    pub fn lookup_flag(&self, record: &Json, field: Field) -> (r: Option<bool>)
        ensures
            r == flag_in(*record, self.paths(field)),
    {
        let paths = self.sources(field);
        let ghost all = slices(paths@);
        let mut i: usize = 0;
        while i < paths.len()
            invariant
                i <= paths@.len(),
                all == slices(paths@),
                all == self.paths(field),
                flag_in(*record, all) == first_from(*record, all, i as int, |v: Json| flag_of(v)),
            decreases paths@.len() - i,
        {
            match present(record, paths[i]) {
                Some(value) => match as_bool(value) {
                    Some(b) => {
                        return Some(b);
                    },
                    None => {},
                },
                None => {},
            }
            i += 1;
        }
        None
    }

    /// First path that holds an RFC 3339 time.
    pub fn lookup_time(&self, record: &Json, field: Field) -> (r: Option<Stamp>)
        ensures
            r == time_in(*record, self.paths(field)),
    {
        let paths = self.sources(field);
        let ghost all = slices(paths@);
        let mut i: usize = 0;
        while i < paths.len()
            invariant
                i <= paths@.len(),
                all == slices(paths@),
                all == self.paths(field),
                time_in(*record, all) == first_from(*record, all, i as int, |v: Json| time_of(v)),
            decreases paths@.len() - i,
        {
            match present(record, paths[i]) {
                Some(value) => match value.as_str() {
                    Some(t) => match parse_rfc3339(t) {
                        Some(at) => {
                            return Some(at);
                        },
                        None => {},
                    },
                    None => {},
                },
                None => {},
            }
            i += 1;
        }
        None
    }

    /// The built-in CloudTrail mapping, spelled out. Used as the editor's
    /// starting point so the user sees real paths rather than an empty form.
    pub fn cloudtrail() -> (map: FieldMap)
        ensures
            forall|field: Field|
                map.named().dom().contains(#[trigger] field.key_text())
                    && map.named()[field.key_text()] == field.default_paths(),
            forall|key: Seq<char>| #[trigger]
                map.named().dom().contains(key) ==> exists|field: Field| field.key_text() == key,
    {
        let mut map = FieldMap::new();
        let all = Field::ALL;
        let mut i: usize = 0;
        while i < 18
            invariant
                all == Field::ALL,
                i <= 18,
                forall|j: int|
                    0 <= j < i ==> map.named().dom().contains((#[trigger] all@[j]).key_text())
                        && map.named()[all@[j].key_text()] == all@[j].default_paths(),
                forall|key: Seq<char>| #[trigger]
                    map.named().dom().contains(key) ==> exists|field: Field|
                        field.key_text() == key,
            decreases 18 - i,
        {
            let field = all[i];
            let defaults = field.default_sources();
            let mut sources: Vec<String> = Vec::new();
            let mut k: usize = 0;
            while k < defaults.len()
                invariant
                    k <= defaults@.len(),
                    text::texts(sources@) == slices(defaults@).take(k as int),
                decreases defaults@.len() - k,
            {
                let ghost before = text::texts(sources@);
                sources.push(defaults[k].to_owned());
                assert(text::texts(sources@) =~= before.push(defaults@[k as int]@));
                assert(slices(defaults@).take(k + 1) =~= before.push(defaults@[k as int]@));
                k += 1;
            }
            assert(slices(defaults@).take(k as int) =~= slices(defaults@));
            let ghost before = map.named();
            map.set(field, sources);
            assert forall|j: int| 0 <= j < i + 1 implies map.named().dom().contains(
                (#[trigger] all@[j]).key_text(),
            ) && map.named()[all@[j].key_text()] == all@[j].default_paths() by {
                if all@[j].key_text() == field.key_text() {
                    field_keys_are_distinct(all@[j], field);
                }
            }
            i += 1;
        }
        assert forall|field: Field|
            map.named().dom().contains(#[trigger] field.key_text())
                && map.named()[field.key_text()] == field.default_paths() by {
            let j = choose|j: int| 0 <= j < 18 && all@[j] == field;
            lemma_all_fields(field);
        }
        map
    }
}

/// Path `path` of the record gives `out`: its value coerced, or nothing where
/// nothing is there.
pub open spec fn yields<'a, T, F: Fn(&'a Json) -> Option<T>>(
    record: Json,
    path: Seq<char>,
    coerce: F,
    out: Option<T>,
) -> bool {
    match present_at(record, path) {
        Some(value) => coerce.ensures((&value,), out),
        None => out is None,
    }
}

/// Every field is listed.
pub proof fn lemma_all_fields(field: Field)
    ensures
        exists|j: int| 0 <= j < 18 && #[trigger] Field::ALL@[j] == field,
{
    let j: int = match field {
        Field::EventTime => 0,
        Field::EventName => 1,
        Field::EventSource => 2,
        Field::AwsRegion => 3,
        Field::AccountId => 4,
        Field::SourceIp => 5,
        Field::UserAgent => 6,
        Field::IdentityType => 7,
        Field::IdentityArn => 8,
        Field::IdentityName => 9,
        Field::MfaAuthenticated => 10,
        Field::ErrorCode => 11,
        Field::ErrorMessage => 12,
        Field::ReadOnly => 13,
        Field::ManagementEvent => 14,
        Field::Request => 15,
        Field::Response => 16,
        Field::Resources => 17,
    };
    assert(Field::ALL@[j] == field);
}

// ----------------------------------------------------------------- laws

/// An override replaces the paths of the field it names, and of no other.
pub proof fn an_override_changes_one_field(
    before: FieldMap,
    after: FieldMap,
    field: Field,
    paths: Seq<Seq<char>>,
    other: Field,
)
    requires
        after.named() == before.named().insert(field.key_text(), paths),
    ensures
        after.paths(field) == paths,
        other != field ==> after.paths(other) == before.paths(other),
{
    if other != field && other.key_text() == field.key_text() {
        field_keys_are_distinct(other, field);
    }
}

/// What is found does not depend on paths behind the one that yielded it, and
/// a path that yields nothing, or a value that cannot be used, is passed over.
pub proof fn unusable_paths_are_passed_over<T>(
    record: Json,
    paths: Seq<Seq<char>>,
    k: int,
    coerce: spec_fn(Json) -> Option<T>,
)
    requires
        0 <= k < paths.len(),
        forall|j: int|
            0 <= j < k ==> (match present_at(record, #[trigger] paths[j]) {
                Some(value) => coerce(value),
                None => None,
            }) is None,
        present_at(record, paths[k]) is Some,
        coerce(present_at(record, paths[k])->Some_0) is Some,
    ensures
        first_from(record, paths, 0, coerce) == coerce(present_at(record, paths[k])->Some_0),
{
    lemma_passed_over(record, paths, 0, k, coerce);
}

proof fn lemma_passed_over<T>(
    record: Json,
    paths: Seq<Seq<char>>,
    i: int,
    k: int,
    coerce: spec_fn(Json) -> Option<T>,
)
    requires
        0 <= i <= k < paths.len(),
        forall|j: int|
            i <= j < k ==> (match present_at(record, #[trigger] paths[j]) {
                Some(value) => coerce(value),
                None => None,
            }) is None,
        present_at(record, paths[k]) is Some,
        coerce(present_at(record, paths[k])->Some_0) is Some,
    ensures
        first_from(record, paths, i, coerce) == coerce(present_at(record, paths[k])->Some_0),
    decreases k - i,
{
    if i < k {
        lemma_passed_over(record, paths, i + 1, k, coerce);
    }
}

} // verus!
