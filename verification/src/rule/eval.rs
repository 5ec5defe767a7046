//! Rule evaluation. A rule either matches with the values that fired, or does
//! not match; event data never produces an evaluation error.

use vstd::prelude::*;

use crate::json;
use crate::json::{to_text, Json};
use crate::mapping;
use crate::model::NormalizedEvent;
use crate::number;
use crate::number::parse_double;
use crate::rule;
use crate::rule::pattern;
use crate::rule::{Condition, FieldCondition, Literal, Op, Rule};
use crate::split;
use crate::split::{folded, has_prefix, has_suffix, has_text};
use crate::stamp;
use crate::stamp::rfc3339;
use crate::text;
use crate::text::{chars_of, lowered, same, string_of};
use crate::textmap::TextMap;

verus! {

// ---------------------------------------------------------------- values

/// A field value of an event.
pub ghost enum Datum {
    Text(Seq<char>),
    Bool(bool),
    /// Numbers, arrays and objects out of a JSON column.
    Json(Json),
}

impl Datum {
    pub open spec fn of_json(value: Json) -> Datum {
        match value {
            Json::Text(t) => Datum::Text(t@),
            Json::Bool(b) => Datum::Bool(b),
            other => Datum::Json(other),
        }
    }

    /// The text form the string operators and the evidence use.
    pub open spec fn text(self) -> Seq<char> {
        match self {
            Datum::Text(t) => t,
            Datum::Bool(true) => "true"@,
            Datum::Bool(false) => "false"@,
            Datum::Json(v) => json::json_text(v),
        }
    }

    /// The bits of the double the value is compared as. Numeric strings still
    /// compare numerically.
    pub open spec fn number(self) -> Option<u64> {
        match self {
            Datum::Text(t) => match number::double_of(t) {
                Some(d) => Some(d.bits),
                None => None,
            },
            Datum::Json(Json::Number(n)) => Some(n.bits),
            _ => None,
        }
    }
}

/// The text of the JSON column of that name.
pub open spec fn column_text(event: NormalizedEvent, column: Seq<char>) -> Option<Seq<char>> {
    if column == "request"@ {
        text::opt(event.request)
    } else if column == "response"@ {
        text::opt(event.response)
    } else if column == "resources"@ {
        text::opt(event.resources)
    } else if column == "raw"@ {
        text::opt(event.raw)
    } else {
        None
    }
}

pub open spec fn is_json_column(column: Seq<char>) -> bool {
    column == "request"@ || column == "response"@ || column == "resources"@ || column == "raw"@
}

/// The JSON column of that name, parsed.
pub open spec fn column_json(event: NormalizedEvent, column: Seq<char>) -> Option<Json> {
    match column_text(event, column) {
        Some(t) => json::json_of(t),
        None => None,
    }
}

pub open spec fn of_text(value: Option<String>) -> Option<Datum> {
    match value {
        Some(t) => Some(Datum::Text(t@)),
        None => None,
    }
}

pub open spec fn of_bool(value: Option<bool>) -> Option<Datum> {
    match value {
        Some(b) => Some(Datum::Bool(b)),
        None => None,
    }
}

/// The stored column of that name.
pub open spec fn column(event: NormalizedEvent, name: Seq<char>) -> Option<Datum> {
    if name == "event_time"@ {
        match event.event_time {
            Some(at) => Some(Datum::Text(stamp::shown(at))),
            None => None,
        }
    } else if name == "event_source"@ {
        of_text(event.event_source)
    } else if name == "event_name"@ {
        of_text(event.event_name)
    } else if name == "aws_region"@ {
        of_text(event.aws_region)
    } else if name == "account_id"@ {
        of_text(event.account_id)
    } else if name == "source_ip"@ {
        of_text(event.source_ip)
    } else if name == "user_agent"@ {
        of_text(event.user_agent)
    } else if name == "identity_type"@ {
        of_text(event.identity_type)
    } else if name == "identity_arn"@ {
        of_text(event.identity_arn)
    } else if name == "identity_name"@ {
        of_text(event.identity_name)
    } else if name == "mfa_authenticated"@ {
        of_bool(event.mfa_authenticated)
    } else if name == "error_code"@ {
        of_text(event.error_code)
    } else if name == "error_message"@ {
        of_text(event.error_message)
    } else if name == "read_only"@ {
        of_bool(event.read_only)
    } else if name == "management_event"@ {
        of_bool(event.management_event)
    } else if name == "request"@ {
        of_text(event.request)
    } else if name == "response"@ {
        of_text(event.response)
    } else if name == "resources"@ {
        of_text(event.resources)
    } else if name == "raw"@ {
        of_text(event.raw)
    } else {
        None
    }
}

/// What a rule field name addresses in an event. Dotted paths reach into the
/// JSON columns, arrays by index as in `resources.0.ARN`; a JSON `null` is
/// nothing.
pub open spec fn field_value(field: Seq<char>, event: NormalizedEvent) -> Option<Datum> {
    match split::split_once(field, '.') {
        Some((name, path)) => match column_json(event, name) {
            Some(root) => match mapping::present_at(root, path) {
                Some(value) => Some(Datum::of_json(value)),
                None => None,
            },
            None => None,
        },
        None => column(event, field),
    }
}

/// A rule finds the like of this value; a `null` is nothing.
pub open spec fn finds_like(found: Option<Datum>, value: Option<Json>) -> bool {
    match value {
        None | Some(Json::Null) => found is None,
        Some(Json::Text(t)) => found == Some(Datum::Text(t@)),
        Some(Json::Bool(b)) => found == Some(Datum::Bool(b)),
        Some(other) => found matches Some(Datum::Json(v)) && json::alike(v, other),
    }
}

/// What a rule finds where a column holds this.
pub open spec fn finds(found: Option<Datum>, cell: json::Cell) -> bool {
    match cell {
        json::Cell::Null => found is None,
        json::Cell::Text(t) => found == Some(Datum::Text(t)),
        json::Cell::Whole(n) => found matches Some(Datum::Json(Json::Number(m))) && m.unsigned
            == Some(n as u64),
        json::Cell::Double(_) => found matches Some(Datum::Json(Json::Number(_))),
        json::Cell::Part(v) => finds_like(found, Some(v)),
    }
}

/// A rule finds in the JSON columns of an event, under each plain key, what
/// was written there.
pub open spec fn finds_what_was_written(event: NormalizedEvent) -> bool {
    forall|column: Seq<char>, entries: Seq<json::Entry>, k: int|
        #![trigger column_text(event, column), json::entries_text(entries), entries[k]]
        column_text(event, column) == Some(json::entries_text(entries)) && json::sound(entries) && (
        json::all_flat(entries) || column_json(event, column) is Some) && 0 <= k < entries.len()
            && !entries[k].key.contains('.') ==> finds(
            field_value(column + "."@ + entries[k].key, event),
            entries[k].cell,
        )
}

/// A rule finds in a JSON column that keeps a part of a record what that part
/// has at the same path.
pub open spec fn finds_what_was_kept(event: NormalizedEvent) -> bool {
    forall|column: Seq<char>, v: Json, path: Seq<char>|
        #![trigger column_text(event, column), mapping::present_at(v, path)]
        column_text(event, column) == Some(json::json_text(v)) && json::is_part(v) && (
        json::only_counts(v) || column_json(event, column) is Some) ==> finds_like(
            field_value(column + "."@ + path, event),
            mapping::present_at(v, path),
        )
}

/// A column that keeps a part of a record is alike that part.
spec fn column_alike(event: NormalizedEvent, column: Seq<char>) -> bool {
    forall|v: Json|
        column_text(event, column) == Some(#[trigger] json::json_text(v)) && json::is_part(v) && (
        json::only_counts(v) || column_json(event, column) is Some) ==> (column_json(
            event,
            column,
        ) matches Some(value) && json::alike(value, v))
}

/// A column holds an object with these members.
spec fn column_reads_back(event: NormalizedEvent, column: Seq<char>) -> bool {
    forall|entries: Seq<json::Entry>|
        column_text(event, column) == Some(#[trigger] json::entries_text(entries)) && json::sound(
            entries,
        ) && (json::all_flat(entries) || column_json(event, column) is Some) ==> (column_json(
            event,
            column,
        ) matches Some(value) && json::reads_back(value, entries))
}

/// The first dot of a field name parts the column from the path.
pub proof fn lemma_column_and_path(column: Seq<char>, path: Seq<char>)
    requires
        is_json_column(column),
    ensures
        split::split_once(column + "."@ + path, '.') == Some((column, path)),
{
    let field = column + "."@ + path;
    reveal_strlit(".");
    reveal_strlit("request");
    reveal_strlit("response");
    reveal_strlit("resources");
    reveal_strlit("raw");
    split::lemma_find_from(field, '.', 0);
    let at = column.len() as int;
    assert(field[at] == '.');
    match split::find_from(field, '.', 0) {
        Some(found) => {
            if found < at {
                assert(field[found] == column[found]);
            }
        },
        None => {},
    }
    assert(field.take(at) =~= column);
    assert(field.skip(at + 1) =~= path);
}

proof fn lemma_finds(
    event: NormalizedEvent,
    column: Seq<char>,
    entries: Seq<json::Entry>,
    k: int,
)
    requires
        column_text(event, column) is Some,
        column_json(event, column) matches Some(value) && json::reads_back(value, entries),
        0 <= k < entries.len(),
        !entries[k].key.contains('.'),
    ensures
        finds(field_value(column + "."@ + entries[k].key, event), entries[k].cell),
{
    let key = entries[k].key;
    lemma_column_and_path(column, key);
    split::lemma_find_from(key, '.', 0);
    match split::find_from(key, '.', 0) {
        Some(found) => {
            assert(key.contains(key[found]));
        },
        None => {},
    }
    assert(key.skip(0) =~= key);
    let path = split::split(key, '.');
    assert(path =~= seq![key]);
    let value = column_json(event, column)->Some_0;
    let member = value.member(key)->Some_0;
    assert(path.drop_first() =~= Seq::empty());
    assert(mapping::descend(member, path.drop_first()) == Some(member));
    assert(mapping::value_at(value, key) == Some(member));
}

proof fn lemma_finds_like(event: NormalizedEvent, column: Seq<char>, v: Json, path: Seq<char>)
    requires
        column_text(event, column) is Some,
        column_json(event, column) matches Some(value) && json::alike(value, v),
    ensures
        finds_like(field_value(column + "."@ + path, event), mapping::present_at(v, path)),
{
    lemma_column_and_path(column, path);
    let value = column_json(event, column)->Some_0;
    mapping::lemma_alike_descend(value, v, split::split(path, '.'));
}

// ------------------------------------------------------------ conditions

pub open spec fn equal_to(actual: Datum, expected: rule::LiteralModel) -> bool {
    match (actual, expected) {
        (Datum::Text(a), rule::LiteralModel::Str(b)) => a == b,
        (Datum::Bool(a), rule::LiteralModel::Bool(b)) => a == b,
        // CloudTrail writes some booleans as strings.
        (Datum::Text(a), rule::LiteralModel::Bool(b)) => a == Datum::Bool(b).text(),
        (Datum::Json(Json::Number(a)), rule::LiteralModel::Num(b)) => number::double_eq(
            a.bits,
            b.bits,
        ),
        (Datum::Json(Json::Number(a)), rule::LiteralModel::Str(b)) => a.text@ == b,
        _ => false,
    }
}

pub open spec fn ordered(op: Op, a: u64, b: u64) -> bool {
    match op {
        Op::Gt => number::double_lt(b, a),
        Op::Ge => number::double_lt(b, a) || number::double_eq(a, b),
        Op::Lt => number::double_lt(a, b),
        Op::Le => number::double_lt(a, b) || number::double_eq(a, b),
        _ => false,
    }
}

/// Numeric comparison. A non-numeric field or literal does not match.
pub open spec fn compares(op: Op, actual: Datum, expected: rule::LiteralModel) -> bool {
    match (actual.number(), expected) {
        (Some(a), rule::LiteralModel::Num(b)) => ordered(op, a, b.bits),
        _ => false,
    }
}

/// The substring family; three of its members ignore ASCII case.
pub open spec fn has_part(op: Op, whole: Seq<char>, part: Seq<char>) -> bool {
    match op {
        Op::Contains => split::contains(whole, part),
        Op::StartsWith => split::starts_with(whole, part),
        Op::EndsWith => split::ends_with(whole, part),
        Op::IContains => split::contains(text::fold(whole), text::fold(part)),
        Op::IStartsWith => split::starts_with(text::fold(whole), text::fold(part)),
        Op::IEndsWith => split::ends_with(text::fold(whole), text::fold(part)),
        _ => false,
    }
}

/// A value that is there satisfies the comparison.
pub open spec fn satisfies(condition: rule::FieldModel, actual: Datum) -> bool {
    match condition.op {
        Op::Exists => true,
        Op::Missing => false,
        Op::Eq => equal_to(actual, condition.value),
        Op::Ne => !equal_to(actual, condition.value),
        Op::Matches => match condition.value {
            rule::LiteralModel::Regex(re) => pattern::regex_matches(re, actual.text()),
            _ => false,
        },
        Op::In => match condition.value {
            rule::LiteralModel::OneOf(items) => items.contains(actual.text()),
            _ => false,
        },
        Op::Gt | Op::Ge | Op::Lt | Op::Le => compares(condition.op, actual, condition.value),
        _ => match condition.value.as_text() {
            Some(part) => has_part(condition.op, actual.text(), part),
            None => false,
        },
    }
}

/// The text of the value a field condition fired on, or `None` when it did
/// not. `missing` fires on nothing at all, and its evidence is empty.
pub open spec fn fires(condition: rule::FieldModel, event: NormalizedEvent) -> Option<Seq<char>> {
    match field_value(condition.field, event) {
        Some(actual) => if satisfies(condition, actual) {
            Some(actual.text())
        } else {
            None
        },
        None => if condition.op == Op::Missing {
            Some(Seq::empty())
        } else {
            None
        },
    }
}

/// A field condition bound to `var` fires.
pub open spec fn var_fires(
    fields: Seq<rule::FieldModel>,
    event: NormalizedEvent,
    var: Seq<char>,
) -> bool {
    exists|i: int|
        0 <= i < fields.len() && (#[trigger] fields[i]).var == var && fires(fields[i], event) is Some
}

/// How many of `vars` from `i` on fire; each listed entry counts on its own.
pub open spec fn firing_from(
    fields: Seq<rule::FieldModel>,
    event: NormalizedEvent,
    vars: Seq<Seq<char>>,
    i: int,
) -> nat
    decreases vars.len() - i,
{
    if i < 0 || i >= vars.len() {
        0
    } else {
        firing_from(fields, event, vars, i + 1) + if var_fires(fields, event, vars[i]) {
            1nat
        } else {
            0nat
        }
    }
}

pub open spec fn holds(
    condition: rule::ConditionModel,
    fields: Seq<rule::FieldModel>,
    event: NormalizedEvent,
) -> bool
    decreases condition,
{
    match condition {
        rule::ConditionModel::Var(var) => var_fires(fields, event, var),
        rule::ConditionModel::Not(inner) => !holds(*inner, fields, event),
        rule::ConditionModel::And(a, b) => holds(*a, fields, event) && holds(*b, fields, event),
        rule::ConditionModel::Or(a, b) => holds(*a, fields, event) || holds(*b, fields, event),
        rule::ConditionModel::NOf(count, vars) => firing_from(fields, event, vars, 0) >= count,
    }
}

/// The rule matches the event.
pub open spec fn matches(rule: rule::RuleModel, event: NormalizedEvent) -> bool {
    holds(rule.condition, rule.fields, event)
}

/// What the first `n` field conditions leave as evidence: every one that
/// fired, not only those the condition consulted; the last value wins.
pub open spec fn evidence_of(fields: Seq<rule::FieldModel>, event: NormalizedEvent, n: nat) -> Map<
    Seq<char>,
    Seq<char>,
>
    decreases n,
{
    if n == 0 || n > fields.len() {
        Map::empty()
    } else {
        let before = evidence_of(fields, event, (n - 1) as nat);
        match fires(fields[n - 1], event) {
            Some(value) => before.insert(fields[n - 1].var, value),
            None => before,
        }
    }
}

// ------------------------------------------------------------ event view

/// Holds per-event work shared by every rule and field condition: the JSON
/// columns parsed once, the time formatted once.
pub struct EventView<'a> {
    event: &'a NormalizedEvent,
    request: Option<Json>,
    response: Option<Json>,
    resources: Option<Json>,
    raw: Option<Json>,
    time: Option<String>,
}

fn parsed_column(text: &Option<String>) -> (r: Option<Json>)
    ensures
        r == (match text::opt(*text) {
            Some(t) => json::json_of(t),
            None => None,
        }),
        forall|entries: Seq<json::Entry>|
            text::opt(*text) == Some(#[trigger] json::entries_text(entries)) && json::sound(entries)
                && (json::all_flat(entries) || r is Some) ==> (r matches Some(value)
                && json::reads_back(value, entries)),
        forall|v: Json|
            text::opt(*text) == Some(#[trigger] json::json_text(v)) && json::is_part(v) && (
            json::only_counts(v) || r is Some) ==> (r matches Some(value) && json::alike(value, v)),
{
    match text {
        Some(t) => json::parse(t.as_str()),
        None => None,
    }
}

/// The names of the JSON columns are four different texts.
pub proof fn lemma_json_columns()
    ensures
        "request"@ != "response"@,
        "request"@ != "resources"@,
        "request"@ != "raw"@,
        "response"@ != "resources"@,
        "response"@ != "raw"@,
        "resources"@ != "raw"@,
{
    reveal_strlit("request");
    reveal_strlit("response");
    reveal_strlit("resources");
    reveal_strlit("raw");
    assert("request"@[2] != "response"@[2]);
    assert("request"@[2] != "resources"@[2]);
    assert("response"@[3] != "resources"@[3]);
}

impl<'a> EventView<'a> {
    /// The event being looked at.
    pub closed spec fn event(self) -> NormalizedEvent {
        *self.event
    }

    #[verifier::type_invariant]
    spec fn wf(self) -> bool {
        &&& self.request == column_json(*self.event, "request"@)
        &&& self.response == column_json(*self.event, "response"@)
        &&& self.resources == column_json(*self.event, "resources"@)
        &&& self.raw == column_json(*self.event, "raw"@)
        &&& text::opt(self.time) == (match self.event.event_time {
            Some(at) => Some(stamp::shown(at)),
            None => None,
        })
    }

    pub fn new(event: &'a NormalizedEvent) -> (view: Self)
        ensures
            view.event() == *event,
            finds_what_was_written(*event),
            finds_what_was_kept(*event),
    {
        proof {
            lemma_json_columns();
        }
        let request = parsed_column(&event.request);
        let response = parsed_column(&event.response);
        let resources = parsed_column(&event.resources);
        let raw = parsed_column(&event.raw);
        let time: Option<String> = match event.event_time {
            Some(at) => Some(rfc3339(at)),
            None => None,
        };
        proof {
            assert(column_reads_back(*event, "request"@));
            assert(column_reads_back(*event, "response"@));
            assert(column_reads_back(*event, "resources"@));
            assert(column_reads_back(*event, "raw"@));
            assert forall|column: Seq<char>, entries: Seq<json::Entry>, k: int|
                #![trigger column_text(*event, column), json::entries_text(entries), entries[k]]
                column_text(*event, column) == Some(json::entries_text(entries)) && json::sound(
                    entries,
                ) && (json::all_flat(entries) || column_json(*event, column) is Some) && 0 <= k
                    < entries.len() && !entries[k].key.contains('.') implies finds(
                field_value(column + "."@ + entries[k].key, *event),
                entries[k].cell,
            ) by {
                assert(column_reads_back(*event, column));
                lemma_finds(*event, column, entries, k);
            }
            assert(column_alike(*event, "request"@));
            assert(column_alike(*event, "response"@));
            assert(column_alike(*event, "resources"@));
            assert(column_alike(*event, "raw"@));
            assert forall|column: Seq<char>, v: Json, path: Seq<char>|
                #![trigger column_text(*event, column), mapping::present_at(v, path)]
                column_text(*event, column) == Some(json::json_text(v)) && json::is_part(v) && (
                json::only_counts(v) || column_json(*event, column) is Some) implies finds_like(
                field_value(column + "."@ + path, *event),
                mapping::present_at(v, path),
            ) by {
                assert(column_alike(*event, column));
                lemma_finds_like(*event, column, v, path);
            }
        }
        EventView { event, request, response, resources, raw, time }
    }

    fn json(&self, column: &str) -> (r: Option<&Json>)
        ensures
            json::opt_value(r) == column_json(self.event(), column@),
    {
        proof {
            use_type_invariant(self);
        }
        if same(column, "request") {
            self.request.as_ref()
        } else if same(column, "response") {
            self.response.as_ref()
        } else if same(column, "resources") {
            self.resources.as_ref()
        } else if same(column, "raw") {
            self.raw.as_ref()
        } else {
            None
        }
    }
}

/// A field value borrowed from the event or from its parsed JSON.
enum Val<'a> {
    Text(&'a str),
    Bool(bool),
    Json(&'a Json),
}

impl<'a> View for Val<'a> {
    type V = Datum;

    closed spec fn view(&self) -> Datum {
        match self {
            Val::Text(t) => Datum::Text(t@),
            Val::Bool(b) => Datum::Bool(*b),
            Val::Json(v) => Datum::Json(**v),
        }
    }
}

spec fn opt_val(value: Option<Val>) -> Option<Datum> {
    match value {
        Some(v) => Some(v@),
        None => None,
    }
}

fn text_val<'a>(value: &'a Option<String>) -> (r: Option<Val<'a>>)
    ensures
        opt_val(r) == of_text(*value),
{
    match value {
        Some(t) => Some(Val::Text(t.as_str())),
        None => None,
    }
}

fn bool_val<'a>(value: Option<bool>) -> (r: Option<Val<'a>>)
    ensures
        opt_val(r) == of_bool(value),
{
    match value {
        Some(b) => Some(Val::Bool(b)),
        None => None,
    }
}

fn json_val<'a>(value: &'a Json) -> (r: Val<'a>)
    ensures
        r@ == Datum::of_json(*value),
{
    match value {
        Json::Text(t) => Val::Text(t.as_str()),
        Json::Bool(b) => Val::Bool(*b),
        other => Val::Json(other),
    }
}

impl<'a> Val<'a> {
    fn text(&self) -> (out: String)
        ensures
            out@ == self@.text(),
    {
        match self {
            Val::Text(t) => (*t).to_owned(),
            Val::Bool(b) => {
                if *b {
                    "true".to_owned()
                } else {
                    "false".to_owned()
                }
            },
            Val::Json(v) => to_text(v),
        }
    }

    fn number(&self) -> (r: Option<u64>)
        ensures
            r == self@.number(),
    {
        match self {
            Val::Text(t) => match parse_double(t) {
                Some(d) => Some(d.bits),
                None => None,
            },
            Val::Json(Json::Number(n)) => Some(n.bits),
            _ => None,
        }
    }
}

/// Maps a rule field name to the event.
fn resolve<'v>(field: &str, view: &'v EventView<'v>) -> (r: Option<Val<'v>>)
    ensures
        opt_val(r) == field_value(field@, view.event()),
{
    proof {
        use_type_invariant(view);
    }
    let chars = chars_of(field);
    let len: usize = chars.len();
    match split::find_char(&chars, '.', 0) {
        Some(k) => {
            let name = string_of(&chars, 0, k);
            let path = string_of(&chars, k + 1, len);
            assert(name@ =~= field@.take(k as int));
            assert(path@ =~= field@.skip(k + 1));
            let root = match view.json(name.as_str()) {
                Some(root) => root,
                None => return None,
            };
            match mapping::present(root, path.as_str()) {
                Some(value) => Some(json_val(value)),
                None => None,
            }
        },
        None => {
            let event = view.event;
            if same(field, "event_time") {
                text_val(&view.time)
            } else if same(field, "event_source") {
                text_val(&event.event_source)
            } else if same(field, "event_name") {
                text_val(&event.event_name)
            } else if same(field, "aws_region") {
                text_val(&event.aws_region)
            } else if same(field, "account_id") {
                text_val(&event.account_id)
            } else if same(field, "source_ip") {
                text_val(&event.source_ip)
            } else if same(field, "user_agent") {
                text_val(&event.user_agent)
            } else if same(field, "identity_type") {
                text_val(&event.identity_type)
            } else if same(field, "identity_arn") {
                text_val(&event.identity_arn)
            } else if same(field, "identity_name") {
                text_val(&event.identity_name)
            } else if same(field, "mfa_authenticated") {
                bool_val(event.mfa_authenticated)
            } else if same(field, "error_code") {
                text_val(&event.error_code)
            } else if same(field, "error_message") {
                text_val(&event.error_message)
            } else if same(field, "read_only") {
                bool_val(event.read_only)
            } else if same(field, "management_event") {
                bool_val(event.management_event)
            } else if same(field, "request") {
                text_val(&event.request)
            } else if same(field, "response") {
                text_val(&event.response)
            } else if same(field, "resources") {
                text_val(&event.resources)
            } else if same(field, "raw") {
                text_val(&event.raw)
            } else {
                None
            }
        },
    }
}

fn equals(actual: &Val, expected: &Literal) -> (b: bool)
    ensures
        b == equal_to(actual@, expected@),
{
    match (actual, expected) {
        (Val::Text(a), Literal::Str(b)) => same(a, b.as_str()),
        (Val::Bool(a), Literal::Bool(b)) => *a == *b,
        (Val::Text(a), Literal::Bool(b)) => same(
            a,
            if *b {
                "true"
            } else {
                "false"
            },
        ),
        (Val::Json(Json::Number(a)), Literal::Num(b)) => number::equal(a.bits, b.bits),
        (Val::Json(Json::Number(a)), Literal::Str(b)) => same(a.text.as_str(), b.as_str()),
        _ => false,
    }
}

fn compare(actual: &Val, op: Op, expected: &Literal) -> (b: bool)
    ensures
        b == compares(op, actual@, expected@),
{
    let expected: u64 = match expected {
        Literal::Num(d) => d.bits,
        _ => return false,
    };
    let value: u64 = match actual.number() {
        Some(bits) => bits,
        None => return false,
    };
    match op {
        Op::Gt => number::less(expected, value),
        Op::Ge => number::less(expected, value) || number::equal(value, expected),
        Op::Lt => number::less(value, expected),
        Op::Le => number::less(value, expected) || number::equal(value, expected),
        _ => false,
    }
}

/// Above this many bytes, folding into a copy and searching that beats
/// folding in place.
const FOLD_INTO_COPY_ABOVE: usize = 96;

/// `haystack` contains `needle`, ASCII case aside.
pub fn contains_ascii_case(haystack: &str, needle: &str) -> (b: bool)
    ensures
        b == split::contains(text::fold(haystack@), text::fold(needle@)),
{
    if haystack.len() > FOLD_INTO_COPY_ABOVE {
        let copy = folded(haystack);
        let part = folded(needle);
        return has_text(copy.as_str(), part.as_str());
    }
    let whole = chars_of(haystack);
    let part = chars_of(needle);
    let ghost h = text::fold(haystack@);
    let ghost n = text::fold(needle@);
    if part.len() > whole.len() {
        assert forall|k: int| !split::is_at(h, n, k) by {}
        return false;
    }
    let total: usize = whole.len();
    let last: usize = total - part.len();
    let mut at: usize = 0;
    while at <= last
        invariant
            whole@ == haystack@,
            part@ == needle@,
            h == text::fold(haystack@),
            n == text::fold(needle@),
            last + part@.len() == whole@.len() == total,
            at <= last + 1,
            forall|k: int| 0 <= k < at ==> !split::is_at(h, n, k),
        decreases last + 1 - at,
    {
        let mut j: usize = 0;
        let mut equal: bool = true;
        while equal && j < part.len()
            invariant
                whole@ == haystack@,
                part@ == needle@,
                h == text::fold(haystack@),
                n == text::fold(needle@),
                last + part@.len() == whole@.len() == total,
                at <= last,
                j <= part@.len(),
                equal ==> forall|k: int| 0 <= k < j ==> h[at + k] == #[trigger] n[k],
                !equal ==> !split::is_at(h, n, at as int),
            decreases part@.len() - j, equal as int,
        {
            if lowered(whole[at + j]) == lowered(part[j]) {
                j += 1;
            } else {
                assert(h.subrange(at as int, at + n.len())[j as int] != n[j as int]);
                equal = false;
            }
        }
        if equal {
            assert(h.subrange(at as int, at + n.len()) =~= n);
            assert(split::is_at(h, n, at as int));
            return true;
        }
        if at == last {
            assert forall|k: int| !split::is_at(h, n, k) by {}
            return false;
        }
        at += 1;
    }
    assert forall|k: int| !split::is_at(h, n, k) by {}
    false
}

/// The substring family.
fn substring(actual: &Val, op: Op, value: &Literal) -> (b: bool)
    ensures
        b == (match value@.as_text() {
            Some(part) => has_part(op, actual@.text(), part),
            None => false,
        }),
{
    let needle: &str = match value.as_str() {
        Some(needle) => needle,
        None => return false,
    };
    let whole = actual.text();
    match op {
        Op::Contains => has_text(whole.as_str(), needle),
        Op::StartsWith => has_prefix(whole.as_str(), needle),
        Op::EndsWith => has_suffix(whole.as_str(), needle),
        Op::IContains => contains_ascii_case(whole.as_str(), needle),
        Op::IStartsWith => has_prefix(folded(whole.as_str()).as_str(), folded(needle).as_str()),
        Op::IEndsWith => has_suffix(folded(whole.as_str()).as_str(), folded(needle).as_str()),
        _ => false,
    }
}

fn in_list(items: &Vec<String>, wanted: &str) -> (b: bool)
    ensures
        b == text::texts(items@).contains(wanted@),
{
    let mut i: usize = 0;
    while i < items.len()
        invariant
            i <= items@.len(),
            forall|j: int| 0 <= j < i ==> (#[trigger] text::texts(items@)[j]) != wanted@,
        decreases items@.len() - i,
    {
        if same(items[i].as_str(), wanted) {
            assert(text::texts(items@)[i as int] == wanted@);
            return true;
        }
        i += 1;
    }
    false
}

/// The evidence text when the condition fired, or `None` when it did not.
fn check(condition: &FieldCondition, view: &EventView) -> (r: Option<String>)
    ensures
        text::opt(r) == fires(condition@, view.event()),
{
    let actual = match resolve(condition.field.as_str(), view) {
        Some(actual) => actual,
        None => {
            return match condition.op {
                Op::Missing => Some(String::new()),
                _ => None,
            };
        },
    };
    let satisfied: bool = match condition.op {
        Op::Exists => true,
        Op::Missing => false,
        Op::Eq => equals(&actual, &condition.value),
        Op::Ne => !equals(&actual, &condition.value),
        Op::Matches => match &condition.value {
            Literal::Regex(re) => re.is_match(actual.text().as_str()),
            _ => false,
        },
        Op::In => match &condition.value {
            Literal::OneOf(items) => in_list(items, actual.text().as_str()),
            _ => false,
        },
        Op::Gt | Op::Ge | Op::Lt | Op::Le => compare(&actual, condition.op, &condition.value),
        _ => substring(&actual, condition.op, &condition.value),
    };
    if satisfied {
        Some(actual.text())
    } else {
        None
    }
}

// -------------------------------------------------------- lazy evaluation

/// The memo bit for a field condition, when it has one.
pub fn memo(index: usize) -> (r: Option<u64>)
    ensures
        r == (if index < 64 {
            Some(1u64 << index as u64)
        } else {
            None
        }),
{
    if index < 64 {
        Some(1u64 << index as u64)
    } else {
        None
    }
}

/// Bit `i` is set.
spec fn bit(bits: u64, i: int) -> bool {
    bits & (1u64 << i as u64) != 0
}

proof fn lemma_set_bit(bits: u64, i: u64, j: u64)
    requires
        i < 64,
        j < 64,
    ensures
        bit(bits | (1u64 << i), j as int) == (i == j || bit(bits, j as int)),
{
    assert((bits | (1u64 << i)) & (1u64 << j) != 0 <==> (i == j || bits & (1u64 << j) != 0))
        by (bit_vector)
        requires
            i < 64,
            j < 64,
    ;
}

proof fn lemma_no_bits(j: u64)
    ensures
        !bit(0, j as int),
{
    assert(0u64 & (1u64 << j) == 0) by (bit_vector);
}

/// Runs field conditions on demand: the condition decides which ones are
/// needed, so `$a and $b` never pays for `$b` once `$a` failed, and a field
/// the condition does not name is not touched while rejecting.
struct Lazy<'r, 'v> {
    fields: &'r Vec<FieldCondition>,
    view: &'v EventView<'v>,
    /// One bit per field condition: `known` marks the ones already run and
    /// `held` the ones that fired. Beyond 64 the memo stops caching.
    known: u64,
    held: u64,
}

impl<'r, 'v> Lazy<'r, 'v> {
    spec fn models(self) -> Seq<rule::FieldModel> {
        rule::field_models(self.fields@)
    }

    /// What the memo says of a condition is true of it.
    spec fn wf(self) -> bool {
        forall|i: int|
            #![trigger bit(self.known, i)]
            #![trigger bit(self.held, i)]
            0 <= i < 64 ==> {
                &&& bit(self.held, i) ==> bit(self.known, i)
                &&& i < self.fields@.len() && bit(self.known, i) ==> (bit(self.held, i) == (fires(
                    self.fields@[i]@,
                    self.view.event(),
                ) is Some))
            }
    }

    fn new(rule: &'r Rule, view: &'v EventView<'v>) -> (lazy: Self)
        ensures
            lazy.wf(),
            lazy.fields == &rule.fields,
            lazy.view == view,
    {
        let lazy = Lazy { fields: &rule.fields, view, known: 0, held: 0 };
        assert forall|i: int| 0 <= i < 64 implies !(#[trigger] bit(0, i)) by {
            lemma_no_bits(i as u64);
        }
        lazy
    }

    /// True when field `index` was already run and did not hold, so it cannot
    /// appear in the evidence either.
    fn rejected(&self, index: usize) -> (b: bool)
        requires
            self.wf(),
            index < self.fields@.len(),
        ensures
            b == (index < 64 && bit(self.known, index as int) && !bit(self.held, index as int)),
            b ==> fires(self.fields@[index as int]@, self.view.event()) is None,
    {
        match memo(index) {
            Some(mask) => {
                assert(mask == 1u64 << index as u64);
                let was_known: bool = self.known & mask != 0;
                let was_held: bool = self.held & mask != 0;
                assert(was_known == bit(self.known, index as int));
                assert(was_held == bit(self.held, index as int));
                was_known && !was_held
            },
            None => false,
        }
    }

    /// True when any field condition bound to `var` holds.
    fn var(&mut self, var: &str) -> (b: bool)
        requires
            old(self).wf(),
        ensures
            final(self).wf(),
            final(self).fields == old(self).fields,
            final(self).view == old(self).view,
            b == var_fires(old(self).models(), old(self).view.event(), var@),
    {
        let fields = self.fields;
        let view = self.view;
        let ghost models = rule::field_models(fields@);
        let ghost event = view.event();
        let mut index: usize = 0;
        while index < fields.len()
            invariant
                self.wf(),
                self.fields == fields,
                fields == old(self).fields,
                self.view == view,
                view == old(self).view,
                models == rule::field_models(fields@),
                event == view.event(),
                index <= fields@.len(),
                forall|j: int|
                    0 <= j < index && (#[trigger] models[j]).var == var@ ==> fires(
                        models[j],
                        event,
                    ) is None,
            decreases fields@.len() - index,
        {
            let field: &FieldCondition = &fields[index];
            assert(models[index as int] == field@);
            if same(field.var.as_str(), var) {
                let slot = memo(index);
                let mut ran: bool = false;
                let mut verdict: bool = false;
                match slot {
                    Some(mask) => {
                        assert(mask == 1u64 << index as u64);
                        if self.known & mask != 0 {
                            assert(bit(self.known, index as int));
                            ran = true;
                            verdict = self.held & mask != 0;
                            assert(verdict == bit(self.held, index as int));
                        }
                    },
                    None => {},
                }
                if !ran {
                    verdict = check(field, view).is_some();
                    match slot {
                        Some(mask) => {
                            let ghost before = *self;
                            self.known = self.known | mask;
                            if verdict {
                                self.held = self.held | mask;
                            }
                            assert(mask == 1u64 << index as u64);
                            assert forall|i: int|
                                #![trigger bit(self.known, i)]
                                #![trigger bit(self.held, i)]
                                0 <= i < 64 implies {
                                &&& bit(self.held, i) ==> bit(self.known, i)
                                &&& i < fields@.len() && bit(self.known, i) ==> (bit(self.held, i)
                                    == (fires(fields@[i]@, event) is Some))
                            } by {
                                lemma_set_bit(before.known, index as u64, i as u64);
                                lemma_set_bit(before.held, index as u64, i as u64);
                                if bit(before.held, i) {
                                    assert(bit(before.known, i));
                                }
                                if i != index && bit(self.known, i) {
                                    assert(bit(before.known, i));
                                }
                            }
                        },
                        None => {},
                    }
                }
                if verdict {
                    assert(models[index as int].var == var@);
                    return true;
                }
            }
            index += 1;
        }
        false
    }
}

proof fn lemma_firing_bound(
    fields: Seq<rule::FieldModel>,
    event: NormalizedEvent,
    vars: Seq<Seq<char>>,
    i: int,
)
    requires
        0 <= i <= vars.len(),
    ensures
        firing_from(fields, event, vars, i) <= vars.len() - i,
    decreases vars.len() - i,
{
    if i < vars.len() {
        lemma_firing_bound(fields, event, vars, i + 1);
    }
}

/// The condition holds, asking only for the field conditions it needs.
fn decide(condition: &Condition, lazy: &mut Lazy) -> (b: bool)
    requires
        old(lazy).wf(),
    ensures
        final(lazy).wf(),
        final(lazy).fields == old(lazy).fields,
        final(lazy).view == old(lazy).view,
        b == holds(condition@, old(lazy).models(), old(lazy).view.event()),
    decreases condition,
{
    match condition {
        Condition::Var(var) => lazy.var(var.as_str()),
        Condition::Not(inner) => !decide(inner, lazy),
        Condition::And(a, b) => decide(a, lazy) && decide(b, lazy),
        Condition::Or(a, b) => decide(a, lazy) || decide(b, lazy),
        Condition::NOf(count, vars) => {
            // Each listed entry counts on its own. Stops as soon as the count
            // is reached, or once what is left cannot reach it.
            let ghost names = text::texts(vars@);
            let ghost models = lazy.models();
            let ghost event = lazy.view.event();
            let mut hits: usize = 0;
            let mut i: usize = 0;
            while i < vars.len()
                invariant
                    lazy.wf(),
                    lazy.fields == old(lazy).fields,
                    lazy.view == old(lazy).view,
                    models == old(lazy).models(),
                    event == old(lazy).view.event(),
                    names == text::texts(vars@),
                    condition@ == rule::ConditionModel::NOf(*count as nat, names),
                    hits <= i <= vars@.len(),
                    firing_from(models, event, names, 0) == hits + firing_from(
                        models,
                        event,
                        names,
                        i as int,
                    ),
                decreases vars@.len() - i,
            {
                proof {
                    lemma_firing_bound(models, event, names, i as int);
                }
                if hits >= *count {
                    return true;
                }
                if hits + (vars.len() - i) < *count {
                    return false;
                }
                if lazy.var(vars[i].as_str()) {
                    hits += 1;
                }
                i += 1;
            }
            hits >= *count
        },
    }
}

/// A rule hit plus the evidence for it.
#[derive(Debug)]
pub struct Match {
    pub rule_id: String,
    /// Variable name to the value that satisfied it.
    pub matched_fields: TextMap<String>,
}

/// The evidence a hit carries.
pub fn evidence(rule: &Rule, view: &EventView) -> (r: Option<TextMap<String>>)
    ensures
        match r {
            Some(found) => matches(rule@, view.event()) && rule::texts_of(found@) == evidence_of(
                rule@.fields,
                view.event(),
                rule@.fields.len(),
            ),
            None => !matches(rule@, view.event()),
        },
{
    let mut lazy = Lazy::new(rule, view);
    if !decide(&rule.condition, &mut lazy) {
        return None;
    }
    // Every field that fired, so the results view can explain the whole rule.
    // The ones the lazy pass already rejected cannot contribute and are not
    // run again; the ones that held are, to read their value back out.
    let ghost models = rule@.fields;
    let ghost event = view.event();
    let mut satisfied: TextMap<String> = TextMap::new();
    let mut index: usize = 0;
    assert(rule::texts_of(satisfied@) =~= Map::empty());
    while index < rule.fields.len()
        invariant
            lazy.wf(),
            lazy.fields == &rule.fields,
            lazy.view == view,
            models == rule::field_models(rule.fields@),
            event == view.event(),
            index <= rule.fields@.len(),
            rule::texts_of(satisfied@) == evidence_of(models, event, index as nat),
        decreases rule.fields@.len() - index,
    {
        let field: &FieldCondition = &rule.fields[index];
        assert(models[index as int] == field@);
        if !lazy.rejected(index) {
            match check(field, view) {
                Some(value) => {
                    let ghost before = rule::texts_of(satisfied@);
                    let ghost shown = value@;
                    satisfied.insert(field.var.clone(), value);
                    assert(rule::texts_of(satisfied@) =~= before.insert(field.var@, shown));
                },
                None => {},
            }
        }
        index += 1;
    }
    Some(satisfied)
}

/// Evaluates one rule against a cached event view.
pub fn evaluate_view(rule: &Rule, view: &EventView) -> (r: Option<Match>)
    ensures
        match r {
            Some(hit) => matches(rule@, view.event()) && hit.rule_id@ == rule.id@
                && rule::texts_of(hit.matched_fields@) == evidence_of(
                rule@.fields,
                view.event(),
                rule@.fields.len(),
            ),
            None => !matches(rule@, view.event()),
        },
{
    match evidence(rule, view) {
        Some(matched_fields) => Some(Match { rule_id: rule.id.clone(), matched_fields }),
        None => None,
    }
}

/// Evaluates one rule against one event, finding in its JSON columns what was
/// written or kept there. Prefer [`evaluate_view`] when several
/// rules run against the same event.
pub fn evaluate(rule: &Rule, event: &NormalizedEvent) -> (r: Option<Match>)
    ensures
        match r {
            Some(hit) => matches(rule@, *event) && hit.rule_id@ == rule.id@ && rule::texts_of(
                hit.matched_fields@,
            ) == evidence_of(rule@.fields, *event, rule@.fields.len()),
            None => !matches(rule@, *event),
        },
        finds_what_was_written(*event),
        finds_what_was_kept(*event),
{
    let view = EventView::new(event);
    evaluate_view(rule, &view)
}

/// Decides a rule without building any evidence.
fn matches_view(rule: &Rule, view: &EventView) -> (b: bool)
    ensures
        b == matches(rule@, view.event()),
{
    let mut lazy = Lazy::new(rule, view);
    decide(&rule.condition, &mut lazy)
}

/// True when any rule matches. Shares one `EventView` across the set and never
/// builds evidence, which is all a rule-count preview needs.
pub fn evaluate_any(rules: &[&Rule], event: &NormalizedEvent) -> (b: bool)
    ensures
        b == exists|i: int| 0 <= i < rules@.len() && matches((#[trigger] rules@[i])@, *event),
{
    let view = EventView::new(event);
    let mut i: usize = 0;
    while i < rules.len()
        invariant
            view.event() == *event,
            i <= rules@.len(),
            forall|j: int| 0 <= j < i ==> !matches((#[trigger] rules@[j])@, *event),
        decreases rules@.len() - i,
    {
        if matches_view(rules[i], &view) {
            return true;
        }
        i += 1;
    }
    false
}

// ----------------------------------------------------------------- laws

/// An absent field never satisfies a value comparison, `!=` among them; only
/// `missing` fires on it.
pub proof fn absent_fields_fire_only_missing(condition: rule::FieldModel, event: NormalizedEvent)
    requires
        field_value(condition.field, event) is None,
    ensures
        fires(condition, event) is Some <==> condition.op == Op::Missing,
{
}

/// The evidence of a hit names exactly the variables that fired, whether or
/// not the condition consulted them.
pub proof fn evidence_names_what_fired(
    fields: Seq<rule::FieldModel>,
    event: NormalizedEvent,
    var: Seq<char>,
)
    ensures
        evidence_of(fields, event, fields.len()).dom().contains(var) <==> var_fires(
            fields,
            event,
            var,
        ),
{
    lemma_evidence_names(fields, event, var, fields.len());
}

proof fn lemma_evidence_names(
    fields: Seq<rule::FieldModel>,
    event: NormalizedEvent,
    var: Seq<char>,
    n: nat,
)
    requires
        n <= fields.len(),
    ensures
        evidence_of(fields, event, n).dom().contains(var) <==> exists|i: int|
            0 <= i < n && (#[trigger] fields[i]).var == var && fires(fields[i], event) is Some,
    decreases n,
{
    if n > 0 {
        lemma_evidence_names(fields, event, var, (n - 1) as nat);
        if fields[n - 1].var == var && fires(fields[n - 1], event) is Some {
            assert(fields[n - 1].var == var);
        }
    }
}

/// A variable bound more than once keeps the last value that fired.
pub proof fn evidence_keeps_the_last_value(
    fields: Seq<rule::FieldModel>,
    event: NormalizedEvent,
    i: int,
)
    requires
        0 <= i < fields.len(),
        fires(fields[i], event) is Some,
        forall|j: int|
            i < j < fields.len() && (#[trigger] fields[j]).var == fields[i].var ==> fires(
                fields[j],
                event,
            ) is None,
    ensures
        evidence_of(fields, event, fields.len())[fields[i].var] == fires(fields[i], event)->Some_0,
{
    lemma_last_value(fields, event, i, fields.len());
}

proof fn lemma_last_value(
    fields: Seq<rule::FieldModel>,
    event: NormalizedEvent,
    i: int,
    n: nat,
)
    requires
        0 <= i < n <= fields.len(),
        fires(fields[i], event) is Some,
        forall|j: int|
            i < j < n && (#[trigger] fields[j]).var == fields[i].var ==> fires(fields[j], event) is None,
    ensures
        evidence_of(fields, event, n)[fields[i].var] == fires(fields[i], event)->Some_0,
        evidence_of(fields, event, n).dom().contains(fields[i].var),
    decreases n,
{
    if n > i + 1 {
        lemma_last_value(fields, event, i, (n - 1) as nat);
        assert(fields[n - 1].var == fields[i].var ==> fires(fields[n - 1], event) is None);
    }
}

/// `N of` counts listed entries: with none it is met by zero only, and an
/// entry in front adds one where its variable fires.
pub proof fn n_of_counts_listed_entries(
    fields: Seq<rule::FieldModel>,
    event: NormalizedEvent,
    var: Seq<char>,
    vars: Seq<Seq<char>>,
)
    ensures
        firing_from(fields, event, Seq::empty(), 0) == 0,
        firing_from(fields, event, seq![var] + vars, 0) == firing_from(fields, event, vars, 0)
            + if var_fires(fields, event, var) {
            1nat
        } else {
            0nat
        },
{
    lemma_firing_shift(fields, event, var, vars, 0);
}

proof fn lemma_firing_shift(
    fields: Seq<rule::FieldModel>,
    event: NormalizedEvent,
    var: Seq<char>,
    vars: Seq<Seq<char>>,
    i: int,
)
    requires
        0 <= i <= vars.len(),
    ensures
        firing_from(fields, event, seq![var] + vars, i + 1) == firing_from(
            fields,
            event,
            vars,
            i,
        ),
    decreases vars.len() - i,
{
    if i < vars.len() {
        lemma_firing_shift(fields, event, var, vars, i + 1);
        assert((seq![var] + vars)[i + 1] == vars[i]);
    }
}

} // verus!
