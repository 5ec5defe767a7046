//! Sets of rules: which rule runs where, what a hit says, and how a rule is
//! put into words.

use vstd::prelude::*;

use crate::mapping;
use crate::mapping::Field;
use crate::model::NormalizedEvent;
use crate::number;
use crate::rule;
use crate::rule::eval;
use crate::rule::explain;
use crate::rule::Op;
use crate::split;

verus! {

// -------------------------------------------------------------------- sets

proof fn lemma_index(rules: Seq<rule::RuleModel>, id: Seq<char>, i: int)
    requires
        0 <= i,
    ensures
        match rule::set::index_from(rules, id, i) {
            Some(k) => i <= k < rules.len() && rules[k].id == id && forall|j: int|
                i <= j < k ==> (#[trigger] rules[j]).id != id,
            None => forall|j: int| i <= j < rules.len() ==> (#[trigger] rules[j]).id != id,
        },
    decreases rules.len() - i,
{
    if i < rules.len() && rules[i].id != id {
        lemma_index(rules, id, i + 1);
    }
}

/// A rule takes the place of the one with its id, or the place behind the
/// last; the others keep theirs.
pub proof fn a_rule_takes_the_place_of_its_id(
    rules: Seq<rule::RuleModel>,
    r: rule::RuleModel,
    k: int,
)
    ensures
        rule::set::put(rules, r).contains(r),
        0 <= k < rules.len() && rules[k].id != r.id ==> rule::set::put(rules, r)[k] == rules[k],
        (forall|j: int| 0 <= j < rules.len() ==> (#[trigger] rules[j]).id != r.id) ==> rule::set::put(
            rules,
            r,
        ) == rules.push(r),
        (exists|j: int| 0 <= j < rules.len() && (#[trigger] rules[j]).id == r.id) ==> rule::set::put(
            rules,
            r,
        ).len() == rules.len(),
{
    lemma_index(rules, r.id, 0);
    match rule::set::index_from(rules, r.id, 0) {
        Some(i) => {
            assert(rule::set::put(rules, r)[i] == r);
        },
        None => {
            assert(rule::set::put(rules, r)[rules.len() as int] == r);
        },
    }
}

/// A rule that names a log type runs on events of that type and no other; one
/// that names none runs on all.
pub proof fn rules_run_on_the_type_they_name(r: rule::RuleModel, log_type: Seq<char>)
    ensures
        r.meta.dom().contains("log_type"@) ==> (r.runs_on(log_type) <==> r.meta["log_type"@]
            == log_type),
        !r.meta.dom().contains("log_type"@) ==> r.runs_on(log_type),
        rule::set::wanted(r, Some(log_type)) <==> r.runs_on(log_type),
        rule::set::wanted(r, None),
{
}

proof fn lemma_running(rules: Seq<rule::RuleModel>, log_type: Seq<char>, n: nat)
    requires
        n <= rules.len(),
    ensures
        rule::set::running(rules, log_type, n) == rules.take(n as int).filter(
            |r: rule::RuleModel| r.runs_on(log_type),
        ),
    decreases n,
{
    reveal(Seq::filter);
    let wanted = |r: rule::RuleModel| r.runs_on(log_type);
    if n > 0 {
        lemma_running(rules, log_type, (n - 1) as nat);
        assert(rules.take(n as int).drop_last() =~= rules.take(n - 1));
        assert(rules.take(n as int).last() == rules[n - 1]);
    } else {
        assert(rules.take(0) =~= Seq::empty());
    }
}

/// The rules that run on a log type are those of the set that do, in order.
pub proof fn the_running_rules_are_those_that_run(
    rules: Seq<rule::RuleModel>,
    log_type: Seq<char>,
)
    ensures
        rule::set::running(rules, log_type, rules.len()) == rules.filter(
            |r: rule::RuleModel| r.runs_on(log_type),
        ),
{
    lemma_running(rules, log_type, rules.len());
    assert(rules.take(rules.len() as int) =~= rules);
}

/// The rule runs on events of this type, where one is given, and matches.
pub open spec fn hits_event(
    r: rule::RuleModel,
    log_type: Option<Seq<char>>,
    event: NormalizedEvent,
) -> bool {
    eval::matches(r, event) && match log_type {
        Some(t) => r.runs_on(t),
        None => true,
    }
}

/// A hit of this rule, on this event, with its evidence.
pub open spec fn is_hit(
    hit: rule::set::HitModel,
    r: rule::RuleModel,
    event_id: u64,
    event: NormalizedEvent,
) -> bool {
    hit.rule_id == r.id && hit.event_id == event_id && hit.fields == eval::evidence_of(
        r.fields,
        event,
        r.fields.len(),
    )
}

proof fn lemma_hits(
    rules: Seq<rule::RuleModel>,
    n: nat,
    log_type: Option<Seq<char>>,
    event_id: u64,
    event: NormalizedEvent,
)
    requires
        n <= rules.len(),
    ensures
        rule::set::hits_on(rules, n, log_type, event_id, event) == rules.take(n as int).filter(
            |r: rule::RuleModel| hits_event(r, log_type, event),
        ).map_values(|r: rule::RuleModel| rule::set::hit_of(r, event_id, event)),
    decreases n,
{
    reveal(Seq::filter);
    let struck = |r: rule::RuleModel| hits_event(r, log_type, event);
    let hit = |r: rule::RuleModel| rule::set::hit_of(r, event_id, event);
    let hits = rule::set::hits_on(rules, n, log_type, event_id, event);
    if n > 0 {
        lemma_hits(rules, (n - 1) as nat, log_type, event_id, event);
        assert(rules.take(n as int).drop_last() =~= rules.take(n - 1));
        assert(rules.take(n as int).last() == rules[n - 1]);
        let before = rules.take(n - 1).filter(struck);
        assert(before.push(rules[n - 1]).map_values(hit) =~= before.map_values(hit).push(
            hit(rules[n - 1]),
        ));
        assert(struck(rules[n - 1]) <==> rule::set::strikes(rules[n - 1], log_type, event));
    } else {
        assert(rules.take(0) =~= Seq::empty());
        assert(hits =~= rules.take(0).filter(struck).map_values(hit));
    }
}

/// An event is a hit of every rule that runs on its type and matches it, in
/// the order of the rules, and of no other; the hit names the rule and the
/// event and has the rule's evidence.
pub proof fn hits_are_the_rules_that_match(
    rules: Seq<rule::RuleModel>,
    log_type: Option<Seq<char>>,
    event_id: u64,
    event: NormalizedEvent,
)
    ensures
        ({
            let hits = rule::set::hits_on(rules, rules.len(), log_type, event_id, event);
            let struck = rules.filter(|r: rule::RuleModel| hits_event(r, log_type, event));
            hits.len() == struck.len() && forall|k: int|
                0 <= k < hits.len() ==> is_hit(#[trigger] hits[k], struck[k], event_id, event)
        }),
{
    lemma_hits(rules, rules.len(), log_type, event_id, event);
    assert(rules.take(rules.len() as int) =~= rules);
}

/// Each event counts once for every rule it is a hit of, and as unmatched
/// when it is a hit of none; its hits wait behind the earlier ones, and all
/// go on together once there are enough.
pub proof fn a_stream_counts_each_event(
    s: rule::set::StreamModel,
    log_type: Option<Seq<char>>,
    event_id: u64,
    event: NormalizedEvent,
)
    requires
        s.counts.len() == s.rules.len(),
    ensures
        ({
            let (next, out) = rule::set::streamed(s, log_type, event_id, event);
            let hits = rule::set::hits_on(s.rules, s.rules.len(), log_type, event_id, event);
            &&& next.total == s.total + 1
            &&& next.unmatched == if hits.len() == 0 {
                s.unmatched + 1
            } else {
                s.unmatched
            }
            &&& forall|i: int|
                0 <= i < s.rules.len() ==> #[trigger] next.counts[i] == if hits_event(
                    s.rules[i],
                    log_type,
                    event,
                ) {
                    s.counts[i] + 1
                } else {
                    s.counts[i]
                }
            &&& s.pending.len() + hits.len() >= s.batch ==> out == Some(s.pending + hits)
                && next.pending.len() == 0
            &&& s.pending.len() + hits.len() < s.batch ==> out is None && next.pending == s.pending
                + hits
            &&& next.rules == s.rules && next.batch == s.batch
        }),
{
    let (next, _) = rule::set::streamed(s, log_type, event_id, event);
    assert forall|i: int| 0 <= i < s.rules.len() implies #[trigger] next.counts[i] == if hits_event(
        s.rules[i],
        log_type,
        event,
    ) {
        s.counts[i] + 1
    } else {
        s.counts[i]
    } by {
        assert(rule::set::strikes(s.rules[i], log_type, event) <==> hits_event(
            s.rules[i],
            log_type,
            event,
        ));
    }
}

/// An event counts as matched when a rule of the set matches it, and as
/// unmatched otherwise; a rule's hits are the events it matches, in order.
pub proof fn events_count_as_matched_or_not(
    rules: Seq<rule::RuleModel>,
    r: rule::RuleModel,
    events: Seq<(u64, &NormalizedEvent)>,
    n: nat,
)
    requires
        0 < n <= events.len(),
    ensures
        ({
            let event = *events[n - 1].1;
            let before = (n - 1) as nat;
            let hit = exists|i: int| 0 <= i < rules.len() && eval::matches(#[trigger] rules[i], event);
            &&& rule::set::events_matched(rules, events, n, true) == rule::set::events_matched(
                rules,
                events,
                before,
                true,
            ) + if hit {
                1nat
            } else {
                0
            }
            &&& rule::set::events_matched(rules, events, n, false) == rule::set::events_matched(
                rules,
                events,
                before,
                false,
            ) + if hit {
                0nat
            } else {
                1
            }
            &&& rule::set::rule_hits(r, events, n) == if eval::matches(r, event) {
                rule::set::rule_hits(r, events, before).push(
                    rule::set::hit_of(r, events[n - 1].0, event),
                )
            } else {
                rule::set::rule_hits(r, events, before)
            }
        }),
        rule::set::events_matched(rules, events, 0, true) == 0,
        rule::set::events_matched(rules, events, 0, false) == 0,
        rule::set::rule_hits(r, events, 0).len() == 0,
{
}

/// A summary line has its rule's severity and description; a rule without
/// them has `unknown` and nothing.
pub proof fn summaries_say_how_grave_a_rule_is(
    lines: Seq<rule::set::RuleSummary>,
    s: rule::set::StreamModel,
    i: int,
)
    requires
        rule::set::summarized(lines, s),
        0 <= i < lines.len(),
    ensures
        lines[i].rule_id@ == s.rules[i].id,
        s.rules[i].meta.dom().contains("severity"@) ==> lines[i].severity@
            == s.rules[i].meta["severity"@],
        !s.rules[i].meta.dom().contains("severity"@) ==> lines[i].severity@ == "unknown"@,
        s.rules[i].meta.dom().contains("description"@) ==> lines[i].description@
            == s.rules[i].meta["description"@],
        !s.rules[i].meta.dom().contains("description"@) ==> lines[i].description@ == ""@,
        lines[i].match_count == s.counts[i],
{
}

/// A file that does not parse is recorded with its error and changes nothing
/// else; one that does adds no error.
pub proof fn broken_files_change_no_rule(
    before: rule::set::SetModel,
    path: Seq<char>,
    src: Seq<char>,
    by_user: bool,
)
    ensures
        ({
            let after = rule::set::with_file(before, path, src, by_user);
            match rule::parser::parsed(src) {
                Ok(rules) => after.errors == before.errors && (rules.len() == 1 ==> (
                after.rules.contains(rules[0]) && after.user.dom().contains(rules[0].id)
                    && after.user[rules[0].id] == by_user)),
                Err(e) => after.rules == before.rules && after.sources == before.sources
                    && after.user == before.user && after.errors.len() == before.errors.len() + 1
                    && after.errors.last().path == path && after.errors.last().message == e.shown(),
            }
        }),
{
    match rule::parser::parsed(src) {
        Ok(rules) => {
            if rules.len() == 1 {
                reveal_with_fuel(rule::set::put_all, 2);
                reveal_with_fuel(rule::set::mark, 2);
                a_rule_takes_the_place_of_its_id(before.rules, rules[0], 0);
            }
        },
        Err(_) => {},
    }
}

/// A snapshot has the shipped files under their names and the user's behind
/// a prefix.
pub proof fn snapshots_tell_whose_file_it_is(
    shipped: Seq<(Seq<char>, Seq<char>)>,
    user: Seq<(Seq<char>, Seq<char>)>,
    i: int,
)
    ensures
        rule::set::snapshot(shipped, user).len() == shipped.len() + user.len(),
        0 <= i < shipped.len() ==> rule::set::snapshot(shipped, user)[i] == shipped[i],
        0 <= i < user.len() ==> rule::set::snapshot(shipped, user)[shipped.len() + i].0 == "user-"@
            + user[i].0 && rule::set::snapshot(shipped, user)[shipped.len() + i].1 == user[i].1,
{
}

/// An error says its line and its rule, and what is wrong.
pub proof fn rule_errors_say_where(
    id: Seq<char>,
    line: nat,
    what: Seq<char>,
    e: rule::lex::LexErrorModel,
)
    ensures
        (rule::parser::ParseErrorModel::Syntax { rule: id, line, message: what }).shown() == "line "@
            + number::decimal(line) + ": rule `"@ + id + "`: "@ + what,
        (rule::parser::ParseErrorModel::UndefinedVar { rule: id, line, var: what }).shown()
            == "line "@ + number::decimal(line) + ": rule `"@ + id + "`: "@
            + "condition uses undefined variable `"@ + what + "`"@,
        (rule::parser::ParseErrorModel::UnsupportedOp { rule: id, line, op: what }).shown()
            == "line "@ + number::decimal(line) + ": rule `"@ + id + "`: "@
            + "unsupported operator `"@ + what + "`"@,
        (rule::parser::ParseErrorModel::DuplicateId { id }).shown() == "duplicate rule id `"@ + id
            + "`"@,
        rule::parser::ParseErrorModel::Lex(e).shown() == "rule syntax error: "@ + "line "@
            + number::decimal(e.line) + ": "@ + e.message,
{
}

/// A rule file is anything in front of `.yar`, and something is in front.
pub proof fn rule_files_end_in_yar(base: Seq<char>, name: Seq<char>)
    ensures
        base.len() > 0 ==> rule::set::names_rules(base + ".yar"@),
        !rule::set::names_rules(".yar"@),
        rule::set::names_rules(name) ==> exists|b: Seq<char>| b.len() > 0 && name == b + ".yar"@,
{
    reveal_strlit(".yar");
    let whole = base + ".yar"@;
    assert(whole.subrange(base.len() as int, whole.len() as int) =~= ".yar"@);
    if base.len() > 0 {
        assert(whole.len() != ".yar"@.len());
    }
    if rule::set::names_rules(name) {
        let cut = name.len() - ".yar"@.len();
        assert(name =~= name.take(cut) + ".yar"@);
        if cut == 0 {
            assert(name =~= ".yar"@);
        }
    }
}

/// The column a field path starts in is what stands before its first dot or
/// bracket.
pub proof fn fields_start_in_their_column(column: Seq<char>, rest: Seq<char>)
    requires
        !column.contains('.'),
        !column.contains('['),
    ensures
        rule::column_of(column) == column,
        rule::column_of(column + "."@ + rest) == column,
        rule::column_of(column + "["@ + rest) == column,
{
    reveal_strlit(".");
    reveal_strlit("[");
    lemma_segment(column, Seq::empty(), 0);
    lemma_segment(column, "."@ + rest, 0);
    lemma_segment(column, "["@ + rest, 0);
    assert(column + Seq::<char>::empty() =~= column);
    assert(column + ("."@ + rest) =~= column + "."@ + rest);
    assert(column + ("["@ + rest) =~= column + "["@ + rest);
    assert((column + "."@ + rest).take(column.len() as int) =~= column);
    assert((column + "["@ + rest).take(column.len() as int) =~= column);
    assert(column.take(column.len() as int) =~= column);
}

proof fn lemma_segment(column: Seq<char>, tail: Seq<char>, i: int)
    requires
        0 <= i <= column.len(),
        !column.contains('.'),
        !column.contains('['),
        tail.len() > 0 ==> tail[0] == '.' || tail[0] == '[',
    ensures
        rule::segment_end(column + tail, i) == column.len(),
    decreases column.len() - i,
{
    let s = column + tail;
    if i < column.len() {
        assert(s[i] == column[i]);
        assert(column.contains(column[i]));
        lemma_segment(column, tail, i + 1);
    } else if tail.len() > 0 {
        assert(s[i] == tail[0]);
    }
}

// ------------------------------------------------------------------- words

/// A mapped column goes by its display name, any other field by its path.
pub proof fn fields_go_by_their_name(f: Field, field: Seq<char>)
    ensures
        explain::name_of(f.key_text()) == f.label_text(),
        (forall|g: Field| #[trigger] g.key_text() != field) ==> explain::name_of(field) == field,
        Field::EventTime.label_text() == "이벤트 시각"@,
        Field::EventSource.label_text() == "서비스"@,
        Field::EventName.label_text() == "이벤트 이름"@,
        Field::AwsRegion.label_text() == "리전"@,
        Field::AccountId.label_text() == "계정 ID"@,
        Field::SourceIp.label_text() == "출발지 IP"@,
        Field::UserAgent.label_text() == "User-Agent"@,
        Field::IdentityType.label_text() == "주체 유형"@,
        Field::IdentityArn.label_text() == "주체 ARN"@,
        Field::IdentityName.label_text() == "주체 이름"@,
        Field::MfaAuthenticated.label_text() == "MFA 사용"@,
        Field::ErrorCode.label_text() == "오류 코드"@,
        Field::ErrorMessage.label_text() == "오류 메시지"@,
        Field::ReadOnly.label_text() == "읽기 전용"@,
        Field::ManagementEvent.label_text() == "관리 이벤트"@,
        Field::Request.label_text() == "요청 파라미터"@,
        Field::Response.label_text() == "응답 요소"@,
        Field::Resources.label_text() == "대상 리소스"@,
{
    let g = choose|g: Field| #[trigger] g.key_text() == f.key_text();
    mapping::field_keys_are_distinct(f, g);
}

/// Each operator is worded its own way around the field and the value.
pub proof fn operators_are_worded_apart(c: rule::FieldModel)
    ensures
        ({
            let name = explain::name_of(c.field);
            let value = explain::literal_text(c.value);
            &&& c.op == Op::Exists ==> explain::field_text(c) == name + " 있음"@
            &&& c.op == Op::Missing ==> explain::field_text(c) == name + " 없음"@
            &&& c.op == Op::In ==> explain::field_text(c) == name + " 값이 다음 중 하나: "@ + value
            &&& c.op == Op::Contains ==> explain::field_text(c) == name + " 값에 "@ + value
                + " 포함"@
            &&& c.op == Op::IContains ==> explain::field_text(c) == name + " 값에 "@ + value
                + " 포함(대소문자 무시)"@
            &&& c.op == Op::StartsWith ==> explain::field_text(c) == name + " 값이 "@ + value
                + "로 시작"@
            &&& c.op == Op::IStartsWith ==> explain::field_text(c) == name + " 값이 "@ + value
                + "로 시작(대소문자 무시)"@
            &&& c.op == Op::EndsWith ==> explain::field_text(c) == name + " 값이 "@ + value
                + "로 끝남"@
            &&& c.op == Op::IEndsWith ==> explain::field_text(c) == name + " 값이 "@ + value
                + "로 끝남(대소문자 무시)"@
            &&& c.op == Op::Matches ==> explain::field_text(c) == name + " 값이 정규식 "@ + value
                + " 일치"@
            &&& c.op == Op::Eq ==> explain::field_text(c) == name + " 값이 "@ + value
            &&& c.op == Op::Ne ==> explain::field_text(c) == name + " 값이 "@ + value + " 아님"@
            &&& c.op == Op::Gt ==> explain::field_text(c) == name + " 값이 "@ + value + " 초과"@
            &&& c.op == Op::Ge ==> explain::field_text(c) == name + " 값이 "@ + value + " 이상"@
            &&& c.op == Op::Lt ==> explain::field_text(c) == name + " 값이 "@ + value + " 미만"@
            &&& c.op == Op::Le ==> explain::field_text(c) == name + " 값이 "@ + value + " 이하"@
        }),
{
}

/// A value is shown as it is written in a rule.
pub proof fn values_are_worded_as_written(
    t: Seq<char>,
    d: number::DoubleModel,
    items: Seq<Seq<char>>,
)
    ensures
        explain::literal_text(rule::LiteralModel::Str(t)) == "\""@ + t + "\""@,
        explain::literal_text(rule::LiteralModel::Regex(t)) == "/"@ + t + "/"@,
        explain::literal_text(rule::LiteralModel::Num(d)) == d.shown,
        explain::literal_text(rule::LiteralModel::Bool(true)) == "true"@,
        explain::literal_text(rule::LiteralModel::Bool(false)) == "false"@,
        explain::literal_text(rule::LiteralModel::Nothing) == Seq::<char>::empty(),
        explain::literal_text(rule::LiteralModel::OneOf(items)) == split::join(
            Seq::new(items.len(), |i: int| "\""@ + items[i] + "\""@),
            ", "@,
        ),
{
    assert(explain::all_in_quotes(items) =~= Seq::new(
        items.len(),
        |i: int| "\""@ + items[i] + "\""@,
    ));
}

/// Where a condition of one kind stands inside one of the other it is put in
/// parentheses; elsewhere it is not.
pub open spec fn wrapped(text: Seq<char>, other_kind: bool) -> Seq<char> {
    if other_kind {
        "("@ + text + ")"@
    } else {
        text
    }
}

/// `and`, `or`, `not` and `N of` in words.
pub proof fn conditions_are_worded_apart(
    a: rule::ConditionModel,
    b: rule::ConditionModel,
    n: nat,
    vars: Seq<Seq<char>>,
    fields: Seq<rule::FieldModel>,
)
    ensures
        ({
            let x = explain::condition_text(a, fields);
            let y = explain::condition_text(b, fields);
            &&& explain::condition_text(
                rule::ConditionModel::And(Box::new(a), Box::new(b)),
                fields,
            ) == wrapped(x, a is Or) + " 그리고 "@ + wrapped(y, b is Or)
            &&& explain::condition_text(
                rule::ConditionModel::Or(Box::new(a), Box::new(b)),
                fields,
            ) == wrapped(x, a is And) + " 또는 "@ + wrapped(y, b is And)
            &&& explain::condition_text(rule::ConditionModel::Not(Box::new(a)), fields)
                == "다음이 아님 ("@ + x + ")"@
            &&& explain::condition_text(rule::ConditionModel::NOf(n, vars), fields) == "다음 중 "@
                + number::decimal(n) + "개: "@ + split::join(
                Seq::new(
                    vars.len(),
                    |i: int| explain::condition_text(rule::ConditionModel::Var(vars[i]), fields),
                ),
                ", "@,
            )
        }),
{
    assert(explain::var_texts(vars, fields) =~= Seq::new(
        vars.len(),
        |i: int| explain::condition_text(rule::ConditionModel::Var(vars[i]), fields),
    ));
}

/// A variable is worded by the last field bound to it.
pub proof fn variables_are_worded_by_their_last_field(
    fields: Seq<rule::FieldModel>,
    k: int,
)
    requires
        0 <= k < fields.len(),
        forall|j: int|
            k < j < fields.len() ==> (#[trigger] fields[j]).var != fields[k].var,
    ensures
        explain::condition_text(rule::ConditionModel::Var(fields[k].var), fields)
            == explain::field_text(fields[k]),
{
    lemma_last_bound(fields, k, fields.len());
}

proof fn lemma_last_bound(fields: Seq<rule::FieldModel>, k: int, n: nat)
    requires
        0 <= k < n <= fields.len(),
        forall|j: int|
            k < j < fields.len() ==> (#[trigger] fields[j]).var != fields[k].var,
    ensures
        explain::last_bound(fields, fields[k].var, n) == Some(fields[k]),
    decreases n,
{
    if n > k + 1 {
        assert(fields[n - 1].var != fields[k].var);
        lemma_last_bound(fields, k, (n - 1) as nat);
    }
}

} // verus!
