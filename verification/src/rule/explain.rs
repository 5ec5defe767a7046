//! Renders a parsed rule as a sentence.
//!
//! The editor shows this next to the source so the author can confirm what the
//! rule actually says. It reads the parsed rule, not the text: a description
//! derived from the source would agree with a rule the engine never saw.

use vstd::prelude::*;

use crate::mapping::Field;
use crate::number;
use crate::number::decimal_text;
use crate::rule;
use crate::rule::{Condition, FieldCondition, Literal, Op, Rule};
use crate::split;
use crate::split::joined;
use crate::text;
use crate::text::same;

verus! {

/// The last of the first `n` field conditions that binds `var`.
pub open spec fn last_bound(fields: Seq<rule::FieldModel>, var: Seq<char>, n: nat) -> Option<
    rule::FieldModel,
>
    decreases n,
{
    if n == 0 || n > fields.len() {
        None
    } else if fields[n - 1].var == var {
        Some(fields[n - 1])
    } else {
        last_bound(fields, var, (n - 1) as nat)
    }
}

/// Column names come from the mapping so the rule, the results table and the
/// detail view all call a field the same thing. Dotted paths into
/// `request`/`response` are shown verbatim.
pub open spec fn name_of(field: Seq<char>) -> Seq<char> {
    if exists|f: Field| #[trigger] f.key_text() == field {
        (choose|f: Field| #[trigger] f.key_text() == field).label_text()
    } else {
        field
    }
}

pub open spec fn in_quotes(s: Seq<char>) -> Seq<char> {
    "\""@ + s + "\""@
}

/// Each item in quotes.
pub open spec fn all_in_quotes(items: Seq<Seq<char>>) -> Seq<Seq<char>> {
    Seq::new(items.len(), |i: int| in_quotes(items[i]))
}

pub open spec fn literal_text(value: rule::LiteralModel) -> Seq<char> {
    match value {
        rule::LiteralModel::Str(s) => in_quotes(s),
        rule::LiteralModel::Num(d) => d.shown,
        rule::LiteralModel::Bool(true) => "true"@,
        rule::LiteralModel::Bool(false) => "false"@,
        rule::LiteralModel::Regex(re) => "/"@ + re + "/"@,
        rule::LiteralModel::OneOf(items) => split::join(all_in_quotes(items), ", "@),
        rule::LiteralModel::Nothing => Seq::empty(),
    }
}

/// Predicates rather than symbols. Every form goes through the noun `값` so no
/// phrasing depends on whether a field name ends in a consonant: Korean
/// subject particles differ, and picking the wrong one reads as broken text.
pub open spec fn field_text(condition: rule::FieldModel) -> Seq<char> {
    let name = name_of(condition.field);
    let value = literal_text(condition.value);
    match condition.op {
        Op::Exists => name + " 있음"@,
        Op::Missing => name + " 없음"@,
        Op::In => name + " 값이 다음 중 하나: "@ + value,
        Op::Contains => name + " 값에 "@ + value + " 포함"@,
        Op::IContains => name + " 값에 "@ + value + " 포함(대소문자 무시)"@,
        Op::StartsWith => name + " 값이 "@ + value + "로 시작"@,
        Op::IStartsWith => name + " 값이 "@ + value + "로 시작(대소문자 무시)"@,
        Op::EndsWith => name + " 값이 "@ + value + "로 끝남"@,
        Op::IEndsWith => name + " 값이 "@ + value + "로 끝남(대소문자 무시)"@,
        Op::Matches => name + " 값이 정규식 "@ + value + " 일치"@,
        Op::Eq => name + " 값이 "@ + value,
        Op::Ne => name + " 값이 "@ + value + " 아님"@,
        Op::Gt => name + " 값이 "@ + value + " 초과"@,
        Op::Ge => name + " 값이 "@ + value + " 이상"@,
        Op::Lt => name + " 값이 "@ + value + " 미만"@,
        Op::Le => name + " 값이 "@ + value + " 이하"@,
    }
}

/// A variable in words. One the rule never defined is shown as written;
/// silently dropping it would hide the mistake.
pub open spec fn var_text(var: Seq<char>, fields: Seq<rule::FieldModel>) -> Seq<char> {
    match last_bound(fields, var, fields.len()) {
        Some(f) => field_text(f),
        None => var,
    }
}

pub open spec fn var_texts(vars: Seq<Seq<char>>, fields: Seq<rule::FieldModel>) -> Seq<Seq<char>> {
    Seq::new(vars.len(), |i: int| var_text(vars[i], fields))
}

/// A nested group whose connective differs from its parent's keeps its
/// parentheses, because dropping those changes the meaning.
pub open spec fn needs_parentheses(condition: rule::ConditionModel, in_or: bool) -> bool {
    match condition {
        rule::ConditionModel::Or(..) => !in_or,
        rule::ConditionModel::And(..) => in_or,
        _ => false,
    }
}

pub open spec fn parenthesized(text: Seq<char>, needed: bool) -> Seq<char> {
    if needed {
        "("@ + text + ")"@
    } else {
        text
    }
}

pub open spec fn condition_text(
    condition: rule::ConditionModel,
    fields: Seq<rule::FieldModel>,
) -> Seq<char>
    decreases condition,
{
    match condition {
        rule::ConditionModel::Var(var) => var_text(var, fields),
        rule::ConditionModel::Not(inner) => "다음이 아님 ("@ + condition_text(*inner, fields) + ")"@,
        rule::ConditionModel::And(a, b) => parenthesized(
            condition_text(*a, fields),
            needs_parentheses(*a, false),
        ) + " 그리고 "@ + parenthesized(
            condition_text(*b, fields),
            needs_parentheses(*b, false),
        ),
        rule::ConditionModel::Or(a, b) => parenthesized(
            condition_text(*a, fields),
            needs_parentheses(*a, true),
        ) + " 또는 "@ + parenthesized(condition_text(*b, fields), needs_parentheses(*b, true)),
        rule::ConditionModel::NOf(n, vars) => "다음 중 "@ + number::decimal(n) + "개: "@
            + split::join(var_texts(vars, fields), ", "@),
    }
}

/// The display name of a rule field.
pub fn field_name(field: &str) -> (out: String)
    ensures
        out@ == name_of(field@),
{
    match Field::from_key(field) {
        Some(f) => {
            proof {
                let g = choose|g: Field| #[trigger] g.key_text() == field@;
                crate::mapping::field_keys_are_distinct(f, g);
            }
            f.label().to_owned()
        },
        None => field.to_owned(),
    }
}

fn quoted(s: &str) -> (out: String)
    ensures
        out@ == in_quotes(s@),
{
    let mut out = "\"".to_owned();
    out.push_str(s);
    out.push_str("\"");
    out
}

fn literal(value: &Literal) -> (out: String)
    ensures
        out@ == literal_text(value@),
{
    match value {
        Literal::Str(s) => quoted(s.as_str()),
        Literal::Num(d) => d.shown.clone(),
        Literal::Bool(b) => {
            if *b {
                "true".to_owned()
            } else {
                "false".to_owned()
            }
        },
        Literal::Regex(re) => {
            let mut out = "/".to_owned();
            out.push_str(re.as_str());
            out.push_str("/");
            out
        },
        Literal::OneOf(items) => {
            let mut parts: Vec<String> = Vec::new();
            let mut i: usize = 0;
            let ghost all = all_in_quotes(text::texts(items@));
            while i < items.len()
                invariant
                    i <= items@.len(),
                    all == all_in_quotes(text::texts(items@)),
                    text::texts(parts@) == all.take(i as int),
                decreases items@.len() - i,
            {
                let ghost before = text::texts(parts@);
                parts.push(quoted(items[i].as_str()));
                assert(text::texts(parts@) =~= before.push(all[i as int]));
                assert(all.take(i + 1) =~= before.push(all[i as int]));
                i += 1;
            }
            assert(all.take(i as int) =~= all);
            joined(&parts, ", ")
        },
        Literal::Nothing => String::new(),
    }
}

fn sentence(name: String, joint: &str, value: &str, ending: &str) -> (out: String)
    ensures
        out@ == name@ + joint@ + value@ + ending@,
{
    let mut out = name;
    out.push_str(joint);
    out.push_str(value);
    out.push_str(ending);
    out
}

fn field(condition: &FieldCondition) -> (out: String)
    ensures
        out@ == field_text(condition@),
{
    let name = field_name(condition.field.as_str());
    let literal = literal(&condition.value);
    let value: &str = literal.as_str();
    match condition.op {
        Op::Exists => split::concat(name.as_str(), " 있음"),
        Op::Missing => split::concat(name.as_str(), " 없음"),
        Op::In => {
            let mut out = split::concat(name.as_str(), " 값이 다음 중 하나: ");
            out.push_str(value);
            out
        },
        Op::Eq => {
            let mut out = split::concat(name.as_str(), " 값이 ");
            out.push_str(value);
            out
        },
        Op::Contains => sentence(name, " 값에 ", value, " 포함"),
        Op::IContains => sentence(name, " 값에 ", value, " 포함(대소문자 무시)"),
        Op::StartsWith => sentence(name, " 값이 ", value, "로 시작"),
        Op::IStartsWith => sentence(name, " 값이 ", value, "로 시작(대소문자 무시)"),
        Op::EndsWith => sentence(name, " 값이 ", value, "로 끝남"),
        Op::IEndsWith => sentence(name, " 값이 ", value, "로 끝남(대소문자 무시)"),
        Op::Matches => sentence(name, " 값이 정규식 ", value, " 일치"),
        Op::Ne => sentence(name, " 값이 ", value, " 아님"),
        Op::Gt => sentence(name, " 값이 ", value, " 초과"),
        Op::Ge => sentence(name, " 값이 ", value, " 이상"),
        Op::Lt => sentence(name, " 값이 ", value, " 미만"),
        Op::Le => sentence(name, " 값이 ", value, " 이하"),
    }
}

fn variable(var: &str, fields: &Vec<FieldCondition>) -> (out: String)
    ensures
        out@ == var_text(var@, rule::field_models(fields@)),
{
    let ghost models = rule::field_models(fields@);
    let mut n: usize = fields.len();
    while n > 0
        invariant
            models == rule::field_models(fields@),
            n <= fields@.len(),
            last_bound(models, var@, models.len()) == last_bound(models, var@, n as nat),
        decreases n,
    {
        assert(models[n - 1] == fields@[n - 1]@);
        if same(fields[n - 1].var.as_str(), var) {
            return field(&fields[n - 1]);
        }
        n -= 1;
    }
    var.to_owned()
}

fn parenthesize(text: String, needed: bool) -> (out: String)
    ensures
        out@ == parenthesized(text@, needed),
{
    if needed {
        let mut out = "(".to_owned();
        out.push_str(text.as_str());
        out.push_str(")");
        out
    } else {
        text
    }
}

fn is_differing(condition: &Condition, in_or: bool) -> (b: bool)
    ensures
        b == needs_parentheses(condition@, in_or),
{
    match condition {
        Condition::Or(..) => !in_or,
        Condition::And(..) => in_or,
        _ => false,
    }
}

fn render(condition: &Condition, fields: &Vec<FieldCondition>) -> (out: String)
    ensures
        out@ == condition_text(condition@, rule::field_models(fields@)),
    decreases condition,
{
    match condition {
        Condition::Var(var) => variable(var.as_str(), fields),
        Condition::Not(inner) => {
            let mut out = "다음이 아님 (".to_owned();
            out.push_str(render(inner, fields).as_str());
            out.push_str(")");
            out
        },
        Condition::And(a, b) => {
            let mut out = parenthesize(render(a, fields), is_differing(a, false));
            out.push_str(" 그리고 ");
            out.push_str(parenthesize(render(b, fields), is_differing(b, false)).as_str());
            out
        },
        Condition::Or(a, b) => {
            let mut out = parenthesize(render(a, fields), is_differing(a, true));
            out.push_str(" 또는 ");
            out.push_str(parenthesize(render(b, fields), is_differing(b, true)).as_str());
            out
        },
        Condition::NOf(n, vars) => {
            let mut parts: Vec<String> = Vec::new();
            let mut i: usize = 0;
            let ghost all = var_texts(text::texts(vars@), rule::field_models(fields@));
            while i < vars.len()
                invariant
                    i <= vars@.len(),
                    all == var_texts(text::texts(vars@), rule::field_models(fields@)),
                    text::texts(parts@) == all.take(i as int),
                decreases vars@.len() - i,
            {
                let ghost before = text::texts(parts@);
                parts.push(variable(vars[i].as_str(), fields));
                assert(text::texts(parts@) =~= before.push(all[i as int]));
                assert(all.take(i + 1) =~= before.push(all[i as int]));
                i += 1;
            }
            assert(all.take(i as int) =~= all);
            let mut out = "다음 중 ".to_owned();
            out.push_str(decimal_text(*n as u64).as_str());
            out.push_str("개: ");
            out.push_str(joined(&parts, ", ").as_str());
            out
        },
    }
}

/// One line describing what the rule matches.
pub fn explain(rule: &Rule) -> (out: String)
    ensures
        out@ == condition_text(rule@.condition, rule@.fields),
{
    render(&rule.condition, &rule.fields)
}

} // verus!
