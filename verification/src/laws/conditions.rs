//! Rule conditions: what each operator decides, said of the value found and
//! the value written in the rule.

use vstd::prelude::*;

use crate::json::Json;
use crate::model::NormalizedEvent;
use crate::number;
use crate::rule;
use crate::rule::eval;
use crate::rule::pattern;
use crate::rule::Op;
use crate::text;

verus! {

/// `$v = field op value`
pub open spec fn one(field: Seq<char>, op: Op, value: rule::LiteralModel) -> rule::FieldModel {
    rule::FieldModel { var: "v"@, field, op, value }
}

/// A rule with that one condition matches the event.
pub open spec fn met(
    field: Seq<char>,
    op: Op,
    value: rule::LiteralModel,
    event: NormalizedEvent,
) -> bool {
    eval::matches(
        rule::RuleModel {
            id: "r"@,
            meta: Map::empty(),
            fields: seq![one(field, op, value)],
            condition: rule::ConditionModel::Var("v"@),
        },
        event,
    )
}

/// A rule of one condition matches where the condition fires, and leaves the
/// text of the value it fired on.
pub proof fn one_condition_decides_a_rule(
    field: Seq<char>,
    op: Op,
    value: rule::LiteralModel,
    event: NormalizedEvent,
)
    ensures
        met(field, op, value, event) <==> eval::fires(one(field, op, value), event) is Some,
        match eval::field_value(field, event) {
            Some(actual) => met(field, op, value, event) ==> eval::fires(
                one(field, op, value),
                event,
            ) == Some(actual.text()),
            None => met(field, op, value, event) <==> op == Op::Missing,
        },
{
    let fields = seq![one(field, op, value)];
    assert(fields[0].var == "v"@);
}

// ---------------------------------------------------------------- numbers

/// The double is a number and not an infinity.
pub open spec fn finite(bits: u64) -> bool {
    (bits / 0x10_0000_0000_0000) % 2048 < 2047
}

/// The value of a finite double, in units of the smallest positive one.
pub open spec fn scaled(bits: u64) -> int {
    let exponent = (bits / 0x10_0000_0000_0000) % 2048;
    let fraction = bits % 0x10_0000_0000_0000;
    let size: int = if exponent == 0 {
        fraction as int
    } else {
        (0x10_0000_0000_0000 + fraction) * vstd::arithmetic::power2::pow2((exponent - 1) as nat)
    };
    if bits >= 0x8000_0000_0000_0000 {
        -size
    } else {
        size
    }
}

/// The value found is a number with these bits, or a text that reads as one.
pub open spec fn reads_as(found: Option<eval::Datum>, bits: u64) -> bool {
    match found {
        Some(eval::Datum::Json(Json::Number(n))) => n.bits == bits,
        Some(eval::Datum::Text(t)) => number::double_of(t) matches Some(d) && d.bits == bits,
        _ => false,
    }
}

proof fn lemma_size(m1: int, m2: int)
    requires
        0 <= m1 < m2,
    ensures
        ({
            let e1 = m1 / 0x10_0000_0000_0000;
            let f1 = m1 % 0x10_0000_0000_0000;
            let e2 = m2 / 0x10_0000_0000_0000;
            let f2 = m2 % 0x10_0000_0000_0000;
            let s1 = if e1 == 0 {
                f1
            } else {
                (0x10_0000_0000_0000 + f1) * vstd::arithmetic::power2::pow2((e1 - 1) as nat)
            };
            let s2 = if e2 == 0 {
                f2
            } else {
                (0x10_0000_0000_0000 + f2) * vstd::arithmetic::power2::pow2((e2 - 1) as nat)
            };
            s1 < s2
        }),
{
    let unit: int = 0x10_0000_0000_0000;
    let e1 = m1 / unit;
    let f1 = m1 % unit;
    let e2 = m2 / unit;
    let f2 = m2 % unit;
    assert(e1 <= e2);
    if e2 > 0 {
        let p2: int = vstd::arithmetic::power2::pow2((e2 - 1) as nat) as int;
        vstd::arithmetic::power2::lemma_pow2_pos((e2 - 1) as nat);
        assert((unit + f2) * p2 >= unit * p2) by (nonlinear_arith)
            requires
                f2 >= 0,
                p2 >= 0,
        ;
        if e1 == 0 {
            assert(unit * p2 >= unit) by (nonlinear_arith)
                requires
                    p2 >= 1,
                    unit == 0x10_0000_0000_0000,
            ;
        } else {
            let p1: int = vstd::arithmetic::power2::pow2((e1 - 1) as nat) as int;
            vstd::arithmetic::power2::lemma_pow2_pos((e1 - 1) as nat);
            if e1 == e2 {
                assert(f1 < f2);
                assert((unit + f1) * p1 < (unit + f2) * p1) by (nonlinear_arith)
                    requires
                        f1 < f2,
                        p1 >= 1,
                ;
            } else {
                vstd::arithmetic::power2::lemma_pow2_unfold(e1 as nat);
                let top: int = vstd::arithmetic::power2::pow2(e1 as nat) as int;
                assert(top == 2 * p1);
                if e1 < e2 - 1 {
                    vstd::arithmetic::power2::lemma_pow2_strictly_increases(
                        e1 as nat,
                        (e2 - 1) as nat,
                    );
                }
                assert(top <= p2);
                assert((unit + f1) * p1 < unit * p2) by (nonlinear_arith)
                    requires
                        f1 < unit,
                        p1 >= 1,
                        2 * p1 <= p2,
                        unit == 0x10_0000_0000_0000,
                ;
            }
        }
    }
}

proof fn lemma_ordered(a: u64, b: u64)
    requires
        finite(a),
        finite(b),
    ensures
        number::double_lt(a, b) <==> scaled(a) < scaled(b),
        number::double_eq(a, b) <==> scaled(a) == scaled(b),
{
    let ma = number::magnitude(a);
    let mb = number::magnitude(b);
    assert(ma / 0x10_0000_0000_0000 == (a / 0x10_0000_0000_0000) % 2048);
    assert(ma % 0x10_0000_0000_0000 == a % 0x10_0000_0000_0000);
    assert(mb / 0x10_0000_0000_0000 == (b / 0x10_0000_0000_0000) % 2048);
    assert(mb % 0x10_0000_0000_0000 == b % 0x10_0000_0000_0000);
    if ma < mb {
        lemma_size(ma, mb);
    }
    if mb < ma {
        lemma_size(mb, ma);
    }
    if ma > 0 {
        lemma_size(0, ma);
    }
    if mb > 0 {
        lemma_size(0, mb);
    }
}

/// The four comparisons decide by the values of the two numbers, so `>=` is
/// met exactly where `<` is not, `<=` exactly where `>` is not, and `>` and
/// `<` each imply their weaker form.
pub proof fn comparisons_follow_the_numbers(
    field: Seq<char>,
    event: NormalizedEvent,
    a: u64,
    b: number::DoubleModel,
)
    ensures
        reads_as(eval::field_value(field, event), a) && finite(a) && finite(b.bits) ==> {
            let value = rule::LiteralModel::Num(b);
            &&& met(field, Op::Gt, value, event) <==> scaled(a) > scaled(b.bits)
            &&& met(field, Op::Ge, value, event) <==> scaled(a) >= scaled(b.bits)
            &&& met(field, Op::Lt, value, event) <==> scaled(a) < scaled(b.bits)
            &&& met(field, Op::Le, value, event) <==> scaled(a) <= scaled(b.bits)
            &&& met(field, Op::Ge, value, event) <==> !met(field, Op::Lt, value, event)
            &&& met(field, Op::Le, value, event) <==> !met(field, Op::Gt, value, event)
            &&& met(field, Op::Gt, value, event) ==> met(field, Op::Ge, value, event)
            &&& met(field, Op::Lt, value, event) ==> met(field, Op::Le, value, event)
        },
{
    let value = rule::LiteralModel::Num(b);
    one_condition_decides_a_rule(field, Op::Gt, value, event);
    one_condition_decides_a_rule(field, Op::Ge, value, event);
    one_condition_decides_a_rule(field, Op::Lt, value, event);
    one_condition_decides_a_rule(field, Op::Le, value, event);
    if finite(a) && finite(b.bits) {
        lemma_ordered(a, b.bits);
        lemma_ordered(b.bits, a);
    }
}

/// A value that is no number, and a literal that is none, compare with
/// nothing.
pub proof fn comparisons_need_two_numbers(
    field: Seq<char>,
    op: Op,
    value: rule::LiteralModel,
    event: NormalizedEvent,
)
    requires
        op == Op::Gt || op == Op::Ge || op == Op::Lt || op == Op::Le,
    ensures
        value !is Num ==> !met(field, op, value, event),
        (forall|a: u64| !reads_as(eval::field_value(field, event), a)) ==> !met(
            field,
            op,
            value,
            event,
        ),
{
    one_condition_decides_a_rule(field, op, value, event);
    match eval::field_value(field, event) {
        Some(actual) => match actual.number() {
            Some(a) => {
                assert(reads_as(eval::field_value(field, event), a));
            },
            None => {},
        },
        None => {},
    }
}

/// `==` compares like with like: texts as texts, numbers by value, a number
/// with a text by its written form, and a text with a boolean by the
/// boolean's word. `!=` is met exactly where a value is there and `==` is not.
pub proof fn equality_compares_like_with_like(field: Seq<char>, event: NormalizedEvent)
    ensures
        forall|b: Seq<char>|
            #![trigger met(field, Op::Eq, rule::LiteralModel::Str(b), event)]
            met(field, Op::Eq, rule::LiteralModel::Str(b), event) <==> match eval::field_value(
                field,
                event,
            ) {
                Some(eval::Datum::Text(a)) => a == b,
                Some(eval::Datum::Json(Json::Number(n))) => n.text@ == b,
                _ => false,
            },
        forall|b: bool|
            #![trigger met(field, Op::Eq, rule::LiteralModel::Bool(b), event)]
            met(field, Op::Eq, rule::LiteralModel::Bool(b), event) <==> match eval::field_value(
                field,
                event,
            ) {
                Some(eval::Datum::Bool(a)) => a == b,
                Some(eval::Datum::Text(a)) => if b {
                    a == "true"@
                } else {
                    a == "false"@
                },
                _ => false,
            },
        forall|b: number::DoubleModel|
            #![trigger met(field, Op::Eq, rule::LiteralModel::Num(b), event)]
            finite(b.bits) ==> match eval::field_value(field, event) {
                Some(eval::Datum::Json(Json::Number(n))) => finite(n.bits) ==> (met(
                    field,
                    Op::Eq,
                    rule::LiteralModel::Num(b),
                    event,
                ) <==> scaled(n.bits) == scaled(b.bits)),
                _ => !met(field, Op::Eq, rule::LiteralModel::Num(b), event),
            },
        forall|value: rule::LiteralModel| #[trigger]
            met(field, Op::Ne, value, event) <==> eval::field_value(field, event) is Some && !met(
                field,
                Op::Eq,
                value,
                event,
            ),
{
    assert forall|b: Seq<char>|
        #![trigger met(field, Op::Eq, rule::LiteralModel::Str(b), event)]
        met(field, Op::Eq, rule::LiteralModel::Str(b), event) <==> match eval::field_value(
            field,
            event,
        ) {
            Some(eval::Datum::Text(a)) => a == b,
            Some(eval::Datum::Json(Json::Number(n))) => n.text@ == b,
            _ => false,
        } by {
        one_condition_decides_a_rule(field, Op::Eq, rule::LiteralModel::Str(b), event);
    }
    assert forall|b: bool|
        #![trigger met(field, Op::Eq, rule::LiteralModel::Bool(b), event)]
        met(field, Op::Eq, rule::LiteralModel::Bool(b), event) <==> match eval::field_value(
            field,
            event,
        ) {
            Some(eval::Datum::Bool(a)) => a == b,
            Some(eval::Datum::Text(a)) => if b {
                a == "true"@
            } else {
                a == "false"@
            },
            _ => false,
        } by {
        one_condition_decides_a_rule(field, Op::Eq, rule::LiteralModel::Bool(b), event);
    }
    assert forall|b: number::DoubleModel|
        #![trigger met(field, Op::Eq, rule::LiteralModel::Num(b), event)]
        finite(b.bits) implies match eval::field_value(field, event) {
        Some(eval::Datum::Json(Json::Number(n))) => finite(n.bits) ==> (met(
            field,
            Op::Eq,
            rule::LiteralModel::Num(b),
            event,
        ) <==> scaled(n.bits) == scaled(b.bits)),
        _ => !met(field, Op::Eq, rule::LiteralModel::Num(b), event),
    } by {
        one_condition_decides_a_rule(field, Op::Eq, rule::LiteralModel::Num(b), event);
        match eval::field_value(field, event) {
            Some(eval::Datum::Json(Json::Number(n))) => {
                if finite(n.bits) {
                    lemma_ordered(n.bits, b.bits);
                }
            },
            _ => {},
        }
    }
    assert forall|value: rule::LiteralModel| #[trigger]
        met(field, Op::Ne, value, event) <==> eval::field_value(field, event) is Some && !met(
            field,
            Op::Eq,
            value,
            event,
        ) by {
        one_condition_decides_a_rule(field, Op::Ne, value, event);
        one_condition_decides_a_rule(field, Op::Eq, value, event);
    }
}

// ------------------------------------------------------------------ texts

/// The same text, or one that differs in the case of ASCII letters only.
pub open spec fn same_but_case(a: Seq<char>, b: Seq<char>) -> bool {
    a.len() == b.len() && forall|i: int|
        #![trigger a[i]]
        0 <= i < a.len() ==> a[i] == b[i] || (a[i] as u32 == b[i] as u32 + 32 && 'A' as u32
            <= b[i] as u32 <= 'Z' as u32) || (b[i] as u32 == a[i] as u32 + 32 && 'A' as u32
            <= a[i] as u32 <= 'Z' as u32)
}

proof fn lemma_lower(x: char, y: char)
    requires
        text::lower(x) == text::lower(y),
    ensures
        x == y || (x as u32 == y as u32 + 32 && 'A' as u32 <= y as u32 <= 'Z' as u32) || (y as u32
            == x as u32 + 32 && 'A' as u32 <= x as u32 <= 'Z' as u32),
{
    let low_x: u32 = text::lower(x) as u32;
    let low_y: u32 = text::lower(y) as u32;
    assert(low_x == low_y);
    assert(0x41 <= x as u32 <= 0x5a ==> low_x == x as u32 + 32);
    assert(0x41 <= y as u32 <= 0x5a ==> low_y == y as u32 + 32);
    assert(!(0x41 <= x as u32 <= 0x5a) ==> low_x == x as u32);
}

pub proof fn lemma_same_but_case(a: Seq<char>, b: Seq<char>)
    ensures
        same_but_case(a, b) <==> text::fold(a) == text::fold(b),
{
    if text::fold(a) == text::fold(b) {
        assert(text::fold(a).len() == a.len());
        assert(text::fold(b).len() == b.len());
        assert forall|i: int| #![trigger a[i]] 0 <= i < a.len() implies a[i] == b[i] || (a[i] as u32
            == b[i] as u32 + 32 && 'A' as u32 <= b[i] as u32 <= 'Z' as u32) || (b[i] as u32
            == a[i] as u32 + 32 && 'A' as u32 <= a[i] as u32 <= 'Z' as u32) by {
            let x: char = a[i];
            let y: char = b[i];
            assert(text::fold(a)[i] == text::lower(x));
            assert(text::fold(b)[i] == text::lower(y));
            lemma_lower(x, y);
        }
    }
    if same_but_case(a, b) {
        assert(text::fold(a) =~= text::fold(b)) by {
            assert forall|i: int| 0 <= i < a.len() implies #[trigger] text::fold(a)[i]
                == text::fold(b)[i] by {
                assert(a[i] == a[i]);
            }
        }
    }
}

/// The part stands in the whole, somewhere, first or last.
pub open spec fn stands_in(whole: Seq<char>, part: Seq<char>, i: int) -> bool {
    0 <= i && i + part.len() <= whole.len() && whole.subrange(i, i + part.len()) == part
}

/// The same, whatever the case of the ASCII letters.
pub open spec fn stands_in_like(whole: Seq<char>, part: Seq<char>, i: int) -> bool {
    0 <= i && i + part.len() <= whole.len() && same_but_case(
        whole.subrange(i, i + part.len()),
        part,
    )
}

proof fn lemma_stands(whole: Seq<char>, part: Seq<char>, i: int)
    ensures
        stands_in(whole, part, i) <==> crate::split::is_at(whole, part, i),
        stands_in_like(whole, part, i) <==> crate::split::is_at(
            text::fold(whole),
            text::fold(part),
            i,
        ),
{
    if 0 <= i && i + part.len() <= whole.len() {
        let cut = whole.subrange(i, i + part.len());
        lemma_same_but_case(cut, part);
        assert(text::fold(whole).subrange(i, i + part.len()) =~= text::fold(cut));
    }
}

/// `contains`, `startswith` and `endswith` ask for the written text anywhere,
/// at the front and at the back of the found one; with an `i` in front the
/// case of ASCII letters does not count.
pub proof fn substring_operators_look_where_they_say(
    field: Seq<char>,
    event: NormalizedEvent,
    part: Seq<char>,
)
    ensures
        match eval::field_value(field, event) {
            Some(actual) => {
                let whole = actual.text();
                let value = rule::LiteralModel::Str(part);
                let last = whole.len() - part.len();
                &&& met(field, Op::Contains, value, event) <==> exists|i: int|
                    stands_in(whole, part, i)
                &&& met(field, Op::IContains, value, event) <==> exists|i: int|
                    stands_in_like(whole, part, i)
                &&& met(field, Op::StartsWith, value, event) <==> stands_in(whole, part, 0)
                &&& met(field, Op::IStartsWith, value, event) <==> stands_in_like(whole, part, 0)
                &&& met(field, Op::EndsWith, value, event) <==> stands_in(whole, part, last)
                &&& met(field, Op::IEndsWith, value, event) <==> stands_in_like(whole, part, last)
            },
            None => true,
        },
{
    let value = rule::LiteralModel::Str(part);
    one_condition_decides_a_rule(field, Op::Contains, value, event);
    one_condition_decides_a_rule(field, Op::IContains, value, event);
    one_condition_decides_a_rule(field, Op::StartsWith, value, event);
    one_condition_decides_a_rule(field, Op::IStartsWith, value, event);
    one_condition_decides_a_rule(field, Op::EndsWith, value, event);
    one_condition_decides_a_rule(field, Op::IEndsWith, value, event);
    match eval::field_value(field, event) {
        Some(actual) => {
            let whole = actual.text();
            assert(text::fold(whole).len() == whole.len());
            assert(text::fold(part).len() == part.len());
            lemma_stands(whole, part, 0);
            lemma_stands(whole, part, whole.len() - part.len());
            assert forall|i: int| #[trigger] stands_in(whole, part, i) <==> crate::split::is_at(
                whole,
                part,
                i,
            ) by {
                lemma_stands(whole, part, i);
            }
            assert forall|i: int| #[trigger]
                stands_in_like(whole, part, i) <==> crate::split::is_at(
                    text::fold(whole),
                    text::fold(part),
                    i,
                ) by {
                lemma_stands(whole, part, i);
            }
            if crate::split::contains(whole, part) {
                let i = choose|i: int| crate::split::is_at(whole, part, i);
                assert(stands_in(whole, part, i));
            }
            if crate::split::contains(text::fold(whole), text::fold(part)) {
                let i = choose|i: int|
                    crate::split::is_at(text::fold(whole), text::fold(part), i);
                assert(stands_in_like(whole, part, i));
            }
        },
        None => {},
    }
}

/// The substring operators and the comparisons, `in` and `matches` fire on no
/// literal of another kind; `in` asks for one of the listed texts, `matches`
/// for a hit of the pattern, `exists` for any value and `missing` for none.
pub proof fn the_other_operators_ask_one_thing(field: Seq<char>, event: NormalizedEvent)
    ensures
        forall|value: rule::LiteralModel| #[trigger]
            met(field, Op::Exists, value, event) <==> eval::field_value(field, event) is Some,
        forall|value: rule::LiteralModel| #[trigger]
            met(field, Op::Missing, value, event) <==> eval::field_value(field, event) is None,
        forall|value: rule::LiteralModel| #[trigger]
            met(field, Op::In, value, event) <==> match (eval::field_value(field, event), value) {
                (Some(actual), rule::LiteralModel::OneOf(items)) => exists|i: int|
                    0 <= i < items.len() && items[i] == actual.text(),
                _ => false,
            },
        forall|value: rule::LiteralModel| #[trigger]
            met(field, Op::Matches, value, event) <==> match (
                eval::field_value(field, event),
                value,
            ) {
                (Some(actual), rule::LiteralModel::Regex(re)) => pattern::regex_matches(
                    re,
                    actual.text(),
                ),
                _ => false,
            },
{
    assert forall|value: rule::LiteralModel| #[trigger]
        met(field, Op::Exists, value, event) <==> eval::field_value(field, event) is Some by {
        one_condition_decides_a_rule(field, Op::Exists, value, event);
    }
    assert forall|value: rule::LiteralModel| #[trigger]
        met(field, Op::Missing, value, event) <==> eval::field_value(field, event) is None by {
        one_condition_decides_a_rule(field, Op::Missing, value, event);
    }
    assert forall|value: rule::LiteralModel| #[trigger]
        met(field, Op::In, value, event) <==> match (eval::field_value(field, event), value) {
            (Some(actual), rule::LiteralModel::OneOf(items)) => exists|i: int|
                0 <= i < items.len() && items[i] == actual.text(),
            _ => false,
        } by {
        one_condition_decides_a_rule(field, Op::In, value, event);
    }
    assert forall|value: rule::LiteralModel| #[trigger]
        met(field, Op::Matches, value, event) <==> match (eval::field_value(field, event), value) {
            (Some(actual), rule::LiteralModel::Regex(re)) => pattern::regex_matches(
                re,
                actual.text(),
            ),
            _ => false,
        } by {
        one_condition_decides_a_rule(field, Op::Matches, value, event);
    }
}

/// The substring operators take the text of a pattern as a text, and no other
/// literal.
pub proof fn substring_operators_take_texts(
    field: Seq<char>,
    op: Op,
    event: NormalizedEvent,
    part: Seq<char>,
    value: rule::LiteralModel,
)
    requires
        op == Op::Contains || op == Op::IContains || op == Op::StartsWith || op == Op::IStartsWith
            || op == Op::EndsWith || op == Op::IEndsWith,
    ensures
        met(field, op, rule::LiteralModel::Regex(part), event) <==> met(
            field,
            op,
            rule::LiteralModel::Str(part),
            event,
        ),
        !(value is Str) && !(value is Regex) ==> !met(field, op, value, event),
{
    one_condition_decides_a_rule(field, op, rule::LiteralModel::Regex(part), event);
    one_condition_decides_a_rule(field, op, rule::LiteralModel::Str(part), event);
    one_condition_decides_a_rule(field, op, value, event);
}

/// The text a value is compared and shown by: a string as it is, a boolean
/// by its word.
pub proof fn values_are_shown_as_themselves(t: Seq<char>, n: Json)
    ensures
        eval::Datum::Text(t).text() == t,
        eval::Datum::Bool(true).text() == "true"@,
        eval::Datum::Bool(false).text() == "false"@,
        eval::Datum::Json(n).text() == crate::json::json_text(n),
{
}

// ------------------------------------------------------------- conditions

/// `and` needs both, `or` one, `not` the opposite, and `N of` at least `N`
/// places of its list whose variable fires.
pub proof fn conditions_combine_as_named(
    a: rule::ConditionModel,
    b: rule::ConditionModel,
    n: nat,
    vars: Seq<Seq<char>>,
    fields: Seq<rule::FieldModel>,
    event: NormalizedEvent,
)
    ensures
        eval::holds(rule::ConditionModel::And(Box::new(a), Box::new(b)), fields, event)
            <==> eval::holds(a, fields, event) && eval::holds(b, fields, event),
        eval::holds(rule::ConditionModel::Or(Box::new(a), Box::new(b)), fields, event)
            <==> eval::holds(a, fields, event) || eval::holds(b, fields, event),
        eval::holds(rule::ConditionModel::Not(Box::new(a)), fields, event) <==> !eval::holds(
            a,
            fields,
            event,
        ),
        eval::holds(rule::ConditionModel::NOf(n, vars), fields, event) <==> vars.filter(
            |v: Seq<char>| eval::holds(rule::ConditionModel::Var(v), fields, event),
        ).len() >= n,
{
    let fired = |v: Seq<char>| eval::holds(rule::ConditionModel::Var(v), fields, event);
    lemma_fired(vars, fields, event, 0);
    assert(vars.skip(0) =~= vars);
}

proof fn lemma_fired(
    vars: Seq<Seq<char>>,
    fields: Seq<rule::FieldModel>,
    event: NormalizedEvent,
    i: int,
)
    requires
        0 <= i <= vars.len(),
    ensures
        vars.skip(i).filter(
            |v: Seq<char>| eval::holds(rule::ConditionModel::Var(v), fields, event),
        ).len() == eval::firing_from(fields, event, vars, i),
    decreases vars.len() - i,
{
    let fired = |v: Seq<char>| eval::holds(rule::ConditionModel::Var(v), fields, event);
    reveal(Seq::filter);
    if i < vars.len() {
        lemma_fired(vars, fields, event, i + 1);
        let rest = vars.skip(i + 1);
        assert(vars.skip(i) =~= seq![vars[i]] + rest);
        Seq::filter_distributes_over_add(seq![vars[i]], rest, fired);
        assert(seq![vars[i]].drop_last() =~= Seq::empty());
        assert(Seq::<Seq<char>>::empty().filter(fired) =~= Seq::empty());
        assert(seq![vars[i]].filter(fired).len() == if fired(vars[i]) {
            1nat
        } else {
            0nat
        });
    }
}

proof fn lemma_pow2(n: nat)
    ensures
        number::pow2(n) == vstd::arithmetic::power2::pow2(n),
        number::pow2(n) > 0,
    decreases n,
{
    vstd::arithmetic::power2::lemma_pow2_pos(n);
    if n > 0 {
        lemma_pow2((n - 1) as nat);
        vstd::arithmetic::power2::lemma_pow2_unfold(n);
    } else {
        vstd::arithmetic::power2::lemma2_to64();
    }
}

/// The count in `N of` is the whole part of the number that was written; a
/// negative one counts as zero.
pub proof fn counts_are_whole_parts(bits: u64, max: nat)
    requires
        finite(bits),
    ensures
        bits >= 0x8000_0000_0000_0000 ==> number::whole_part(bits, max) == 0,
        bits < 0x8000_0000_0000_0000 ==> ({
            let whole = scaled(bits) / vstd::arithmetic::power2::pow2(1074) as int;
            number::whole_part(bits, max) == if whole <= max {
                whole
            } else {
                max as int
            }
        }),
{
    if bits < 0x8000_0000_0000_0000 {
        let unit: int = 0x10_0000_0000_0000;
        let e = bits as int / unit;
        let f = bits as int % unit;
        assert(number::magnitude(bits) == bits);
        assert((bits / 0x10_0000_0000_0000) % 2048 == e);
        let m = unit + f;
        let top: int = vstd::arithmetic::power2::pow2(1074) as int;
        vstd::arithmetic::power2::lemma_pow2_pos(1074);
        let size = scaled(bits);
        if e >= 1075 {
            let a = (e - 1075) as nat;
            vstd::arithmetic::power2::lemma_pow2_adds(a, 1074);
            lemma_pow2(a);
            let x: int = m * number::pow2(a);
            let p: int = number::pow2(a) as int;
            assert(size == m * (p * top));
            assert(m * (p * top) == top * x) by (nonlinear_arith)
                requires
                    x == m * p,
            ;
            vstd::arithmetic::div_mod::lemma_div_multiples_vanish(x, top);
            assert(x >= 0) by (nonlinear_arith)
                requires
                    x == m * p,
                    m >= 0,
                    p >= 0,
            ;
        } else if e >= 1023 {
            let a = (e - 1) as nat;
            let d = (1075 - e) as nat;
            vstd::arithmetic::power2::lemma_pow2_adds(a, d);
            lemma_pow2(d);
            vstd::arithmetic::power2::lemma_pow2_pos(a);
            let q: int = vstd::arithmetic::power2::pow2(a) as int;
            let w: int = number::pow2(d) as int;
            assert(size == m * q);
            assert(top == q * w);
            assert(m * q >= 0) by (nonlinear_arith)
                requires
                    m >= 0,
                    q >= 0,
            ;
            vstd::arithmetic::div_mod::lemma_div_denominator(m * q, q, w);
            assert(m * q == q * m) by (nonlinear_arith);
            vstd::arithmetic::div_mod::lemma_div_multiples_vanish(m, q);
            assert(size / top == m / w);
        } else {
            vstd::arithmetic::power2::lemma2_to64_rest();
            vstd::arithmetic::power2::lemma_pow2_strictly_increases(53, 1074);
            if e > 0 {
                let a = (e - 1) as nat;
                let q: int = vstd::arithmetic::power2::pow2(a) as int;
                vstd::arithmetic::power2::lemma_pow2_pos(a);
                vstd::arithmetic::power2::lemma_pow2_adds(53, a);
                if 53 + a < 1074 {
                    vstd::arithmetic::power2::lemma_pow2_strictly_increases((53 + a) as nat, 1074);
                }
                assert(m * q < 0x20_0000_0000_0000 * q) by (nonlinear_arith)
                    requires
                        m < 0x20_0000_0000_0000,
                        q > 0,
                ;
                assert(m * q >= 0) by (nonlinear_arith)
                    requires
                        m >= 0,
                        q >= 0,
                ;
            }
            vstd::arithmetic::div_mod::lemma_basic_div(size, top);
        }
    }
}

// ---------------------------------------------------------------- columns

pub proof fn lemma_column_names()
    ensures
        "event_source"@ != "event_time"@,
        "event_name"@ != "event_time"@,
        "event_name"@ != "event_source"@,
        "aws_region"@ != "event_time"@,
        "aws_region"@ != "event_source"@,
        "aws_region"@ != "event_name"@,
        "account_id"@ != "event_time"@,
        "account_id"@ != "event_source"@,
        "account_id"@ != "event_name"@,
        "account_id"@ != "aws_region"@,
        "source_ip"@ != "event_time"@,
        "source_ip"@ != "event_source"@,
        "source_ip"@ != "event_name"@,
        "source_ip"@ != "aws_region"@,
        "source_ip"@ != "account_id"@,
        "user_agent"@ != "event_time"@,
        "user_agent"@ != "event_source"@,
        "user_agent"@ != "event_name"@,
        "user_agent"@ != "aws_region"@,
        "user_agent"@ != "account_id"@,
        "user_agent"@ != "source_ip"@,
        "identity_type"@ != "event_time"@,
        "identity_type"@ != "event_source"@,
        "identity_type"@ != "event_name"@,
        "identity_type"@ != "aws_region"@,
        "identity_type"@ != "account_id"@,
        "identity_type"@ != "source_ip"@,
        "identity_type"@ != "user_agent"@,
        "identity_arn"@ != "event_time"@,
        "identity_arn"@ != "event_source"@,
        "identity_arn"@ != "event_name"@,
        "identity_arn"@ != "aws_region"@,
        "identity_arn"@ != "account_id"@,
        "identity_arn"@ != "source_ip"@,
        "identity_arn"@ != "user_agent"@,
        "identity_arn"@ != "identity_type"@,
        "identity_name"@ != "event_time"@,
        "identity_name"@ != "event_source"@,
        "identity_name"@ != "event_name"@,
        "identity_name"@ != "aws_region"@,
        "identity_name"@ != "account_id"@,
        "identity_name"@ != "source_ip"@,
        "identity_name"@ != "user_agent"@,
        "identity_name"@ != "identity_type"@,
        "identity_name"@ != "identity_arn"@,
        "error_code"@ != "event_time"@,
        "error_code"@ != "event_source"@,
        "error_code"@ != "event_name"@,
        "error_code"@ != "aws_region"@,
        "error_code"@ != "account_id"@,
        "error_code"@ != "source_ip"@,
        "error_code"@ != "user_agent"@,
        "error_code"@ != "identity_type"@,
        "error_code"@ != "identity_arn"@,
        "error_code"@ != "identity_name"@,
        "error_message"@ != "event_time"@,
        "error_message"@ != "event_source"@,
        "error_message"@ != "event_name"@,
        "error_message"@ != "aws_region"@,
        "error_message"@ != "account_id"@,
        "error_message"@ != "source_ip"@,
        "error_message"@ != "user_agent"@,
        "error_message"@ != "identity_type"@,
        "error_message"@ != "identity_arn"@,
        "error_message"@ != "identity_name"@,
        "error_message"@ != "error_code"@,
        "request"@ != "event_time"@,
        "request"@ != "event_source"@,
        "request"@ != "event_name"@,
        "request"@ != "aws_region"@,
        "request"@ != "account_id"@,
        "request"@ != "source_ip"@,
        "request"@ != "user_agent"@,
        "request"@ != "identity_type"@,
        "request"@ != "identity_arn"@,
        "request"@ != "identity_name"@,
        "request"@ != "error_code"@,
        "request"@ != "error_message"@,
        "response"@ != "event_time"@,
        "response"@ != "event_source"@,
        "response"@ != "event_name"@,
        "response"@ != "aws_region"@,
        "response"@ != "account_id"@,
        "response"@ != "source_ip"@,
        "response"@ != "user_agent"@,
        "response"@ != "identity_type"@,
        "response"@ != "identity_arn"@,
        "response"@ != "identity_name"@,
        "response"@ != "error_code"@,
        "response"@ != "error_message"@,
        "response"@ != "request"@,
        "resources"@ != "event_time"@,
        "resources"@ != "event_source"@,
        "resources"@ != "event_name"@,
        "resources"@ != "aws_region"@,
        "resources"@ != "account_id"@,
        "resources"@ != "source_ip"@,
        "resources"@ != "user_agent"@,
        "resources"@ != "identity_type"@,
        "resources"@ != "identity_arn"@,
        "resources"@ != "identity_name"@,
        "resources"@ != "error_code"@,
        "resources"@ != "error_message"@,
        "resources"@ != "request"@,
        "resources"@ != "response"@,
        "raw"@ != "event_time"@,
        "raw"@ != "event_source"@,
        "raw"@ != "event_name"@,
        "raw"@ != "aws_region"@,
        "raw"@ != "account_id"@,
        "raw"@ != "source_ip"@,
        "raw"@ != "user_agent"@,
        "raw"@ != "identity_type"@,
        "raw"@ != "identity_arn"@,
        "raw"@ != "identity_name"@,
        "raw"@ != "error_code"@,
        "raw"@ != "error_message"@,
        "raw"@ != "request"@,
        "raw"@ != "response"@,
        "raw"@ != "resources"@,
        "mfa_authenticated"@ != "event_time"@,
        "mfa_authenticated"@ != "event_source"@,
        "mfa_authenticated"@ != "event_name"@,
        "mfa_authenticated"@ != "aws_region"@,
        "mfa_authenticated"@ != "account_id"@,
        "mfa_authenticated"@ != "source_ip"@,
        "mfa_authenticated"@ != "user_agent"@,
        "mfa_authenticated"@ != "identity_type"@,
        "mfa_authenticated"@ != "identity_arn"@,
        "mfa_authenticated"@ != "identity_name"@,
        "mfa_authenticated"@ != "error_code"@,
        "mfa_authenticated"@ != "error_message"@,
        "mfa_authenticated"@ != "request"@,
        "mfa_authenticated"@ != "response"@,
        "mfa_authenticated"@ != "resources"@,
        "mfa_authenticated"@ != "raw"@,
        "read_only"@ != "event_time"@,
        "read_only"@ != "event_source"@,
        "read_only"@ != "event_name"@,
        "read_only"@ != "aws_region"@,
        "read_only"@ != "account_id"@,
        "read_only"@ != "source_ip"@,
        "read_only"@ != "user_agent"@,
        "read_only"@ != "identity_type"@,
        "read_only"@ != "identity_arn"@,
        "read_only"@ != "identity_name"@,
        "read_only"@ != "error_code"@,
        "read_only"@ != "error_message"@,
        "read_only"@ != "request"@,
        "read_only"@ != "response"@,
        "read_only"@ != "resources"@,
        "read_only"@ != "raw"@,
        "read_only"@ != "mfa_authenticated"@,
        "management_event"@ != "event_time"@,
        "management_event"@ != "event_source"@,
        "management_event"@ != "event_name"@,
        "management_event"@ != "aws_region"@,
        "management_event"@ != "account_id"@,
        "management_event"@ != "source_ip"@,
        "management_event"@ != "user_agent"@,
        "management_event"@ != "identity_type"@,
        "management_event"@ != "identity_arn"@,
        "management_event"@ != "identity_name"@,
        "management_event"@ != "error_code"@,
        "management_event"@ != "error_message"@,
        "management_event"@ != "request"@,
        "management_event"@ != "response"@,
        "management_event"@ != "resources"@,
        "management_event"@ != "raw"@,
        "management_event"@ != "mfa_authenticated"@,
        "management_event"@ != "read_only"@,
{
    reveal_strlit("event_time");
    assert("event_time"@.len() == 10);
    reveal_strlit("event_source");
    assert("event_source"@.len() == 12);
    reveal_strlit("event_name");
    assert("event_name"@.len() == 10);
    reveal_strlit("aws_region");
    assert("aws_region"@.len() == 10);
    reveal_strlit("account_id");
    assert("account_id"@.len() == 10);
    reveal_strlit("source_ip");
    assert("source_ip"@.len() == 9);
    reveal_strlit("user_agent");
    assert("user_agent"@.len() == 10);
    reveal_strlit("identity_type");
    assert("identity_type"@.len() == 13);
    reveal_strlit("identity_arn");
    assert("identity_arn"@.len() == 12);
    reveal_strlit("identity_name");
    assert("identity_name"@.len() == 13);
    reveal_strlit("error_code");
    assert("error_code"@.len() == 10);
    reveal_strlit("error_message");
    assert("error_message"@.len() == 13);
    reveal_strlit("request");
    assert("request"@.len() == 7);
    reveal_strlit("response");
    assert("response"@.len() == 8);
    reveal_strlit("resources");
    assert("resources"@.len() == 9);
    reveal_strlit("raw");
    assert("raw"@.len() == 3);
    reveal_strlit("mfa_authenticated");
    assert("mfa_authenticated"@.len() == 17);
    reveal_strlit("read_only");
    assert("read_only"@.len() == 9);
    reveal_strlit("management_event");
    assert("management_event"@.len() == 16);
    assert("event_time"@[6] != "event_name"@[6]);
    assert("event_time"@[0] != "aws_region"@[0]);
    assert("event_time"@[0] != "account_id"@[0]);
    assert("event_time"@[0] != "user_agent"@[0]);
    assert("event_time"@[1] != "error_code"@[1]);
    assert("event_source"@[0] != "identity_arn"@[0]);
    assert("event_name"@[0] != "aws_region"@[0]);
    assert("event_name"@[0] != "account_id"@[0]);
    assert("event_name"@[0] != "user_agent"@[0]);
    assert("event_name"@[1] != "error_code"@[1]);
    assert("aws_region"@[1] != "account_id"@[1]);
    assert("aws_region"@[0] != "user_agent"@[0]);
    assert("aws_region"@[0] != "error_code"@[0]);
    assert("account_id"@[0] != "user_agent"@[0]);
    assert("account_id"@[0] != "error_code"@[0]);
    assert("source_ip"@[0] != "resources"@[0]);
    assert("source_ip"@[0] != "read_only"@[0]);
    assert("user_agent"@[0] != "error_code"@[0]);
    assert("identity_type"@[9] != "identity_name"@[9]);
    assert("identity_type"@[0] != "error_message"@[0]);
    assert("identity_name"@[0] != "error_message"@[0]);
    assert("resources"@[2] != "read_only"@[2]);
}

/// Every column name finds the column it names.
pub proof fn columns_are_found_by_name(event: NormalizedEvent)
    ensures
        eval::column(event, "event_time"@) == match event.event_time {
            Some(at) => Some(eval::Datum::Text(crate::stamp::shown(at))),
            None => None,
        },
        eval::column(event, "event_source"@) == eval::of_text(event.event_source),
        eval::column(event, "event_name"@) == eval::of_text(event.event_name),
        eval::column(event, "aws_region"@) == eval::of_text(event.aws_region),
        eval::column(event, "account_id"@) == eval::of_text(event.account_id),
        eval::column(event, "source_ip"@) == eval::of_text(event.source_ip),
        eval::column(event, "user_agent"@) == eval::of_text(event.user_agent),
        eval::column(event, "identity_type"@) == eval::of_text(event.identity_type),
        eval::column(event, "identity_arn"@) == eval::of_text(event.identity_arn),
        eval::column(event, "identity_name"@) == eval::of_text(event.identity_name),
        eval::column(event, "error_code"@) == eval::of_text(event.error_code),
        eval::column(event, "error_message"@) == eval::of_text(event.error_message),
        eval::column(event, "request"@) == eval::of_text(event.request),
        eval::column(event, "response"@) == eval::of_text(event.response),
        eval::column(event, "resources"@) == eval::of_text(event.resources),
        eval::column(event, "raw"@) == eval::of_text(event.raw),
        eval::column(event, "mfa_authenticated"@) == eval::of_bool(event.mfa_authenticated),
        eval::column(event, "read_only"@) == eval::of_bool(event.read_only),
        eval::column(event, "management_event"@) == eval::of_bool(event.management_event),
        eval::column_text(event, "request"@) == text::opt(event.request),
        eval::column_text(event, "response"@) == text::opt(event.response),
        eval::column_text(event, "resources"@) == text::opt(event.resources),
        eval::column_text(event, "raw"@) == text::opt(event.raw),
{
    lemma_column_names();
}

} // verus!
