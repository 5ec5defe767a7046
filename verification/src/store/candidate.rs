//! A filter the database can apply before the rules are evaluated: a
//! necessary condition of a rule set, built from what the set cannot match
//! without. Rows that pass are still evaluated in full.

use vstd::prelude::*;

use crate::model::NormalizedEvent;
use crate::rule;
use crate::rule::eval;
use crate::rule::{Condition, FieldCondition, Literal, Op, Rule};
use crate::split;
use crate::split::joined;
use crate::store::sql;
use crate::store::sql::{Bind, Query};
use crate::text;
use crate::text::same;

verus! {

/// Columns a candidate filter may test. Each is text that the evaluator reads
/// back as it is stored, so the database's equality and the evaluator's are
/// the same relation. JSON bodies, booleans and times are left out: there the
/// two disagree, and a filter that drops one row the rule would have matched
/// is a wrong answer, not a slow one.
pub open spec fn is_filterable(column: Seq<char>) -> bool {
    column == "event_source"@ || column == "event_name"@ || column == "aws_region"@ || column
        == "account_id"@ || column == "source_ip"@ || column == "user_agent"@ || column
        == "identity_type"@ || column == "identity_arn"@ || column == "identity_name"@ || column
        == "error_code"@ || column == "error_message"@
}

fn filterable(column: &str) -> (b: bool)
    ensures
        b == is_filterable(column@),
{
    same(column, "event_source") || same(column, "event_name") || same(column, "aws_region")
        || same(column, "account_id") || same(column, "source_ip") || same(column, "user_agent")
        || same(column, "identity_type") || same(column, "identity_arn") || same(
        column,
        "identity_name",
    ) || same(column, "error_code") || same(column, "error_message")
}

// ------------------------------------------------------- required variables

/// The variables a condition cannot hold without. Conservative by
/// construction: a form that does not require a variable contributes none.
pub open spec fn necessary(condition: rule::ConditionModel) -> Set<Seq<char>>
    decreases condition,
{
    match condition {
        rule::ConditionModel::Var(var) => set![var],
        rule::ConditionModel::And(a, b) => necessary(*a).union(necessary(*b)),
        // Either side may be the one that held, so only what both require.
        rule::ConditionModel::Or(a, b) => necessary(*a).intersect(necessary(*b)),
        rule::ConditionModel::Not(_) => Set::empty(),
        // `N of (...)` pins a particular variable only when it needs them all.
        rule::ConditionModel::NOf(count, vars) => if count >= vars.len() {
            vars.to_set()
        } else {
            Set::empty()
        },
    }
}

fn member(items: &Vec<String>, item: &str) -> (b: bool)
    ensures
        b == text::texts(items@).contains(item@),
{
    let n: usize = items.len();
    let mut i: usize = 0;
    while i < n
        invariant
            i <= n,
            n == items@.len(),
            forall|k: int| 0 <= k < i ==> items@[k]@ != item@,
        decreases n - i,
    {
        if same(items[i].as_str(), item) {
            assert(text::texts(items@)[i as int] == item@);
            return true;
        }
        i = i + 1;
    }
    proof {
        if text::texts(items@).contains(item@) {
            let k = text::texts(items@).index_of(item@);
            assert(items@[k]@ == item@);
        }
    }
    false
}

/// The variables a condition cannot hold without.
pub fn necessary_vars(condition: &Condition) -> (vars: Vec<String>)
    ensures
        forall|var: Seq<char>| #[trigger]
            necessary(condition@).contains(var) <==> text::texts(vars@).contains(var),
    decreases *condition,
{
    match condition {
        Condition::Var(var) => {
            let mut out: Vec<String> = Vec::new();
            out.push(var.as_str().to_owned());
            assert(text::texts(out@) =~= seq![var@]);
            assert forall|v: Seq<char>| #[trigger]
                necessary(condition@).contains(v) <==> text::texts(out@).contains(v) by {
                assert(seq![var@][0] == var@);
                assert(seq![var@].contains(var@));
                if seq![var@].contains(v) {
                    assert(v == var@);
                }
                assert(condition@ == rule::ConditionModel::Var(var@));
            }
            out
        },
        Condition::And(a, b) => {
            let mut out = necessary_vars(a);
            let mut more = necessary_vars(b);
            let ghost left = text::texts(out@);
            let ghost right = text::texts(more@);
            out.append(&mut more);
            assert(text::texts(out@) =~= left + right);
            assert forall|v: Seq<char>| (left + right).contains(v) <==> left.contains(v)
                || right.contains(v) by {
                if left.contains(v) {
                    assert((left + right)[left.index_of(v)] == v);
                }
                if right.contains(v) {
                    assert((left + right)[left.len() + right.index_of(v)] == v);
                }
                if (left + right).contains(v) {
                    let k = (left + right).index_of(v);
                    if k < left.len() {
                        assert(left[k] == v);
                    } else {
                        assert(right[k - left.len()] == v);
                    }
                }
            }
            assert forall|v: Seq<char>| #[trigger]
                necessary(condition@).contains(v) <==> text::texts(out@).contains(v) by {
                assert(necessary(a@).contains(v) <==> left.contains(v));
                assert(necessary(b@).contains(v) <==> right.contains(v));
            }
            out
        },
        Condition::Or(a, b) => {
            let left = necessary_vars(a);
            let right = necessary_vars(b);
            let mut out: Vec<String> = Vec::new();
            let n: usize = left.len();
            let mut i: usize = 0;
            while i < n
                invariant
                    i <= n,
                    n == left@.len(),
                    forall|v: Seq<char>| #[trigger]
                        text::texts(out@).contains(v) <==> text::texts(left@).take(
                            i as int,
                        ).contains(v) && text::texts(right@).contains(v),
                decreases n - i,
            {
                let ghost before = text::texts(out@);
                let ghost all = text::texts(left@);
                let ghost here = left@[i as int]@;
                assert(all[i as int] == here);
                let keep = member(&right, left[i].as_str());
                if keep {
                    out.push(left[i].as_str().to_owned());
                    assert(text::texts(out@) =~= before.push(here));
                }
                assert forall|v: Seq<char>| #[trigger] text::texts(out@).contains(v) <==> all.take(
                    i + 1,
                ).contains(v) && text::texts(right@).contains(v) by {
                    let less = all.take(i as int);
                    let more = all.take(i + 1);
                    assert(more =~= less.push(here));
                    if less.contains(v) {
                        assert(more[less.index_of(v)] == v);
                    }
                    assert(more[i as int] == here);
                    if more.contains(v) {
                        let k = more.index_of(v);
                        if k < i {
                            assert(less[k] == v);
                        }
                    }
                    if keep {
                        let now = before.push(here);
                        if before.contains(v) {
                            assert(now[before.index_of(v)] == v);
                        }
                        assert(now[before.len() as int] == here);
                        if now.contains(v) {
                            let k = now.index_of(v);
                            if k < before.len() {
                                assert(before[k] == v);
                            }
                        }
                    }
                    assert(before.contains(v) <==> less.contains(v) && text::texts(
                        right@,
                    ).contains(v));
                }
                i = i + 1;
            }
            assert(text::texts(left@).take(n as int) =~= text::texts(left@));
            assert forall|v: Seq<char>| #[trigger]
                necessary(condition@).contains(v) <==> text::texts(out@).contains(v) by {
                assert(necessary(a@).contains(v) <==> text::texts(left@).contains(v));
                assert(necessary(b@).contains(v) <==> text::texts(right@).contains(v));
            }
            out
        },
        Condition::Not(_) => {
            let out: Vec<String> = Vec::new();
            assert(text::texts(out@) =~= Seq::empty());
            out
        },
        Condition::NOf(count, vars) => {
            let mut out: Vec<String> = Vec::new();
            let n: usize = vars.len();
            if *count >= n {
                let mut i: usize = 0;
                while i < n
                    invariant
                        i <= n,
                        n == vars@.len(),
                        out@.len() == i,
                        forall|k: int| 0 <= k < i ==> (#[trigger] out@[k])@ == vars@[k]@,
                    decreases n - i,
                {
                    out.push(vars[i].as_str().to_owned());
                    i = i + 1;
                }
                assert(text::texts(out@) =~= text::texts(vars@));
            } else {
                assert(text::texts(out@) =~= Seq::empty());
            }
            assert(text::texts(vars@).len() == n);
            assert forall|v: Seq<char>| #[trigger]
                necessary(condition@).contains(v) <==> text::texts(out@).contains(v) by {
                assert(text::texts(vars@).to_set().contains(v) <==> text::texts(vars@).contains(
                    v,
                ));
            }
            out
        },
    }
}

proof fn lemma_all_fire(
    fields: Seq<rule::FieldModel>,
    event: NormalizedEvent,
    vars: Seq<Seq<char>>,
    i: int,
)
    requires
        0 <= i <= vars.len(),
    ensures
        eval::firing_from(fields, event, vars, i) <= vars.len() - i,
        eval::firing_from(fields, event, vars, i) == vars.len() - i ==> forall|k: int|
            i <= k < vars.len() ==> eval::var_fires(fields, event, #[trigger] vars[k]),
    decreases vars.len() - i,
{
    if i < vars.len() {
        lemma_all_fire(fields, event, vars, i + 1);
    }
}

/// A condition that holds has every variable it requires firing.
pub proof fn required_variables_fire(
    condition: rule::ConditionModel,
    fields: Seq<rule::FieldModel>,
    event: NormalizedEvent,
    var: Seq<char>,
)
    requires
        eval::holds(condition, fields, event),
        necessary(condition).contains(var),
    ensures
        eval::var_fires(fields, event, var),
    decreases condition,
{
    match condition {
        rule::ConditionModel::Var(_) => {},
        rule::ConditionModel::And(a, b) => {
            if necessary(*a).contains(var) {
                required_variables_fire(*a, fields, event, var);
            } else {
                required_variables_fire(*b, fields, event, var);
            }
        },
        rule::ConditionModel::Or(a, b) => {
            if eval::holds(*a, fields, event) {
                required_variables_fire(*a, fields, event, var);
            } else {
                required_variables_fire(*b, fields, event, var);
            }
        },
        rule::ConditionModel::Not(_) => {},
        rule::ConditionModel::NOf(count, vars) => {
            lemma_all_fire(fields, event, vars, 0);
            let k = vars.index_of(var);
            assert(vars.contains(var));
            assert(eval::var_fires(fields, event, vars[k]));
        },
    }
}

// --------------------------------------------------------------- the filter

/// A test of one text column: it holds one of these values.
pub ghost struct TestModel {
    pub column: Seq<char>,
    /// Written as a list even where it holds one value.
    pub listed: bool,
    pub values: Seq<Seq<char>>,
}

/// A field condition as a column test, where the database and the evaluator
/// decide it the same way: `==` and `in` over a stored text column. The rest
/// is left to the evaluator.
pub open spec fn test_of(field: rule::FieldModel) -> Option<TestModel> {
    if !is_filterable(field.field) {
        None
    } else {
        match (field.op, field.value) {
            (Op::Eq, rule::LiteralModel::Str(t)) => Some(
                TestModel { column: field.field, listed: false, values: seq![t] },
            ),
            // An empty list matches nothing; `IN ()` is not SQL, so leave it.
            (Op::In, rule::LiteralModel::OneOf(items)) => if items.len() > 0 {
                Some(TestModel { column: field.field, listed: true, values: items })
            } else {
                None
            },
            _ => None,
        }
    }
}

/// The row passes the test.
pub open spec fn passes(test: TestModel, event: NormalizedEvent) -> bool {
    match eval::column(event, test.column) {
        Some(eval::Datum::Text(t)) => test.values.contains(t),
        _ => false,
    }
}

/// No other field condition shares this one's variable. A variable declared
/// twice is satisfied by either condition, so neither is required on its own.
pub open spec fn is_alone(fields: Seq<rule::FieldModel>, i: int) -> bool {
    forall|j: int| 0 <= j < fields.len() && j != i ==> (#[trigger] fields[j]).var != fields[i].var
}

/// The tests that the first `n` field conditions of a rule contribute.
pub open spec fn tests_upto(rule: rule::RuleModel, n: nat) -> Seq<TestModel>
    decreases n,
{
    if n == 0 || n > rule.fields.len() {
        Seq::empty()
    } else {
        let rest = tests_upto(rule, (n - 1) as nat);
        let field = rule.fields[n - 1];
        if is_alone(rule.fields, n - 1) && necessary(rule.condition).contains(field.var) {
            match test_of(field) {
                Some(test) => rest.push(test),
                None => rest,
            }
        } else {
            rest
        }
    }
}

/// The tests that every event a rule matches passes.
pub open spec fn rule_tests(rule: rule::RuleModel) -> Seq<TestModel> {
    tests_upto(rule, rule.fields.len())
}

proof fn lemma_test_passes(field: rule::FieldModel, event: NormalizedEvent)
    requires
        eval::fires(field, event) is Some,
        test_of(field) is Some,
    ensures
        passes(test_of(field)->Some_0, event),
{
    reveal_strlit("event_source");
    reveal_strlit("event_name");
    reveal_strlit("aws_region");
    reveal_strlit("account_id");
    reveal_strlit("source_ip");
    reveal_strlit("user_agent");
    reveal_strlit("identity_type");
    reveal_strlit("identity_arn");
    reveal_strlit("identity_name");
    reveal_strlit("error_code");
    reveal_strlit("error_message");
    reveal_strlit("event_time");
    reveal_strlit("mfa_authenticated");
    reveal_strlit("read_only");
    reveal_strlit("management_event");
    let name = field.field;
    split::lemma_find_from(name, '.', 0);
    assert(split::find_from(name, '.', 0) is None);
    assert(name.len() <= 13);
    assert(name != "event_time"@) by {
        assert("event_time"@[6] == 't');
        assert("event_name"@[6] == 'n');
        assert("aws_region"@[0] == 'a');
        assert("account_id"@[0] == 'a');
        assert("user_agent"@[0] == 'u');
        assert("error_code"@[1] == 'r');
    }
    assert("mfa_authenticated"@.len() == 17);
    assert("management_event"@.len() == 16);
    assert(name != "read_only"@) by {
        assert("read_only"@[0] == 'r');
        assert("source_ip"@[0] == 's');
    }
    let test = test_of(field)->Some_0;
    let actual = eval::field_value(name, event)->Some_0;
    assert(eval::column(event, name) == Some(actual));
    assert(actual is Text);
    if field.op == Op::Eq {
        assert(test.values[0] == actual->Text_0);
    }
}

proof fn lemma_tests_pass(rule: rule::RuleModel, event: NormalizedEvent, n: nat)
    requires
        eval::matches(rule, event),
        n <= rule.fields.len(),
    ensures
        forall|k: int|
            0 <= k < tests_upto(rule, n).len() ==> passes(#[trigger] tests_upto(rule, n)[k], event),
    decreases n,
{
    if n > 0 {
        lemma_tests_pass(rule, event, (n - 1) as nat);
        let field = rule.fields[n - 1];
        if is_alone(rule.fields, n - 1) && necessary(rule.condition).contains(field.var)
            && test_of(field) is Some {
            required_variables_fire(rule.condition, rule.fields, event, field.var);
            let i = choose|i: int|
                0 <= i < rule.fields.len() && (#[trigger] rule.fields[i]).var == field.var
                    && eval::fires(rule.fields[i], event) is Some;
            assert(i == n - 1);
            lemma_test_passes(field, event);
        }
        let before = tests_upto(rule, (n - 1) as nat);
        let now = tests_upto(rule, n);
        assert forall|k: int| 0 <= k < now.len() implies passes(#[trigger] now[k], event) by {
            if k < before.len() {
                assert(now[k] == before[k]);
            }
        }
    }
}

/// The filter of a rule only drops events that the rule cannot match.
pub proof fn matches_pass_the_rule_filter(rule: rule::RuleModel, event: NormalizedEvent)
    requires
        eval::matches(rule, event),
    ensures
        forall|k: int|
            0 <= k < rule_tests(rule).len() ==> passes(#[trigger] rule_tests(rule)[k], event),
{
    lemma_tests_pass(rule, event, rule.fields.len());
}

/// An event gets through the filter of a set where one rule's tests let it.
pub open spec fn admits(rules: Seq<rule::RuleModel>, event: NormalizedEvent) -> bool {
    exists|i: int|
        0 <= i < rules.len() && forall|k: int|
            0 <= k < rule_tests(#[trigger] rules[i]).len() ==> passes(
                #[trigger] rule_tests(rules[i])[k],
                event,
            )
}

/// The filter of a set only drops events that none of its rules can match:
/// hits and evidence are those of a pass over the whole case.
pub proof fn matches_pass_the_set_filter(
    rules: Seq<rule::RuleModel>,
    event: NormalizedEvent,
    i: int,
)
    requires
        0 <= i < rules.len(),
        eval::matches(rules[i], event),
    ensures
        admits(rules, event),
{
    matches_pass_the_rule_filter(rules[i], event);
}

// ------------------------------------------------------------- as query text

/// `n` placeholders.
pub open spec fn mark_list(n: nat) -> Seq<Seq<char>> {
    Seq::new(n, |i: int| "?"@)
}

pub open spec fn test_sql(test: TestModel) -> Seq<char> {
    if test.listed {
        test.column + " IN ("@ + split::join(mark_list(test.values.len()), ", "@) + ")"@
    } else {
        test.column + " = ?"@
    }
}

pub open spec fn test_sqls(tests: Seq<TestModel>) -> Seq<Seq<char>> {
    tests.map_values(|t: TestModel| test_sql(t))
}

pub open spec fn text_binds(values: Seq<Seq<char>>) -> Seq<sql::BindModel> {
    values.map_values(|v: Seq<char>| sql::BindModel::Text(v))
}

pub open spec fn test_binds(tests: Seq<TestModel>) -> Seq<sql::BindModel>
    decreases tests.len(),
{
    if tests.len() == 0 {
        Seq::empty()
    } else {
        test_binds(tests.drop_last()) + text_binds(tests.last().values)
    }
}

/// One rule's filter; none where no required condition can be tested.
pub open spec fn rule_filter(rule: rule::RuleModel) -> Option<sql::QueryModel> {
    let tests = rule_tests(rule);
    if tests.len() == 0 {
        None
    } else {
        Some(
            sql::QueryModel {
                sql: "("@ + split::join(test_sqls(tests), " AND "@) + ")"@,
                binds: test_binds(tests),
            },
        )
    }
}

/// Every rule of the set has a filter of its own.
pub open spec fn all_filtered(rules: Seq<rule::RuleModel>) -> bool {
    forall|i: int| 0 <= i < rules.len() ==> rule_filter(#[trigger] rules[i]) is Some
}

pub open spec fn rule_sqls(rules: Seq<rule::RuleModel>) -> Seq<Seq<char>> {
    rules.map_values(|r: rule::RuleModel| rule_filter(r)->Some_0.sql)
}

pub open spec fn rule_binds(rules: Seq<rule::RuleModel>) -> Seq<sql::BindModel>
    decreases rules.len(),
{
    if rules.len() == 0 {
        Seq::empty()
    } else {
        rule_binds(rules.drop_last()) + rule_filter(rules.last())->Some_0.binds
    }
}

/// The filter of a whole set. An event matches the set when it matches one of
/// its rules, so the rules' filters are alternatives; and a single rule that
/// yields none leaves the whole set unfiltered.
pub open spec fn set_filter(rules: Seq<rule::RuleModel>) -> Option<sql::QueryModel> {
    if rules.len() == 0 || !all_filtered(rules) {
        None
    } else {
        Some(
            sql::QueryModel {
                sql: " AND ("@ + split::join(rule_sqls(rules), " OR "@) + ")"@,
                binds: rule_binds(rules),
            },
        )
    }
}

pub open spec fn opt_query(query: Option<Query>) -> Option<sql::QueryModel> {
    match query {
        Some(q) => Some(q@),
        None => None,
    }
}

fn text_bind_list(values: &Vec<String>) -> (out: Vec<Bind>)
    ensures
        sql::bind_models(out@) == text_binds(text::texts(values@)),
{
    let n: usize = values.len();
    let mut out: Vec<Bind> = Vec::new();
    let mut i: usize = 0;
    while i < n
        invariant
            i <= n,
            n == values@.len(),
            out@.len() == i,
            forall|k: int|
                0 <= k < i ==> (#[trigger] out@[k])@ == sql::BindModel::Text(values@[k]@),
        decreases n - i,
    {
        out.push(Bind::Text(values[i].as_str().to_owned()));
        i = i + 1;
    }
    assert(sql::bind_models(out@) =~= text_binds(text::texts(values@)));
    out
}

struct Test {
    sql: String,
    binds: Vec<Bind>,
}

fn marks_text(n: usize) -> (out: String)
    ensures
        out@ == split::join(mark_list(n as nat), ", "@),
{
    let mut list: Vec<String> = Vec::new();
    let mut i: usize = 0;
    while i < n
        invariant
            i <= n,
            list@.len() == i,
            forall|k: int| 0 <= k < i ==> (#[trigger] list@[k])@ == "?"@,
        decreases n - i,
    {
        list.push("?".to_owned());
        i = i + 1;
    }
    assert(text::texts(list@) =~= mark_list(n as nat));
    joined(&list, ", ")
}

fn column_predicate(field: &FieldCondition) -> (r: Option<Test>)
    ensures
        match r {
            Some(t) => test_of(field@) matches Some(test) && t.sql@ == test_sql(test)
                && sql::bind_models(t.binds@) == text_binds(test.values),
            None => test_of(field@) is None,
        },
{
    if !filterable(field.field.as_str()) {
        return None;
    }
    match (field.op, &field.value) {
        (Op::Eq, Literal::Str(t)) => {
            let mut sql = field.field.as_str().to_owned();
            sql.push_str(" = ?");
            let mut binds: Vec<Bind> = Vec::new();
            binds.push(Bind::Text(t.as_str().to_owned()));
            assert(sql::bind_models(binds@) =~= text_binds(seq![t@]));
            Some(Test { sql, binds })
        },
        (Op::In, Literal::OneOf(items)) => {
            assert(text::texts(items@).len() == items@.len());
            if items.len() == 0 {
                return None;
            }
            let mut sql = field.field.as_str().to_owned();
            sql.push_str(" IN (");
            sql.push_str(marks_text(items.len()).as_str());
            sql.push_str(")");
            Some(Test { sql, binds: text_bind_list(items) })
        },
        _ => None,
    }
}

fn alone(fields: &Vec<FieldCondition>, i: usize) -> (b: bool)
    requires
        i < fields@.len(),
    ensures
        b == is_alone(rule::field_models(fields@), i as int),
{
    let ghost all = rule::field_models(fields@);
    let n: usize = fields.len();
    let mut j: usize = 0;
    while j < n
        invariant
            j <= n,
            n == fields@.len(),
            i < n,
            all == rule::field_models(fields@),
            forall|k: int| 0 <= k < j && k != i ==> (#[trigger] all[k]).var != all[i as int].var,
        decreases n - j,
    {
        assert(all[j as int].var == fields@[j as int].var@);
        assert(all[i as int].var == fields@[i as int].var@);
        if j != i && same(fields[j].var.as_str(), fields[i].var.as_str()) {
            return false;
        }
        j = j + 1;
    }
    true
}

/// One rule's filter, built from the field conditions its condition cannot
/// hold without. A rule whose required conditions cannot be tested (regexes,
/// negations, JSON paths) gets none.
pub fn rule_candidate(rule: &Rule) -> (r: Option<Query>)
    ensures
        opt_query(r) == rule_filter(rule@),
{
    let required = necessary_vars(&rule.condition);
    let n: usize = rule.fields.len();
    let mut parts: Vec<String> = Vec::new();
    let mut binds: Vec<Bind> = Vec::new();
    let mut i: usize = 0;
    proof {
        assert(text::texts(parts@) =~= test_sqls(Seq::empty()));
        assert(sql::bind_models(binds@) =~= test_binds(Seq::empty()));
    }
    while i < n
        invariant
            i <= n,
            n == rule.fields@.len(),
            forall|var: Seq<char>| #[trigger]
                necessary(rule.condition@).contains(var) <==> text::texts(required@).contains(var),
            text::texts(parts@) == test_sqls(tests_upto(rule@, i as nat)),
            sql::bind_models(binds@) == test_binds(tests_upto(rule@, i as nat)),
        decreases n - i,
    {
        let field = &rule.fields[i];
        let ghost before = tests_upto(rule@, i as nat);
        assert(rule@.fields[i as int] == field@);
        if alone(&rule.fields, i) && member(&required, field.var.as_str()) {
            match column_predicate(field) {
                Some(test) => {
                    let ghost listed = text::texts(parts@);
                    let ghost bound = sql::bind_models(binds@);
                    let ghost added = test_of(field@)->Some_0;
                    let ghost more = sql::bind_models(test.binds@);
                    let mut test_binds_list = test.binds;
                    parts.push(test.sql);
                    binds.append(&mut test_binds_list);
                    proof {
                        assert(text::texts(parts@) =~= listed.push(test_sql(added)));
                        assert(test_sqls(before.push(added)) =~= test_sqls(before).push(
                            test_sql(added),
                        ));
                        assert(before.push(added).drop_last() =~= before);
                        assert(sql::bind_models(binds@) =~= bound + more);
                    }
                },
                None => {},
            }
        }
        i = i + 1;
    }
    assert(test_sqls(rule_tests(rule@)).len() == rule_tests(rule@).len());
    assert(text::texts(parts@).len() == parts@.len());
    if parts.len() == 0 {
        return None;
    }
    let mut sql = "(".to_owned();
    sql.push_str(joined(&parts, " AND ").as_str());
    sql.push_str(")");
    Some(Query { sql, binds })
}

/// The filter for a whole set, ready to append to the scan's conditions.
pub fn set_candidate(rules: &Vec<&Rule>) -> (r: Option<Query>)
    ensures
        opt_query(r) == set_filter(rule::set::borrowed_models(rules@)),
{
    let ghost all = rule::set::borrowed_models(rules@);
    let n: usize = rules.len();
    let mut parts: Vec<String> = Vec::new();
    let mut binds: Vec<Bind> = Vec::new();
    let mut i: usize = 0;
    proof {
        assert(all.take(0) =~= Seq::empty());
        assert(text::texts(parts@) =~= rule_sqls(Seq::empty()));
        assert(sql::bind_models(binds@) =~= rule_binds(Seq::empty()));
    }
    while i < n
        invariant
            i <= n,
            n == rules@.len(),
            all == rule::set::borrowed_models(rules@),
            all.len() == n,
            all_filtered(all.take(i as int)),
            text::texts(parts@) == rule_sqls(all.take(i as int)),
            sql::bind_models(binds@) == rule_binds(all.take(i as int)),
        decreases n - i,
    {
        assert(all[i as int] == rules@[i as int]@);
        match rule_candidate(rules[i]) {
            Some(one) => {
                let ghost listed = text::texts(parts@);
                let ghost bound = sql::bind_models(binds@);
                let ghost less = all.take(i as int);
                let ghost more = all.take(i + 1);
                let ghost added = one@;
                let mut one_binds = one.binds;
                parts.push(one.sql);
                binds.append(&mut one_binds);
                proof {
                    assert(more =~= less.push(all[i as int]));
                    assert(more.drop_last() =~= less);
                    assert(text::texts(parts@) =~= listed.push(added.sql));
                    assert(rule_sqls(more) =~= rule_sqls(less).push(added.sql));
                    assert(sql::bind_models(binds@) =~= bound + added.binds);
                    assert forall|k: int| 0 <= k < more.len() implies rule_filter(
                        #[trigger] more[k],
                    ) is Some by {
                        if k < i {
                            assert(more[k] == less[k]);
                        }
                    }
                }
            },
            None => {
                assert(rule_filter(all[i as int]) is None);
                return None;
            },
        }
        i = i + 1;
    }
    assert(all.take(n as int) =~= all);
    if n == 0 {
        return None;
    }
    let mut sql = " AND (".to_owned();
    sql.push_str(joined(&parts, " OR ").as_str());
    sql.push_str(")");
    Some(Query { sql, binds })
}

// ------------------------------------------------------ placeholders and values

proof fn lemma_join_marks(items: Seq<Seq<char>>, sep: Seq<char>)
    requires
        sql::marks(sep) == 0,
    ensures
        sql::marks(split::join(items, sep)) == marks_in(items),
    decreases items.len(),
{
    reveal(split::join);
    if items.len() > 0 {
        lemma_join_marks(items.drop_last(), sep);
        if items.len() > 1 {
            let head = split::join(items.drop_last(), sep);
            sql::lemma_marks_add(head + sep, items.last());
            sql::lemma_marks_add(head, sep);
        } else {
            assert(items.drop_last() =~= Seq::empty());
            assert(marks_in(items.drop_last()) == 0);
            assert(items.last() == items[0]);
        }
    }
}

/// Placeholders in a list of texts.
spec fn marks_in(items: Seq<Seq<char>>) -> nat
    decreases items.len(),
{
    if items.len() == 0 {
        0
    } else {
        marks_in(items.drop_last()) + sql::marks(items.last())
    }
}

proof fn lemma_mark_list(n: nat)
    ensures
        marks_in(mark_list(n)) == n,
    decreases n,
{
    if n > 0 {
        lemma_mark_list((n - 1) as nat);
        assert(mark_list(n).drop_last() =~= mark_list((n - 1) as nat));
        reveal_strlit("?");
        reveal_with_fuel(sql::marks_upto, 2);
    }
}

proof fn lemma_literal_marks()
    ensures
        sql::marks(" IN ("@) == 0,
        sql::marks(", "@) == 0,
        sql::marks(")"@) == 0,
        sql::marks("("@) == 0,
        sql::marks(" = ?"@) == 1,
        sql::marks(" AND "@) == 0,
        sql::marks(" OR "@) == 0,
        sql::marks(" AND ("@) == 0,
{
    reveal_strlit(" IN (");
    reveal_strlit(", ");
    reveal_strlit(")");
    reveal_strlit("(");
    reveal_strlit(" = ?");
    reveal_strlit(" AND ");
    reveal_strlit(" OR ");
    reveal_strlit(" AND (");
    reveal_with_fuel(sql::marks_upto, 8);
}

proof fn lemma_column_marks(column: Seq<char>)
    requires
        is_filterable(column),
    ensures
        sql::marks(column) == 0,
{
    reveal_strlit("event_source");
    reveal_strlit("event_name");
    reveal_strlit("aws_region");
    reveal_strlit("account_id");
    reveal_strlit("source_ip");
    reveal_strlit("user_agent");
    reveal_strlit("identity_type");
    reveal_strlit("identity_arn");
    reveal_strlit("identity_name");
    reveal_strlit("error_code");
    reveal_strlit("error_message");
    reveal_with_fuel(sql::marks_upto, 15);
}

proof fn lemma_test_marks(field: rule::FieldModel)
    requires
        test_of(field) is Some,
    ensures
        ({
            let test = test_of(field)->Some_0;
            sql::marks(test_sql(test)) == test.values.len()
        }),
{
    let test = test_of(field)->Some_0;
    lemma_column_marks(test.column);
    lemma_literal_marks();
    if test.listed {
        let list = split::join(mark_list(test.values.len()), ", "@);
        lemma_join_marks(mark_list(test.values.len()), ", "@);
        lemma_mark_list(test.values.len());
        sql::lemma_marks_add(test.column, " IN ("@);
        sql::lemma_marks_add(test.column + " IN ("@, list);
        sql::lemma_marks_add(test.column + " IN ("@ + list, ")"@);
    } else {
        sql::lemma_marks_add(test.column, " = ?"@);
    }
}

proof fn lemma_tests_marks(rule: rule::RuleModel, n: nat)
    requires
        n <= rule.fields.len(),
    ensures
        marks_in(test_sqls(tests_upto(rule, n))) == test_binds(tests_upto(rule, n)).len(),
    decreases n,
{
    if n == 0 {
        assert(test_sqls(tests_upto(rule, 0)) =~= Seq::empty());
    } else {
        lemma_tests_marks(rule, (n - 1) as nat);
        let before = tests_upto(rule, (n - 1) as nat);
        let field = rule.fields[n - 1];
        if is_alone(rule.fields, n - 1) && necessary(rule.condition).contains(field.var)
            && test_of(field) is Some {
            let test = test_of(field)->Some_0;
            lemma_test_marks(field);
            assert(before.push(test).drop_last() =~= before);
            assert(test_sqls(before.push(test)).drop_last() =~= test_sqls(before));
            assert(test_sqls(before.push(test)).last() == test_sql(test));
        }
    }
}

proof fn lemma_rule_balanced(rule: rule::RuleModel)
    requires
        rule_filter(rule) is Some,
    ensures
        rule_filter(rule)->Some_0.balanced(),
{
    let tests = rule_tests(rule);
    let body = split::join(test_sqls(tests), " AND "@);
    lemma_literal_marks();
    lemma_tests_marks(rule, rule.fields.len());
    lemma_join_marks(test_sqls(tests), " AND "@);
    sql::lemma_marks_add("("@, body);
    sql::lemma_marks_add("("@ + body, ")"@);
}

proof fn lemma_rules_marks(rules: Seq<rule::RuleModel>)
    requires
        all_filtered(rules),
    ensures
        marks_in(rule_sqls(rules)) == rule_binds(rules).len(),
    decreases rules.len(),
{
    if rules.len() == 0 {
        assert(rule_sqls(rules) =~= Seq::empty());
    } else {
        let rest = rules.drop_last();
        assert forall|i: int| 0 <= i < rest.len() implies rule_filter(#[trigger] rest[i]) is Some by {
            assert(rest[i] == rules[i]);
        }
        lemma_rules_marks(rest);
        assert(rule_filter(rules[rules.len() - 1]) is Some);
        lemma_rule_balanced(rules.last());
        assert(rule_sqls(rules).drop_last() =~= rule_sqls(rest));
        assert(rule_sqls(rules).last() == rule_filter(rules.last())->Some_0.sql);
    }
}

/// The filter of a set has exactly one value for each of its placeholders.
pub proof fn set_filters_are_balanced(rules: Seq<rule::RuleModel>)
    ensures
        set_filter(rules) matches Some(q) ==> q.balanced(),
{
    if set_filter(rules) is Some {
        let body = split::join(rule_sqls(rules), " OR "@);
        lemma_literal_marks();
        lemma_rules_marks(rules);
        lemma_join_marks(rule_sqls(rules), " OR "@);
        sql::lemma_marks_add(" AND ("@, body);
        sql::lemma_marks_add(" AND ("@ + body, ")"@);
    }
}

} // verus!
