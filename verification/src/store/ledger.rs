//! What a case records of its rules and of itself.

use vstd::prelude::*;

use crate::json;
use crate::json::{integer_member, text_member};
use crate::number;
use crate::rule;
use crate::rule::Rule;
use crate::store::sql;
use crate::store::sql::{Bind, Query};
use crate::store::CaseMeta;
use crate::text;
use crate::text::{chars_of, owned};

verus! {

// ---------------------------------------------------------------------- rules

/// A row of the rule table. Keeps the case self-describing: severity and
/// description survive a directory copy even without the rule files.
#[derive(Debug, Clone)]
pub struct RuleRecord {
    pub rule_id: String,
    /// Absent, not the id: the list falls back to the id and a later fill may
    /// still set it.
    pub name: Option<String>,
    pub severity: String,
    pub description: String,
    pub log_type: Option<String>,
    /// A rule is evaluated when it is first selected, not when it is recorded.
    pub evaluated: bool,
}

/// The row of a rule that has not been evaluated yet.
pub fn rule_record(rule: &Rule) -> (r: RuleRecord)
    ensures
        r.rule_id@ == rule@.id,
        text::opt(r.name) == rule@.meta_text("name"@),
        r.severity@ == rule@.meta_text("severity"@).unwrap_or("unknown"@),
        r.description@ == rule@.meta_text("description"@).unwrap_or(""@),
        text::opt(r.log_type) == rule@.meta_text("log_type"@),
        !r.evaluated,
{
    RuleRecord {
        rule_id: rule.id.as_str().to_owned(),
        name: owned(rule.meta_str("name")),
        severity: rule.severity().to_owned(),
        description: rule.description().to_owned(),
        log_type: owned(rule.meta_str("log_type")),
        evaluated: false,
    }
}

/// A value for one column of one rule's row.
struct Fill {
    rule_id: String,
    value: String,
}

spec fn fill_models(fills: Seq<Fill>) -> Seq<(Seq<char>, Seq<char>)> {
    Seq::new(fills.len(), |i: int| (fills[i].rule_id@, fills[i].value@))
}

/// What the first `n` rules declare under a key of their metadata.
pub open spec fn declared(rules: Seq<rule::RuleModel>, key: Seq<char>, n: nat) -> Seq<
    (Seq<char>, Seq<char>),
>
    decreases n,
{
    if n == 0 || n > rules.len() {
        Seq::empty()
    } else {
        let before = declared(rules, key, (n - 1) as nat);
        match rules[n - 1].meta_text(key) {
            Some(value) => before.push((rules[n - 1].id, value)),
            None => before,
        }
    }
}

/// What the rules declare under a key. A rule that declares nothing fills
/// nothing: a nameless rule keeps reading as its id.
fn fills(rules: &Vec<Rule>, key: &str) -> (out: Vec<Fill>)
    ensures
        fill_models(out@) == declared(rule::rule_models(rules@), key@, rules@.len()),
{
    let n: usize = rules.len();
    let ghost models = rule::rule_models(rules@);
    let mut out: Vec<Fill> = Vec::new();
    let mut i: usize = 0;
    assert(fill_models(out@) =~= declared(models, key@, 0));
    while i < n
        invariant
            i <= n,
            n == rules@.len(),
            models == rule::rule_models(rules@),
            fill_models(out@) == declared(models, key@, i as nat),
        decreases n - i,
    {
        let rule: &Rule = &rules[i];
        assert(models[i as int] == rule@);
        let ghost before = fill_models(out@);
        match rule.meta_str(key) {
            Some(value) => {
                out.push(Fill { rule_id: rule.id.as_str().to_owned(), value: value.to_owned() });
                assert(fill_models(out@) =~= before.push((rule@.id, value@)));
            },
            None => {},
        }
        i = i + 1;
    }
    out
}

/// A column of the rule table that older cases lack.
#[derive(Debug, Clone, Copy, PartialEq, Eq, Structural)]
pub enum Lacking {
    LogType,
    Name,
}

impl Lacking {
    /// The metadata key its values are declared under.
    pub open spec fn key_text(self) -> Seq<char> {
        match self {
            Lacking::LogType => "log_type"@,
            Lacking::Name => "name"@,
        }
    }

    fn key(self) -> (r: &'static str)
        ensures
            r@ == self.key_text(),
    {
        match self {
            Lacking::LogType => "log_type",
            Lacking::Name => "name",
        }
    }

    /// Only an empty value is set: one restored from a better source must not
    /// be overwritten by a later, less specific one.
    pub open spec fn statement(self) -> Seq<char> {
        match self {
            Lacking::LogType => "UPDATE rules SET log_type = ? WHERE rule_id = ? AND log_type IS NULL"@,
            Lacking::Name => "UPDATE rules SET name = ? WHERE rule_id = ? AND name IS NULL"@,
        }
    }
}

/// The updates that fill a column from a rule set, one for each rule that
/// declares a value, in order.
pub fn backfill(rules: &Vec<Rule>, column: Lacking) -> (out: Vec<Query>)
    ensures
        ({
            let found = declared(rule::rule_models(rules@), column.key_text(), rules@.len());
            &&& out@.len() == found.len()
            &&& forall|i: int|
                0 <= i < found.len() ==> (#[trigger] out@[i])@ == (sql::QueryModel {
                    sql: column.statement(),
                    binds: seq![
                        sql::BindModel::Text(found[i].1),
                        sql::BindModel::Text(found[i].0),
                    ],
                })
        }),
{
    let wanted: Vec<Fill> = fills(rules, column.key());
    let n: usize = wanted.len();
    let mut out: Vec<Query> = Vec::new();
    let mut i: usize = 0;
    let ghost found = fill_models(wanted@);
    while i < n
        invariant
            i <= n,
            n == wanted@.len(),
            found == fill_models(wanted@),
            out@.len() == i,
            forall|k: int|
                0 <= k < i ==> (#[trigger] out@[k])@ == (sql::QueryModel {
                    sql: column.statement(),
                    binds: seq![
                        sql::BindModel::Text(found[k].1),
                        sql::BindModel::Text(found[k].0),
                    ],
                }),
        decreases n - i,
    {
        let fill: &Fill = &wanted[i];
        assert(found[i as int] == (fill.rule_id@, fill.value@));
        let mut binds: Vec<Bind> = Vec::new();
        binds.push(Bind::Text(fill.value.as_str().to_owned()));
        binds.push(Bind::Text(fill.rule_id.as_str().to_owned()));
        let query = Query {
            sql: match column {
                Lacking::LogType => "UPDATE rules SET log_type = ? WHERE rule_id = ? AND log_type IS NULL".to_owned(),
                Lacking::Name => "UPDATE rules SET name = ? WHERE rule_id = ? AND name IS NULL".to_owned(),
            },
            binds,
        };
        assert(query@.binds =~= seq![
            sql::BindModel::Text(found[i as int].1),
            sql::BindModel::Text(found[i as int].0),
        ]);
        out.push(query);
        i = i + 1;
    }
    out
}

// ----------------------------------------------------------------------- case

/// One line of a document: two spaces, the key and the value.
pub open spec fn line_text(key: Seq<char>, value: Seq<char>) -> Seq<char> {
    "  \""@ + key + "\": "@ + value
}

/// The description of a case, as it is kept beside the database so that
/// cases can be listed without opening every one.
pub open spec fn case_json_text(meta: CaseMeta, event_count: nat) -> Seq<char> {
    "{\n"@ + line_text("app_version"@, json::quote(meta.app_version@)) + ",\n"@ + line_text(
        "case_id"@,
        json::quote(meta.case_id@),
    ) + ",\n"@ + line_text("event_count"@, number::decimal(event_count)) + ",\n"@ + line_text(
        "input_dir"@,
        json::quote(meta.input_dir@),
    ) + ",\n"@ + line_text("status"@, json::quote(meta.status.name())) + "\n}"@
}

fn push_line(out: &mut String, key: &str, value: String)
    ensures
        final(out)@ == old(out)@ + line_text(key@, value@),
{
    let ghost before = out@;
    out.push_str("  \"");
    out.push_str(key);
    out.push_str("\": ");
    out.push_str(value.as_str());
    assert(out@ =~= before + line_text(key@, value@));
}

/// The text of `case.json`.
pub fn case_json(meta: &CaseMeta, event_count: u64) -> (out: String)
    ensures
        out@ == case_json_text(*meta, event_count as nat),
{
    let mut out = "{\n".to_owned();
    push_line(&mut out, "app_version", text_member(Some(meta.app_version.as_str())));
    out.push_str(",\n");
    push_line(&mut out, "case_id", text_member(Some(meta.case_id.as_str())));
    out.push_str(",\n");
    push_line(&mut out, "event_count", integer_member(Some(event_count)));
    out.push_str(",\n");
    push_line(&mut out, "input_dir", text_member(Some(meta.input_dir.as_str())));
    out.push_str(",\n");
    push_line(&mut out, "status", text_member(Some(meta.status.as_str())));
    out.push_str("\n}");
    out
}

// ----------------------------------------------------------------- directories

/// A text with each apostrophe doubled, as it stands inside a quoted literal.
pub open spec fn doubled(s: Seq<char>) -> Seq<char>
    decreases s.len(),
{
    if s.len() == 0 {
        Seq::empty()
    } else if s.last() == '\'' {
        doubled(s.drop_last()) + seq!['\'', '\'']
    } else {
        doubled(s.drop_last()).push(s.last())
    }
}

/// What a literal's text stands for, read from its `i`th character on: two
/// apostrophes are one, and a single one ends it.
pub open spec fn literal_value(s: Seq<char>, i: int) -> Option<Seq<char>>
    decreases s.len() - i,
{
    if i < 0 || i >= s.len() {
        Some(Seq::empty())
    } else if s[i] != '\'' {
        match literal_value(s, i + 1) {
            Some(rest) => Some(seq![s[i]] + rest),
            None => None,
        }
    } else if i + 1 < s.len() && s[i + 1] == '\'' {
        match literal_value(s, i + 2) {
            Some(rest) => Some(seq!['\''] + rest),
            None => None,
        }
    } else {
        None
    }
}

proof fn lemma_literal_append(a: Seq<char>, b: Seq<char>, i: int)
    requires
        0 <= i <= a.len(),
        literal_value(a, i) is Some,
    ensures
        literal_value(a + b, i) == (match literal_value(a + b, a.len() as int) {
            Some(rest) => Some(literal_value(a, i)->Some_0 + rest),
            None => None,
        }),
    decreases a.len() - i,
{
    let whole = a + b;
    if i < a.len() {
        assert(whole[i] == a[i]);
        if a[i] != '\'' {
            lemma_literal_append(a, b, i + 1);
            if literal_value(whole, a.len() as int) is Some {
                let rest = literal_value(whole, a.len() as int)->Some_0;
                let tail = literal_value(a, i + 1)->Some_0;
                assert(seq![a[i]] + (tail + rest) =~= (seq![a[i]] + tail) + rest);
            }
        } else {
            assert(whole[i + 1] == a[i + 1]);
            lemma_literal_append(a, b, i + 2);
            if literal_value(whole, a.len() as int) is Some {
                let rest = literal_value(whole, a.len() as int)->Some_0;
                let tail = literal_value(a, i + 2)->Some_0;
                assert(seq!['\''] + (tail + rest) =~= (seq!['\''] + tail) + rest);
            }
        }
    } else if literal_value(whole, i) is Some {
        let rest = literal_value(whole, i)->Some_0;
        assert(Seq::<char>::empty() + rest =~= rest);
    }
}

/// A doubled text never ends its literal early, and stands for the text it
/// was made from.
pub proof fn doubling_keeps_the_text(s: Seq<char>)
    ensures
        literal_value(doubled(s), 0) == Some(s),
    decreases s.len(),
{
    if s.len() > 0 {
        let head = s.drop_last();
        doubling_keeps_the_text(head);
        let a = doubled(head);
        if s.last() == '\'' {
            let b = seq!['\'', '\''];
            lemma_literal_append(a, b, 0);
            let whole = a + b;
            let n = a.len() as int;
            assert(whole[n] == '\'' && whole[n + 1] == '\'');
            assert(literal_value(whole, n + 2) == Some(Seq::<char>::empty()));
            assert(literal_value(whole, n) == Some(seq!['\''] + Seq::<char>::empty()));
            assert(head + (seq!['\''] + Seq::<char>::empty()) =~= s);
        } else {
            let b = seq![s.last()];
            assert(a.push(s.last()) =~= a + b);
            lemma_literal_append(a, b, 0);
            let whole = a + b;
            let n = a.len() as int;
            assert(whole[n] == s.last());
            assert(literal_value(whole, n + 1) == Some(Seq::<char>::empty()));
            assert(literal_value(whole, n) == Some(seq![s.last()] + Seq::<char>::empty()));
            assert(head + (seq![s.last()] + Seq::<char>::empty()) =~= s);
        }
    }
}

/// The statement that keeps spilled data inside a directory.
pub fn temp_dir_statement(dir: &str) -> (out: String)
    ensures
        out@ == "SET temp_directory = '"@ + doubled(dir@) + "';"@,
{
    let mut out = "SET temp_directory = '".to_owned();
    let ghost head = out@;
    let chars: Vec<char> = chars_of(dir);
    let n: usize = chars.len();
    let mut i: usize = 0;
    assert(chars@.take(0) =~= Seq::<char>::empty());
    assert(head + doubled(chars@.take(0)) =~= head);
    while i < n
        invariant
            i <= n,
            n == chars@.len(),
            out@ == head + doubled(chars@.take(i as int)),
        decreases n - i,
    {
        let c: char = chars[i];
        let ghost before = doubled(chars@.take(i as int));
        assert(chars@.take(i + 1).drop_last() =~= chars@.take(i as int));
        if c == '\'' {
            out.push('\'');
            out.push('\'');
            assert(head + (before + seq!['\'', '\'']) =~= (head + before).push('\'').push('\''));
        } else {
            out.push(c);
            assert(head + before.push(c) =~= (head + before).push(c));
        }
        i = i + 1;
    }
    assert(chars@.take(n as int) =~= chars@);
    out.push_str("';");
    out
}

} // verus!
