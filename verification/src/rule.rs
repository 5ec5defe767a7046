//! YARA-shaped rules: field mappings plus a boolean condition.
//!
//! The grammar is small (one nesting level, sixteen operators), so it is
//! parsed by a hand-written tokenizer and recursive-descent parser.

use vstd::prelude::*;

use crate::number;
use crate::number::Double;
use crate::text;
use crate::text::{chars_of, same, string_of};
use crate::textmap::TextMap;

pub mod cut;
pub mod eval;
pub mod explain;
pub mod lex;
pub mod parser;
pub mod pattern;
pub mod set;

pub use eval::{evaluate, evaluate_any, evaluate_view, EventView, Match};
pub use explain::explain;
pub use parser::{parse_rules, rule_sources, ParseRuleError};
pub use pattern::Pattern;
pub use set::{
    is_rule_file, match_events, snapshot_files, Hit, MatchReport, MatchStreamer, MatchSummary,
    RuleError, RuleMatchGroup, RuleSet, RuleSummary,
};

verus! {

/// Comparison operators.
#[derive(Debug, Clone, Copy, PartialEq, Eq, Structural)]
pub enum Op {
    Eq,
    Ne,
    Contains,
    IContains,
    StartsWith,
    IStartsWith,
    EndsWith,
    IEndsWith,
    Matches,
    In,
    Gt,
    Ge,
    Lt,
    Le,
    Exists,
    Missing,
}

impl Op {
    /// True when the operator ignores ASCII case.
    pub fn case_insensitive(self) -> (b: bool)
        ensures
            b == (self == Op::IContains || self == Op::IStartsWith || self == Op::IEndsWith),
    {
        match self {
            Op::IContains | Op::IStartsWith | Op::IEndsWith => true,
            _ => false,
        }
    }
}

/// Right-hand side of a field condition.
#[derive(Debug)]
pub enum Literal {
    Str(String),
    Num(Double),
    Bool(bool),
    /// `in ("a", "b")`
    OneOf(Vec<String>),
    /// `matches /re/`, compiled once at parse time, never per event.
    Regex(Box<Pattern>),
    /// `exists` / `missing` take no value.
    Nothing,
}

pub ghost enum LiteralModel {
    Str(Seq<char>),
    Num(number::DoubleModel),
    Bool(bool),
    OneOf(Seq<Seq<char>>),
    Regex(Seq<char>),
    Nothing,
}

impl View for Literal {
    type V = LiteralModel;

    open spec fn view(&self) -> LiteralModel {
        match self {
            Literal::Str(s) => LiteralModel::Str(s@),
            Literal::Num(d) => LiteralModel::Num(d@),
            Literal::Bool(b) => LiteralModel::Bool(*b),
            Literal::OneOf(items) => LiteralModel::OneOf(text::texts(items@)),
            Literal::Regex(re) => LiteralModel::Regex(re@),
            Literal::Nothing => LiteralModel::Nothing,
        }
    }
}

impl LiteralModel {
    /// The text of a string or of a pattern.
    pub open spec fn as_text(self) -> Option<Seq<char>> {
        match self {
            LiteralModel::Str(s) => Some(s),
            LiteralModel::Regex(re) => Some(re),
            _ => None,
        }
    }
}

impl Literal {
    /// The text of a string or of a pattern.
    pub fn as_str(&self) -> (r: Option<&str>)
        ensures
            text::opt_str(r) == self@.as_text(),
    {
        match self {
            Literal::Str(s) => Some(s.as_str()),
            Literal::Regex(re) => Some(re.as_str()),
            _ => None,
        }
    }
}

/// `$var = <field> <op> <value>`
#[derive(Debug)]
pub struct FieldCondition {
    pub var: String,
    /// Normalized field name, or a dotted path into `request`/`response`.
    pub field: String,
    pub op: Op,
    pub value: Literal,
}

pub ghost struct FieldModel {
    pub var: Seq<char>,
    pub field: Seq<char>,
    pub op: Op,
    pub value: LiteralModel,
}

impl View for FieldCondition {
    type V = FieldModel;

    open spec fn view(&self) -> FieldModel {
        FieldModel { var: self.var@, field: self.field@, op: self.op, value: self.value@ }
    }
}

pub open spec fn field_models(fields: Seq<FieldCondition>) -> Seq<FieldModel> {
    Seq::new(fields.len(), |i: int| fields[i]@)
}

/// Boolean combination of field conditions.
#[derive(Debug, PartialEq)]
pub enum Condition {
    Var(String),
    Not(Box<Condition>),
    And(Box<Condition>, Box<Condition>),
    Or(Box<Condition>, Box<Condition>),
    /// `N of ($a, $b, ...)`
    NOf(usize, Vec<String>),
}

pub ghost enum ConditionModel {
    Var(Seq<char>),
    Not(Box<ConditionModel>),
    And(Box<ConditionModel>, Box<ConditionModel>),
    Or(Box<ConditionModel>, Box<ConditionModel>),
    NOf(nat, Seq<Seq<char>>),
}

impl Condition {
    pub open spec fn model(self) -> ConditionModel
        decreases self,
    {
        match self {
            Condition::Var(var) => ConditionModel::Var(var@),
            Condition::Not(inner) => ConditionModel::Not(Box::new(inner.model())),
            Condition::And(a, b) => ConditionModel::And(Box::new(a.model()), Box::new(b.model())),
            Condition::Or(a, b) => ConditionModel::Or(Box::new(a.model()), Box::new(b.model())),
            Condition::NOf(n, vars) => ConditionModel::NOf(n as nat, text::texts(vars@)),
        }
    }
}

impl View for Condition {
    type V = ConditionModel;

    open spec fn view(&self) -> ConditionModel {
        self.model()
    }
}

impl ConditionModel {
    /// The condition names `var` somewhere.
    pub open spec fn names(self, var: Seq<char>) -> bool
        decreases self,
    {
        match self {
            ConditionModel::Var(v) => v == var,
            ConditionModel::Not(inner) => inner.names(var),
            ConditionModel::And(a, b) => a.names(var) || b.names(var),
            ConditionModel::Or(a, b) => a.names(var) || b.names(var),
            ConditionModel::NOf(_, vars) => vars.contains(var),
        }
    }
}

#[derive(Debug)]
pub struct Rule {
    pub id: String,
    pub meta: TextMap<String>,
    pub fields: Vec<FieldCondition>,
    pub condition: Condition,
}

pub ghost struct RuleModel {
    pub id: Seq<char>,
    pub meta: Map<Seq<char>, Seq<char>>,
    pub fields: Seq<FieldModel>,
    pub condition: ConditionModel,
}

impl View for Rule {
    type V = RuleModel;

    open spec fn view(&self) -> RuleModel {
        RuleModel {
            id: self.id@,
            meta: texts_of(self.meta@),
            fields: field_models(self.fields@),
            condition: self.condition@,
        }
    }
}

/// The same map with the texts of its values.
pub open spec fn texts_of(map: Map<Seq<char>, String>) -> Map<Seq<char>, Seq<char>> {
    map.map_values(|s: String| s@)
}

pub open spec fn rule_models(rules: Seq<Rule>) -> Seq<RuleModel> {
    Seq::new(rules.len(), |i: int| rules[i]@)
}

impl RuleModel {
    /// What the rule's `meta:` section says under `key`.
    pub open spec fn meta_text(self, key: Seq<char>) -> Option<Seq<char>> {
        if self.meta.dom().contains(key) {
            Some(self.meta[key])
        } else {
            None
        }
    }

    /// One of the rule's fields is read out of this column.
    pub open spec fn reads(self, column: Seq<char>) -> bool {
        exists|k: int|
            0 <= k < self.fields.len() && column_of((#[trigger] self.fields[k]).field) == column
    }

    /// The rule runs on events of this log type.
    pub open spec fn runs_on(self, log_type: Seq<char>) -> bool {
        match self.meta_text("log_type"@) {
            Some(wanted) => wanted == log_type,
            None => true,
        }
    }
}

/// Where the first segment of a field path ends.
pub open spec fn segment_end(field: Seq<char>, i: int) -> int
    decreases field.len() - i,
{
    if 0 <= i < field.len() && field[i] != '.' && field[i] != '[' {
        segment_end(field, i + 1)
    } else {
        i
    }
}

/// The column a field path starts in.
pub open spec fn column_of(field: Seq<char>) -> Seq<char> {
    field.take(segment_end(field, 0))
}

fn first_segment(field: &str) -> (out: String)
    ensures
        out@ == column_of(field@),
{
    let s = chars_of(field);
    let n: usize = s.len();
    let mut i: usize = 0;
    while i < n && s[i] != '.' && s[i] != '['
        invariant
            i <= n,
            n == s@.len(),
            segment_end(s@, 0) == segment_end(s@, i as int),
        decreases n - i,
    {
        i = i + 1;
    }
    assert(s@.subrange(0, i as int) =~= s@.take(i as int));
    string_of(&s, 0, i)
}

impl Rule {
    /// What the `meta:` section says under `key`.
    pub fn meta_str(&self, key: &str) -> (r: Option<&str>)
        ensures
            text::opt_str(r) == self@.meta_text(key@),
    {
        match self.meta.get(key) {
            Some(value) => Some(value.as_str()),
            None => None,
        }
    }

    pub fn severity(&self) -> (r: &str)
        ensures
            r@ == self@.meta_text("severity"@).unwrap_or("unknown"@),
    {
        match self.meta_str("severity") {
            Some(value) => value,
            None => "unknown",
        }
    }

    pub fn description(&self) -> (r: &str)
        ensures
            r@ == self@.meta_text("description"@).unwrap_or(""@),
    {
        match self.meta_str("description") {
            Some(value) => value,
            None => "",
        }
    }

    /// The display name: `meta: name`, or the id when the rule has none.
    pub fn name(&self) -> (r: &str)
        ensures
            r@ == self@.meta_text("name"@).unwrap_or(self.id@),
    {
        match self.meta_str("name") {
            Some(value) => value,
            None => self.id.as_str(),
        }
    }

    /// The stored columns this rule reads: a field's first path segment
    /// (`response.ConsoleLogin` reads `response`). Lets the evaluation scan
    /// select only what the rule can look at.
    pub fn columns(&self) -> (r: TextMap<()>)
        ensures
            forall|column: Seq<char>| #[trigger]
                r@.dom().contains(column) <==> self@.reads(column),
    {
        let mut out: TextMap<()> = TextMap::new();
        let n: usize = self.fields.len();
        let mut i: usize = 0;
        while i < n
            invariant
                i <= n,
                n == self.fields@.len(),
                forall|column: Seq<char>| #[trigger]
                    out@.dom().contains(column) <==> exists|k: int|
                        0 <= k < i && column_of((#[trigger] self@.fields[k]).field) == column,
            decreases n - i,
        {
            let ghost before = out@;
            let column = first_segment(self.fields[i].field.as_str());
            let ghost added = column@;
            assert(self@.fields[i as int].field == self.fields@[i as int].field@);
            out.insert(column, ());
            assert forall|column: Seq<char>| #[trigger] out@.dom().contains(column) implies exists|
                k: int,
            |
                0 <= k < i + 1 && column_of((#[trigger] self@.fields[k]).field) == column by {
                if column == added {
                    assert(column_of(self@.fields[i as int].field) == column);
                } else {
                    assert(before.dom().contains(column));
                }
            }
            i = i + 1;
        }
        out
    }

    /// `meta: log_type` restricts a rule to one log type; absent means any.
    pub fn applies_to(&self, log_type: &str) -> (b: bool)
        ensures
            b == self@.runs_on(log_type@),
    {
        match self.meta_str("log_type") {
            Some(wanted) => same(wanted, log_type),
            None => true,
        }
    }
}

} // verus!
