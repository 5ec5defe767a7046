//! Recursive-descent parser over the token stream.

use vstd::prelude::*;

use crate::number;
use crate::number::{decimal_text, whole};
use crate::rule;
use crate::rule::lex;
use crate::rule::lex::{lexemes, LexError, Lexeme, Token};
use crate::rule::pattern;
use crate::rule::{Condition, FieldCondition, Literal, Op, Pattern, Rule};
use crate::text;
use crate::text::{chars_of, debug_quoted, same, string_of};
use crate::textmap::TextMap;

verus! {

/// Why a source holds no rules.
#[derive(Debug)]
pub enum ParseRuleError {
    Lex(LexError),
    Syntax { rule: String, line: usize, message: String },
    DuplicateId { id: String },
    UndefinedVar { rule: String, line: usize, var: String },
    UnsupportedOp { rule: String, line: usize, op: String },
}

pub ghost enum ParseErrorModel {
    Lex(lex::LexErrorModel),
    Syntax { rule: Seq<char>, line: nat, message: Seq<char> },
    DuplicateId { id: Seq<char> },
    UndefinedVar { rule: Seq<char>, line: nat, var: Seq<char> },
    UnsupportedOp { rule: Seq<char>, line: nat, op: Seq<char> },
}

impl View for ParseRuleError {
    type V = ParseErrorModel;

    open spec fn view(&self) -> ParseErrorModel {
        match self {
            ParseRuleError::Lex(e) => ParseErrorModel::Lex(e@),
            ParseRuleError::Syntax { rule, line, message } => ParseErrorModel::Syntax {
                rule: rule@,
                line: *line as nat,
                message: message@,
            },
            ParseRuleError::DuplicateId { id } => ParseErrorModel::DuplicateId { id: id@ },
            ParseRuleError::UndefinedVar { rule, line, var } => ParseErrorModel::UndefinedVar {
                rule: rule@,
                line: *line as nat,
                var: var@,
            },
            ParseRuleError::UnsupportedOp { rule, line, op } => ParseErrorModel::UnsupportedOp {
                rule: rule@,
                line: *line as nat,
                op: op@,
            },
        }
    }
}

impl ParseErrorModel {
    pub open spec fn line(self) -> Option<nat> {
        match self {
            ParseErrorModel::Lex(e) => Some(e.line),
            ParseErrorModel::Syntax { line, .. } => Some(line),
            ParseErrorModel::UndefinedVar { line, .. } => Some(line),
            ParseErrorModel::UnsupportedOp { line, .. } => Some(line),
            ParseErrorModel::DuplicateId { .. } => None,
        }
    }

    /// The error as one line of text.
    pub open spec fn shown(self) -> Seq<char> {
        match self {
            ParseErrorModel::Lex(e) => "rule syntax error: "@ + "line "@ + number::decimal(e.line)
                + ": "@ + e.message,
            ParseErrorModel::Syntax { rule, line, message } => place_text(line, rule) + message,
            ParseErrorModel::DuplicateId { id } => "duplicate rule id `"@ + id + "`"@,
            ParseErrorModel::UndefinedVar { rule, line, var } => place_text(line, rule)
                + "condition uses undefined variable `"@ + var + "`"@,
            ParseErrorModel::UnsupportedOp { rule, line, op } => place_text(line, rule)
                + "unsupported operator `"@ + op + "`"@,
        }
    }
}

/// Where an error is: its line and its rule.
pub open spec fn place_text(line: nat, rule: Seq<char>) -> Seq<char> {
    "line "@ + number::decimal(line) + ": rule `"@ + rule + "`: "@
}

fn place(line: usize, rule: &str) -> (out: String)
    ensures
        out@ == place_text(line as nat, rule@),
{
    let mut out = "line ".to_owned();
    out.push_str(decimal_text(line as u64).as_str());
    out.push_str(": rule `");
    out.push_str(rule);
    out.push_str("`: ");
    out
}

impl ParseRuleError {
    /// The 1-based source line the error points at, for an editor to mark.
    /// A duplicate id is a property of the file, not a place in it.
    pub fn line(&self) -> (r: Option<usize>)
        ensures
            match r {
                Some(line) => self@.line() == Some(line as nat),
                None => self@.line() is None,
            },
    {
        match self {
            ParseRuleError::Lex(e) => Some(e.line),
            ParseRuleError::Syntax { line, .. } => Some(*line),
            ParseRuleError::UndefinedVar { line, .. } => Some(*line),
            ParseRuleError::UnsupportedOp { line, .. } => Some(*line),
            ParseRuleError::DuplicateId { .. } => None,
        }
    }

    /// The error as one line of text.
    pub fn message(&self) -> (out: String)
        ensures
            out@ == self@.shown(),
    {
        match self {
            ParseRuleError::Lex(e) => {
                let mut out = "rule syntax error: ".to_owned();
                out.push_str(e.message().as_str());
                assert(out@ =~= self@.shown());
                out
            },
            ParseRuleError::Syntax { rule, line, message } => {
                let mut out = place(*line, rule.as_str());
                out.push_str(message.as_str());
                out
            },
            ParseRuleError::DuplicateId { id } => {
                let mut out = "duplicate rule id `".to_owned();
                out.push_str(id.as_str());
                out.push_str("`");
                out
            },
            ParseRuleError::UndefinedVar { rule, line, var } => {
                let mut out = place(*line, rule.as_str());
                out.push_str("condition uses undefined variable `");
                out.push_str(var.as_str());
                out.push_str("`");
                out
            },
            ParseRuleError::UnsupportedOp { rule, line, op } => {
                let mut out = place(*line, rule.as_str());
                out.push_str("unsupported operator `");
                out.push_str(op.as_str());
                out.push_str("`");
                out
            },
        }
    }
}

// ---------------------------------------------------------- diagnostics

/// A token as a diagnostic names it.
pub open spec fn debug_token(token: lex::TokenModel) -> Seq<char> {
    match token {
        lex::TokenModel::Word(t) => "Word("@ + text::debug_of(t) + ")"@,
        lex::TokenModel::Var(t) => "Var("@ + text::debug_of(t) + ")"@,
        lex::TokenModel::Str(t) => "Str("@ + text::debug_of(t) + ")"@,
        lex::TokenModel::Num(d) => "Num("@ + d.debug + ")"@,
        lex::TokenModel::Regex(t) => "Regex("@ + text::debug_of(t) + ")"@,
        lex::TokenModel::LBrace => "LBrace"@,
        lex::TokenModel::RBrace => "RBrace"@,
        lex::TokenModel::LParen => "LParen"@,
        lex::TokenModel::RParen => "RParen"@,
        lex::TokenModel::Comma => "Comma"@,
        lex::TokenModel::Colon => "Colon"@,
        lex::TokenModel::Sym(t) => "Sym("@ + text::debug_of(t) + ")"@,
    }
}

/// What was found where something else had to be.
pub open spec fn debug_found(token: Option<lex::TokenModel>) -> Seq<char> {
    match token {
        Some(t) => "Some("@ + debug_token(t) + ")"@,
        None => "None"@,
    }
}

fn wrapped(name: &str, inner: &str) -> (out: String)
    ensures
        out@ == name@ + inner@ + ")"@,
{
    let mut out = name.to_owned();
    out.push_str(inner);
    out.push_str(")");
    out
}

fn token_text(token: &Token) -> (out: String)
    ensures
        out@ == debug_token(token@),
{
    match token {
        Token::Word(t) => wrapped("Word(", debug_quoted(t.as_str()).as_str()),
        Token::Var(t) => wrapped("Var(", debug_quoted(t.as_str()).as_str()),
        Token::Str(t) => wrapped("Str(", debug_quoted(t.as_str()).as_str()),
        Token::Num(d) => wrapped("Num(", d.debug.as_str()),
        Token::Regex(t) => wrapped("Regex(", debug_quoted(t.as_str()).as_str()),
        Token::LBrace => "LBrace".to_owned(),
        Token::RBrace => "RBrace".to_owned(),
        Token::LParen => "LParen".to_owned(),
        Token::RParen => "RParen".to_owned(),
        Token::Comma => "Comma".to_owned(),
        Token::Colon => "Colon".to_owned(),
        Token::Sym(t) => wrapped("Sym(", debug_quoted(*t).as_str()),
    }
}

fn found_text(token: Option<&Token>) -> (out: String)
    ensures
        out@ == debug_found(token_model(token)),
{
    match token {
        Some(t) => wrapped("Some(", token_text(t).as_str()),
        None => "None".to_owned(),
    }
}

pub open spec fn token_model(token: Option<&Token>) -> Option<lex::TokenModel> {
    match token {
        Some(t) => Some(t@),
        None => None,
    }
}

// -------------------------------------------------------------- grammar

/// The tokens of a source and the line of each.
pub ghost struct Input {
    pub tokens: Seq<lex::TokenModel>,
    pub lines: Seq<nat>,
}

impl Input {
    pub open spec fn at(self, i: int) -> Option<lex::TokenModel> {
        if 0 <= i < self.tokens.len() {
            Some(self.tokens[i])
        } else {
            None
        }
    }

    /// Line of token `i`; past the last token, the line of the last one.
    pub open spec fn line_at(self, i: int) -> nat {
        if 0 <= i < self.lines.len() {
            self.lines[i]
        } else if self.lines.len() > 0 {
            self.lines.last()
        } else {
            1
        }
    }

    pub open spec fn len(self) -> int {
        self.tokens.len() as int
    }
}

pub open spec fn syntax(s: Input, rule: Seq<char>, i: int, message: Seq<char>) -> ParseErrorModel {
    ParseErrorModel::Syntax { rule, line: s.line_at(i), message }
}

/// Token `i` stands where something else had to be.
pub open spec fn misplaced(s: Input, rule: Seq<char>, i: int, wanted: Seq<char>) -> ParseErrorModel {
    syntax(s, rule, i, wanted + ", found "@ + debug_found(s.at(i)))
}

/// One given token.
pub open spec fn expect(s: Input, i: int, wanted: lex::TokenModel, rule: Seq<char>) -> Result<
    int,
    ParseErrorModel,
> {
    if s.at(i) == Some(wanted) {
        Ok(i + 1)
    } else {
        Err(misplaced(s, rule, i, "expected "@ + debug_token(wanted)))
    }
}

/// `key = "value"`, any number of times. A section name is followed by `:`, a
/// key by `=`.
pub open spec fn meta_from(s: Input, i: int, rule: Seq<char>, done: Map<Seq<char>, Seq<char>>) -> Result<
    (Map<Seq<char>, Seq<char>>, int),
    ParseErrorModel,
>
    decreases s.len() - i,
{
    match s.at(i) {
        Some(lex::TokenModel::Word(key)) => if s.at(i + 1) == Some(lex::TokenModel::Sym("="@)) {
            match s.at(i + 2) {
                Some(lex::TokenModel::Str(value)) => meta_from(
                    s,
                    i + 3,
                    rule,
                    done.insert(key, value),
                ),
                _ => Err(misplaced(s, rule, i + 2, "meta `"@ + key + "` needs a string value"@)),
            }
        } else {
            Ok((done, i))
        },
        _ => Ok((done, i)),
    }
}

pub open spec fn symbol_op(symbol: Seq<char>) -> Option<Op> {
    if symbol == "=="@ {
        Some(Op::Eq)
    } else if symbol == "!="@ {
        Some(Op::Ne)
    } else if symbol == ">"@ {
        Some(Op::Gt)
    } else if symbol == ">="@ {
        Some(Op::Ge)
    } else if symbol == "<"@ {
        Some(Op::Lt)
    } else if symbol == "<="@ {
        Some(Op::Le)
    } else {
        None
    }
}

pub open spec fn word_op(word: Seq<char>) -> Option<Op> {
    if word == "contains"@ {
        Some(Op::Contains)
    } else if word == "icontains"@ {
        Some(Op::IContains)
    } else if word == "startswith"@ {
        Some(Op::StartsWith)
    } else if word == "istartswith"@ {
        Some(Op::IStartsWith)
    } else if word == "endswith"@ {
        Some(Op::EndsWith)
    } else if word == "iendswith"@ {
        Some(Op::IEndsWith)
    } else if word == "matches"@ {
        Some(Op::Matches)
    } else if word == "in"@ {
        Some(Op::In)
    } else if word == "exists"@ {
        Some(Op::Exists)
    } else if word == "missing"@ {
        Some(Op::Missing)
    } else {
        None
    }
}

/// The strings of an `in (...)` list behind its opening parenthesis.
pub open spec fn set_from(s: Input, i: int, rule: Seq<char>, done: Seq<Seq<char>>) -> Result<
    (Seq<Seq<char>>, int),
    ParseErrorModel,
>
    decreases s.len() - i,
{
    match s.at(i) {
        Some(lex::TokenModel::Str(item)) => match s.at(i + 1) {
            Some(lex::TokenModel::Comma) => set_from(s, i + 2, rule, done.push(item)),
            Some(lex::TokenModel::RParen) => Ok((done.push(item), i + 2)),
            _ => Err(misplaced(s, rule, i + 1, "expected `,` or `)`"@)),
        },
        _ => Err(misplaced(s, rule, i, "`in` takes string values"@)),
    }
}

/// The value an operator is followed by.
pub open spec fn operand(s: Input, i: int, rule: Seq<char>, op: Op) -> Result<
    (rule::LiteralModel, int),
    ParseErrorModel,
> {
    match op {
        Op::Exists | Op::Missing => Ok((rule::LiteralModel::Nothing, i)),
        Op::In => match expect(s, i, lex::TokenModel::LParen, rule) {
            Ok(j) => match set_from(s, j, rule, Seq::empty()) {
                Ok((items, k)) => Ok((rule::LiteralModel::OneOf(items), k)),
                Err(e) => Err(e),
            },
            Err(e) => Err(e),
        },
        Op::Matches => match s.at(i) {
            Some(lex::TokenModel::Regex(source)) => match pattern::regex_fault(source) {
                None => Ok((rule::LiteralModel::Regex(source), i + 1)),
                Some(fault) => Err(
                    syntax(s, rule, i, "invalid regex `/"@ + source + "/`: "@ + fault),
                ),
            },
            _ => Err(misplaced(s, rule, i, "`matches` needs /regex/"@)),
        },
        _ => match s.at(i) {
            Some(lex::TokenModel::Str(t)) => Ok((rule::LiteralModel::Str(t), i + 1)),
            Some(lex::TokenModel::Num(d)) => Ok((rule::LiteralModel::Num(d), i + 1)),
            Some(lex::TokenModel::Word(w)) => if w == "true"@ {
                Ok((rule::LiteralModel::Bool(true), i + 1))
            } else if w == "false"@ {
                Ok((rule::LiteralModel::Bool(false), i + 1))
            } else {
                Err(misplaced(s, rule, i, "expected a value"@))
            },
            _ => Err(misplaced(s, rule, i, "expected a value"@)),
        },
    }
}

pub open spec fn unsupported(s: Input, rule: Seq<char>, i: int, op: Seq<char>) -> ParseErrorModel {
    ParseErrorModel::UnsupportedOp { rule, line: s.line_at(i), op }
}

/// An operator and its value.
pub open spec fn operator(s: Input, i: int, rule: Seq<char>) -> Result<
    (Op, rule::LiteralModel, int),
    ParseErrorModel,
> {
    let op = match s.at(i) {
        Some(lex::TokenModel::Sym(symbol)) => symbol_op(symbol),
        Some(lex::TokenModel::Word(word)) => word_op(word),
        _ => None,
    };
    match op {
        Some(op) => match operand(s, i + 1, rule, op) {
            Ok((value, j)) => Ok((op, value, j)),
            Err(e) => Err(e),
        },
        None => match s.at(i) {
            Some(lex::TokenModel::Word(word)) => Err(unsupported(s, rule, i, word)),
            _ => Err(unsupported(s, rule, i, debug_found(s.at(i)))),
        },
    }
}

/// `$var = field op value`, any number of times.
pub open spec fn fields_from(s: Input, i: int, rule: Seq<char>, done: Seq<rule::FieldModel>) -> Result<
    (Seq<rule::FieldModel>, int),
    ParseErrorModel,
>
    decreases s.len() - i,
{
    match s.at(i) {
        Some(lex::TokenModel::Var(var)) => match expect(
            s,
            i + 1,
            lex::TokenModel::Sym("="@),
            rule,
        ) {
            Err(e) => Err(e),
            Ok(_) => match s.at(i + 2) {
                Some(lex::TokenModel::Word(field)) => match operator(s, i + 3, rule) {
                    Err(e) => Err(e),
                    Ok((op, value, j)) => if i < j <= s.len() {
                        fields_from(
                            s,
                            j,
                            rule,
                            done.push(rule::FieldModel { var, field, op, value }),
                        )
                    } else {
                        Ok((done, i))
                    },
                },
                _ => Err(misplaced(s, rule, i + 2, "expected a field name"@)),
            },
        },
        _ => Ok((done, i)),
    }
}

/// The variables of an `N of (...)` list behind its opening parenthesis.
pub open spec fn vars_from(s: Input, i: int, rule: Seq<char>, done: Seq<Seq<char>>) -> Result<
    (Seq<Seq<char>>, int),
    ParseErrorModel,
>
    decreases s.len() - i,
{
    match s.at(i) {
        Some(lex::TokenModel::Var(var)) => match s.at(i + 1) {
            Some(lex::TokenModel::Comma) => vars_from(s, i + 2, rule, done.push(var)),
            Some(lex::TokenModel::RParen) => Ok((done.push(var), i + 2)),
            _ => Err(misplaced(s, rule, i + 1, "expected `,` or `)`"@)),
        },
        _ => Err(misplaced(s, rule, i, "`of` takes variables"@)),
    }
}

/// `N of ($a, $b, ...)`, from its count on.
pub open spec fn n_of(s: Input, i: int, rule: Seq<char>, count: number::DoubleModel) -> Result<
    (rule::ConditionModel, int),
    ParseErrorModel,
> {
    if s.at(i + 1) == Some(lex::TokenModel::Word("of"@)) {
        match expect(s, i + 2, lex::TokenModel::LParen, rule) {
            Err(e) => Err(e),
            Ok(_) => match vars_from(s, i + 3, rule, Seq::empty()) {
                Err(e) => Err(e),
                Ok((vars, j)) => Ok(
                    (
                        rule::ConditionModel::NOf(
                            number::whole_part(count.bits, usize::MAX as nat),
                            vars,
                        ),
                        j,
                    ),
                ),
            },
        }
    } else {
        Err(misplaced(s, rule, i + 1, "expected `of` after a count"@))
    }
}

/// `not`, a parenthesis, a variable or `N of (...)`.
pub open spec fn unary(s: Input, i: int, rule: Seq<char>) -> Result<
    (rule::ConditionModel, int),
    ParseErrorModel,
>
    decreases s.len() - i, 0int,
{
    match s.at(i) {
        Some(lex::TokenModel::LParen) => match disjunction(s, i + 1, rule) {
            Err(e) => Err(e),
            Ok((inner, j)) => match expect(s, j, lex::TokenModel::RParen, rule) {
                Err(e) => Err(e),
                Ok(k) => Ok((inner, k)),
            },
        },
        Some(lex::TokenModel::Var(var)) => Ok((rule::ConditionModel::Var(var), i + 1)),
        Some(lex::TokenModel::Num(count)) => n_of(s, i, rule, count),
        Some(lex::TokenModel::Word(word)) => if word == "not"@ {
            match unary(s, i + 1, rule) {
                Err(e) => Err(e),
                Ok((inner, j)) => Ok((rule::ConditionModel::Not(Box::new(inner)), j)),
            }
        } else {
            Err(misplaced(s, rule, i, "expected a condition"@))
        },
        _ => Err(misplaced(s, rule, i, "expected a condition"@)),
    }
}

/// More operands of an `and`, joined to `left`.
pub open spec fn and_tail(s: Input, i: int, rule: Seq<char>, left: rule::ConditionModel) -> Result<
    (rule::ConditionModel, int),
    ParseErrorModel,
>
    decreases s.len() - i, 1int,
{
    if s.at(i) == Some(lex::TokenModel::Word("and"@)) {
        match unary(s, i + 1, rule) {
            Err(e) => Err(e),
            Ok((right, j)) => if i < j <= s.len() {
                and_tail(s, j, rule, rule::ConditionModel::And(Box::new(left), Box::new(right)))
            } else {
                Ok((left, i))
            },
        }
    } else {
        Ok((left, i))
    }
}

pub open spec fn conjunction(s: Input, i: int, rule: Seq<char>) -> Result<
    (rule::ConditionModel, int),
    ParseErrorModel,
>
    decreases s.len() - i, 2int,
{
    match unary(s, i, rule) {
        Err(e) => Err(e),
        Ok((left, j)) => if i < j <= s.len() {
            and_tail(s, j, rule, left)
        } else {
            Ok((left, i))
        },
    }
}

/// More operands of an `or`, joined to `left`.
pub open spec fn or_tail(s: Input, i: int, rule: Seq<char>, left: rule::ConditionModel) -> Result<
    (rule::ConditionModel, int),
    ParseErrorModel,
>
    decreases s.len() - i, 3int,
{
    if s.at(i) == Some(lex::TokenModel::Word("or"@)) {
        match conjunction(s, i + 1, rule) {
            Err(e) => Err(e),
            Ok((right, j)) => if i < j <= s.len() {
                or_tail(s, j, rule, rule::ConditionModel::Or(Box::new(left), Box::new(right)))
            } else {
                Ok((left, i))
            },
        }
    } else {
        Ok((left, i))
    }
}

/// A whole condition: `or` binds loosest, then `and`, then `not`.
pub open spec fn disjunction(s: Input, i: int, rule: Seq<char>) -> Result<
    (rule::ConditionModel, int),
    ParseErrorModel,
>
    decreases s.len() - i, 4int,
{
    match conjunction(s, i, rule) {
        Err(e) => Err(e),
        Ok((left, j)) => if i < j <= s.len() {
            or_tail(s, j, rule, left)
        } else {
            Ok((left, i))
        },
    }
}

/// What the sections of a rule have said so far.
pub ghost struct Sections {
    pub meta: Map<Seq<char>, Seq<char>>,
    pub fields: Seq<rule::FieldModel>,
    /// The condition and the token it starts at.
    pub condition: Option<(rule::ConditionModel, int)>,
}

/// The sections of a rule up to its closing brace. A section that comes again
/// replaces the earlier one.
pub open spec fn sections_from(s: Input, i: int, id: Seq<char>, done: Sections) -> Result<
    (Sections, int),
    ParseErrorModel,
>
    decreases s.len() - i,
{
    match s.at(i) {
        Some(lex::TokenModel::RBrace) => Ok((done, i)),
        Some(lex::TokenModel::Word(section)) => match expect(
            s,
            i + 1,
            lex::TokenModel::Colon,
            id,
        ) {
            Err(e) => Err(e),
            Ok(_) => if section == "meta"@ {
                match meta_from(s, i + 2, id, Map::empty()) {
                    Err(e) => Err(e),
                    Ok((meta, j)) => if i < j <= s.len() {
                        sections_from(s, j, id, Sections { meta, ..done })
                    } else {
                        Ok((done, i))
                    },
                }
            } else if section == "fields"@ {
                match fields_from(s, i + 2, id, Seq::empty()) {
                    Err(e) => Err(e),
                    Ok((fields, j)) => if i < j <= s.len() {
                        sections_from(s, j, id, Sections { fields, ..done })
                    } else {
                        Ok((done, i))
                    },
                }
            } else if section == "condition"@ {
                match disjunction(s, i + 2, id) {
                    Err(e) => Err(e),
                    Ok((condition, j)) => if i < j <= s.len() {
                        sections_from(
                            s,
                            j,
                            id,
                            Sections { condition: Some((condition, i + 2)), ..done },
                        )
                    } else {
                        Ok((done, i))
                    },
                }
            } else {
                Err(syntax(s, id, i + 1, "unknown section `"@ + section + "`"@))
            },
        },
        _ => Err(misplaced(s, id, i, "expected a section name"@)),
    }
}

/// A field condition binds `var`.
pub open spec fn is_declared(fields: Seq<rule::FieldModel>, var: Seq<char>) -> bool {
    exists|i: int| 0 <= i < fields.len() && (#[trigger] fields[i]).var == var
}

/// The first of `vars` from `i` on that no field condition binds.
pub open spec fn undeclared_from(vars: Seq<Seq<char>>, i: int, fields: Seq<rule::FieldModel>) -> Option<
    Seq<char>,
>
    decreases vars.len() - i,
{
    if i < 0 || i >= vars.len() {
        None
    } else if !is_declared(fields, vars[i]) {
        Some(vars[i])
    } else {
        undeclared_from(vars, i + 1, fields)
    }
}

/// The first variable the condition uses without declaring, if any.
pub open spec fn undeclared(condition: rule::ConditionModel, fields: Seq<rule::FieldModel>) -> Option<
    Seq<char>,
>
    decreases condition,
{
    match condition {
        rule::ConditionModel::Var(var) => if is_declared(fields, var) {
            None
        } else {
            Some(var)
        },
        rule::ConditionModel::Not(inner) => undeclared(*inner, fields),
        rule::ConditionModel::And(a, b) => match undeclared(*a, fields) {
            Some(var) => Some(var),
            None => undeclared(*b, fields),
        },
        rule::ConditionModel::Or(a, b) => match undeclared(*a, fields) {
            Some(var) => Some(var),
            None => undeclared(*b, fields),
        },
        rule::ConditionModel::NOf(_, vars) => undeclared_from(vars, 0, fields),
    }
}

/// Where `var` is used at or after token `i`; `otherwise` if nowhere.
pub open spec fn use_from(s: Input, i: int, var: Seq<char>, otherwise: int) -> int
    decreases s.len() - i,
{
    if i < 0 || i >= s.len() {
        otherwise
    } else if s.tokens[i] == lex::TokenModel::Var(var) {
        i
    } else {
        use_from(s, i + 1, var, otherwise)
    }
}

/// One rule. Every variable its condition uses must be declared, or the rule
/// would silently never match.
pub open spec fn rule_at(s: Input, i: int) -> Result<(rule::RuleModel, int), ParseErrorModel> {
    if s.at(i) != Some(lex::TokenModel::Word("rule"@)) {
        Err(misplaced(s, "<top level>"@, i, "expected `rule`"@))
    } else {
        match s.at(i + 1) {
            Some(lex::TokenModel::Word(id)) => match expect(
                s,
                i + 2,
                lex::TokenModel::LBrace,
                id,
            ) {
                Err(e) => Err(e),
                Ok(_) => match sections_from(
                    s,
                    i + 3,
                    id,
                    Sections { meta: Map::empty(), fields: Seq::empty(), condition: None },
                ) {
                    Err(e) => Err(e),
                    Ok((done, j)) => match done.condition {
                        None => Err(syntax(s, id, j, "missing `condition:` section"@)),
                        Some((condition, start)) => match undeclared(condition, done.fields) {
                            Some(var) => Err(
                                ParseErrorModel::UndefinedVar {
                                    rule: id,
                                    line: s.line_at(use_from(s, start, var, start)),
                                    var,
                                },
                            ),
                            None => Ok(
                                (
                                    rule::RuleModel {
                                        id,
                                        meta: done.meta,
                                        fields: done.fields,
                                        condition,
                                    },
                                    j + 1,
                                ),
                            ),
                        },
                    },
                },
            },
            _ => Err(misplaced(s, "<top level>"@, i + 1, "expected rule identifier"@)),
        }
    }
}

pub open spec fn has_id(rules: Seq<rule::RuleModel>, id: Seq<char>) -> bool {
    exists|i: int| 0 <= i < rules.len() && (#[trigger] rules[i]).id == id
}

/// The rules from token `i` on, behind those already read.
pub open spec fn rules_from(s: Input, i: int, done: Seq<rule::RuleModel>) -> Result<
    Seq<rule::RuleModel>,
    ParseErrorModel,
>
    decreases s.len() - i,
{
    if i < 0 || i >= s.len() {
        Ok(done)
    } else {
        match rule_at(s, i) {
            Err(e) => Err(e),
            Ok((rule, j)) => if has_id(done, rule.id) {
                Err(ParseErrorModel::DuplicateId { id: rule.id })
            } else if i < j <= s.len() {
                rules_from(s, j, done.push(rule))
            } else {
                Ok(done)
            },
        }
    }
}

/// The tokens of a source with the line each starts on.
pub open spec fn input_of(src: Seq<char>, list: Seq<lex::Spanned>) -> Input {
    Input {
        tokens: lex::bare(list),
        lines: Seq::new(
            list.len(),
            |i: int| lex::below(1, lex::newlines(src, 0, list[i].start)),
        ),
    }
}

/// The rules a source holds.
pub open spec fn parsed(src: Seq<char>) -> Result<Seq<rule::RuleModel>, ParseErrorModel> {
    match lex::tokens(src) {
        Ok(list) => rules_from(input_of(src, list), 0, Seq::empty()),
        Err(e) => Err(ParseErrorModel::Lex(e)),
    }
}

// ------------------------------------------------------------ execution

/// The tokens being parsed and the line of each.
struct Tokens {
    list: Vec<Token>,
    lines: Vec<usize>,
}

impl View for Tokens {
    type V = Input;

    closed spec fn view(&self) -> Input {
        Input {
            tokens: lex::models(self.list@),
            lines: Seq::new(self.lines@.len(), |i: int| self.lines@[i] as nat),
        }
    }
}

impl Tokens {
    fn at(&self, i: usize) -> (r: Option<&Token>)
        ensures
            token_model(r) == self@.at(i as int),
    {
        if i < self.list.len() {
            Some(&self.list[i])
        } else {
            None
        }
    }

    fn line_at(&self, i: usize) -> (line: usize)
        ensures
            line == self@.line_at(i as int),
    {
        if i < self.lines.len() {
            self.lines[i]
        } else if self.lines.len() > 0 {
            self.lines[self.lines.len() - 1]
        } else {
            1
        }
    }

    fn count(&self) -> (n: usize)
        ensures
            n == self@.len(),
    {
        self.list.len()
    }

    fn syntax(&self, rule: &str, i: usize, message: String) -> (e: ParseRuleError)
        ensures
            e@ == syntax(self@, rule@, i as int, message@),
    {
        ParseRuleError::Syntax { rule: rule.to_owned(), line: self.line_at(i), message }
    }

    fn misplaced(&self, rule: &str, i: usize, wanted: &str) -> (e: ParseRuleError)
        ensures
            e@ == misplaced(self@, rule@, i as int, wanted@),
    {
        let mut message = wanted.to_owned();
        message.push_str(", found ");
        message.push_str(found_text(self.at(i)).as_str());
        self.syntax(rule, i, message)
    }

    fn unsupported(&self, rule: &str, i: usize, op: String) -> (e: ParseRuleError)
        ensures
            e@ == unsupported(self@, rule@, i as int, op@),
    {
        ParseRuleError::UnsupportedOp { rule: rule.to_owned(), line: self.line_at(i), op }
    }

    fn is_word(&self, i: usize, word: &str) -> (b: bool)
        ensures
            b == (self@.at(i as int) == Some(lex::TokenModel::Word(word@))),
    {
        match self.at(i) {
            Some(Token::Word(w)) => same(w.as_str(), word),
            _ => false,
        }
    }

    fn is_symbol(&self, i: usize, symbol: &str) -> (b: bool)
        ensures
            b == (self@.at(i as int) == Some(lex::TokenModel::Sym(symbol@))),
    {
        match self.at(i) {
            Some(Token::Sym(x)) => same(*x, symbol),
            _ => false,
        }
    }

    /// Checks that token `i` is `wanted`, a bracket, a colon or a symbol.
    fn expect(&self, i: usize, wanted: Token, rule: &str) -> (r: Result<(), ParseRuleError>)
        requires
            match wanted {
                Token::LBrace | Token::RBrace | Token::LParen | Token::RParen | Token::Colon => true,
                Token::Sym(_) => true,
                _ => false,
            },
        ensures
            match r {
                Ok(_) => expect(self@, i as int, wanted@, rule@) == Ok::<int, ParseErrorModel>(
                    i + 1,
                ) && i < self@.len() && self@.at(i as int) == Some(wanted@),
                Err(e) => expect(self@, i as int, wanted@, rule@) == Err::<int, ParseErrorModel>(
                    e@,
                ),
            },
    {
        let found: bool = match (self.at(i), &wanted) {
            (Some(Token::LBrace), Token::LBrace) => true,
            (Some(Token::RBrace), Token::RBrace) => true,
            (Some(Token::LParen), Token::LParen) => true,
            (Some(Token::RParen), Token::RParen) => true,
            (Some(Token::Colon), Token::Colon) => true,
            (Some(Token::Sym(a)), Token::Sym(b)) => same(*a, *b),
            _ => false,
        };
        if found {
            Ok(())
        } else {
            let mut text = "expected ".to_owned();
            text.push_str(token_text(&wanted).as_str());
            Err(self.misplaced(rule, i, text.as_str()))
        }
    }

    fn meta_section(&self, from: usize, rule: &str) -> (r: Result<
        (TextMap<String>, usize),
        ParseRuleError,
    >)
        requires
            from <= self@.len(),
        ensures
            match r {
                Ok((meta, j)) => meta_from(self@, from as int, rule@, Map::empty()) matches Ok(m)
                    && m.0 == rule::texts_of(meta@) && m.1 == j && from <= j <= self@.len(),
                Err(e) => meta_from(self@, from as int, rule@, Map::empty()) matches Err(m) && m
                    == e@,
            },
    {
        let len: usize = self.count();
        let mut meta: TextMap<String> = TextMap::new();
        let mut i: usize = from;
        assert(rule::texts_of(meta@) =~= Map::empty());
        loop
            invariant
                len == self@.len(),
                from <= i <= len,
                meta_from(self@, from as int, rule@, Map::empty()) == meta_from(
                    self@,
                    i as int,
                    rule@,
                    rule::texts_of(meta@),
                ),
            decreases len - i,
        {
            match self.at(i) {
                Some(Token::Word(key)) => {
                    if !self.is_symbol(i + 1, "=") {
                        return Ok((meta, i));
                    }
                    match self.at(i + 2) {
                        Some(Token::Str(value)) => {
                            let ghost before = rule::texts_of(meta@);
                            meta.insert(key.clone(), value.clone());
                            assert(rule::texts_of(meta@) =~= before.insert(key@, value@));
                            i = i + 3;
                        },
                        _ => {
                            let mut wanted = "meta `".to_owned();
                            wanted.push_str(key.as_str());
                            wanted.push_str("` needs a string value");
                            return Err(self.misplaced(rule, i + 2, wanted.as_str()));
                        },
                    }
                },
                _ => {
                    return Ok((meta, i));
                },
            }
        }
    }

    fn value_set(&self, from: usize, rule: &str) -> (r: Result<(Vec<String>, usize), ParseRuleError>)
        requires
            from <= self@.len(),
        ensures
            match r {
                Ok((items, j)) => set_from(self@, from as int, rule@, Seq::empty()) matches Ok(m)
                    && m.0 == text::texts(items@) && m.1 == j && from < j <= self@.len(),
                Err(e) => set_from(self@, from as int, rule@, Seq::empty()) matches Err(m) && m
                    == e@,
            },
    {
        let len: usize = self.count();
        let mut items: Vec<String> = Vec::new();
        let mut i: usize = from;
        assert(text::texts(items@) =~= Seq::empty());
        loop
            invariant
                len == self@.len(),
                from <= i <= len,
                set_from(self@, from as int, rule@, Seq::empty()) == set_from(
                    self@,
                    i as int,
                    rule@,
                    text::texts(items@),
                ),
            decreases len - i,
        {
            match self.at(i) {
                Some(Token::Str(item)) => {
                    let ghost before = text::texts(items@);
                    items.push(item.clone());
                    assert(text::texts(items@) =~= before.push(item@));
                    match self.at(i + 1) {
                        Some(Token::Comma) => {
                            i = i + 2;
                        },
                        Some(Token::RParen) => {
                            return Ok((items, i + 2));
                        },
                        _ => {
                            return Err(self.misplaced(rule, i + 1, "expected `,` or `)`"));
                        },
                    }
                },
                _ => {
                    return Err(self.misplaced(rule, i, "`in` takes string values"));
                },
            }
        }
    }

    fn operand(&self, i: usize, rule: &str, op: Op) -> (r: Result<(Literal, usize), ParseRuleError>)
        requires
            i <= self@.len(),
        ensures
            match r {
                Ok((value, j)) => operand(self@, i as int, rule@, op) matches Ok(m) && m.0 == value@
                    && m.1 == j && i <= j <= self@.len(),
                Err(e) => operand(self@, i as int, rule@, op) matches Err(m) && m == e@,
            },
    {
        let _len: usize = self.count();
        match op {
            Op::Exists | Op::Missing => Ok((Literal::Nothing, i)),
            Op::In => {
                match self.expect(i, Token::LParen, rule) {
                    Ok(_) => {},
                    Err(e) => return Err(e),
                }
                match self.value_set(i + 1, rule) {
                    Ok((items, j)) => Ok((Literal::OneOf(items), j)),
                    Err(e) => Err(e),
                }
            },
            Op::Matches => match self.at(i) {
                Some(Token::Regex(source)) => match Pattern::new(source.as_str()) {
                    Ok(compiled) => Ok((Literal::Regex(Box::new(compiled)), i + 1)),
                    Err(fault) => {
                        let mut message = "invalid regex `/".to_owned();
                        message.push_str(source.as_str());
                        message.push_str("/`: ");
                        message.push_str(fault.as_str());
                        Err(self.syntax(rule, i, message))
                    },
                },
                _ => Err(self.misplaced(rule, i, "`matches` needs /regex/")),
            },
            _ => match self.at(i) {
                Some(Token::Str(t)) => Ok((Literal::Str(t.clone()), i + 1)),
                Some(Token::Num(d)) => Ok((Literal::Num(d.copy()), i + 1)),
                Some(Token::Word(w)) => {
                    if same(w.as_str(), "true") {
                        Ok((Literal::Bool(true), i + 1))
                    } else if same(w.as_str(), "false") {
                        Ok((Literal::Bool(false), i + 1))
                    } else {
                        Err(self.misplaced(rule, i, "expected a value"))
                    }
                },
                _ => Err(self.misplaced(rule, i, "expected a value")),
            },
        }
    }

    fn operator(&self, i: usize, rule: &str) -> (r: Result<(Op, Literal, usize), ParseRuleError>)
        requires
            i <= self@.len(),
        ensures
            match r {
                Ok((op, value, j)) => operator(self@, i as int, rule@) matches Ok(m) && m.0 == op
                    && m.1 == value@ && m.2 == j && i < j <= self@.len(),
                Err(e) => operator(self@, i as int, rule@) matches Err(m) && m == e@,
            },
    {
        let _len: usize = self.count();
        let op: Option<Op> = match self.at(i) {
            Some(Token::Sym(symbol)) => op_of_symbol(*symbol),
            Some(Token::Word(word)) => op_of_word(word.as_str()),
            _ => None,
        };
        match op {
            Some(op) => match self.operand(i + 1, rule, op) {
                Ok((value, j)) => Ok((op, value, j)),
                Err(e) => Err(e),
            },
            None => match self.at(i) {
                Some(Token::Word(word)) => Err(self.unsupported(rule, i, word.clone())),
                _ => Err(self.unsupported(rule, i, found_text(self.at(i)))),
            },
        }
    }

    fn fields_section(&self, from: usize, rule: &str) -> (r: Result<
        (Vec<FieldCondition>, usize),
        ParseRuleError,
    >)
        requires
            from <= self@.len(),
        ensures
            match r {
                Ok((fields, j)) => fields_from(self@, from as int, rule@, Seq::empty()) matches Ok(
                    m,
                ) && m.0 == rule::field_models(fields@) && m.1 == j && from <= j <= self@.len(),
                Err(e) => fields_from(self@, from as int, rule@, Seq::empty()) matches Err(m) && m
                    == e@,
            },
    {
        let len: usize = self.count();
        let mut fields: Vec<FieldCondition> = Vec::new();
        let mut i: usize = from;
        assert(rule::field_models(fields@) =~= Seq::empty());
        loop
            invariant
                len == self@.len(),
                from <= i <= len,
                fields_from(self@, from as int, rule@, Seq::empty()) == fields_from(
                    self@,
                    i as int,
                    rule@,
                    rule::field_models(fields@),
                ),
            decreases len - i,
        {
            match self.at(i) {
                Some(Token::Var(var)) => {
                    match self.expect(i + 1, Token::Sym("="), rule) {
                        Ok(_) => {},
                        Err(e) => return Err(e),
                    }
                    match self.at(i + 2) {
                        Some(Token::Word(field)) => {
                            let (op, value, j) = match self.operator(i + 3, rule) {
                                Ok(found) => found,
                                Err(e) => return Err(e),
                            };
                            let ghost before = rule::field_models(fields@);
                            let condition = FieldCondition {
                                var: var.clone(),
                                field: field.clone(),
                                op,
                                value,
                            };
                            let ghost model = condition@;
                            fields.push(condition);
                            assert(rule::field_models(fields@) =~= before.push(model));
                            i = j;
                        },
                        _ => {
                            return Err(self.misplaced(rule, i + 2, "expected a field name"));
                        },
                    }
                },
                _ => {
                    return Ok((fields, i));
                },
            }
        }
    }

    fn n_of(&self, i: usize, rule: &str, bits: u64) -> (r: Result<(Condition, usize), ParseRuleError>)
        requires
            i < self@.len(),
            self@.at(i as int) matches Some(lex::TokenModel::Num(d)) && d.bits == bits,
        ensures
            match r {
                Ok((condition, j)) => unary(self@, i as int, rule@) matches Ok(m) && m.0
                    == condition@ && m.1 == j && i < j <= self@.len(),
                Err(e) => unary(self@, i as int, rule@) matches Err(m) && m == e@,
            },
    {
        let len: usize = self.count();
        if !self.is_word(i + 1, "of") {
            return Err(self.misplaced(rule, i + 1, "expected `of` after a count"));
        }
        match self.expect(i + 2, Token::LParen, rule) {
            Ok(_) => {},
            Err(e) => return Err(e),
        }
        let start: usize = i + 3;
        let mut vars: Vec<String> = Vec::new();
        let mut k: usize = start;
        assert(text::texts(vars@) =~= Seq::empty());
        loop
            invariant
                len == self@.len(),
                i < start == i + 3,
                start <= k <= len,
                self@.at(i as int) matches Some(lex::TokenModel::Num(d)) && d.bits == bits,
                self@.at(i + 1) == Some(lex::TokenModel::Word("of"@)),
                self@.at(i + 2) == Some(lex::TokenModel::LParen),
                vars_from(self@, start as int, rule@, Seq::empty()) == vars_from(
                    self@,
                    k as int,
                    rule@,
                    text::texts(vars@),
                ),
            decreases len - k,
        {
            match self.at(k) {
                Some(Token::Var(var)) => {
                    let ghost before = text::texts(vars@);
                    vars.push(var.clone());
                    assert(text::texts(vars@) =~= before.push(var@));
                    match self.at(k + 1) {
                        Some(Token::Comma) => {
                            k = k + 2;
                        },
                        Some(Token::RParen) => {
                            return Ok((Condition::NOf(whole(bits), vars), k + 2));
                        },
                        _ => {
                            return Err(self.misplaced(rule, k + 1, "expected `,` or `)`"));
                        },
                    }
                },
                _ => {
                    return Err(self.misplaced(rule, k, "`of` takes variables"));
                },
            }
        }
    }

    fn condition_unary(&self, i: usize, rule: &str) -> (r: Result<(Condition, usize), ParseRuleError>)
        requires
            i <= self@.len(),
        ensures
            match r {
                Ok((condition, j)) => unary(self@, i as int, rule@) matches Ok(m) && m.0
                    == condition@ && m.1 == j && i < j <= self@.len(),
                Err(e) => unary(self@, i as int, rule@) matches Err(m) && m == e@,
            },
        decreases self@.len() - i, 0int,
    {
        let _len: usize = self.count();
        match self.at(i) {
            Some(Token::LParen) => {
                let (inner, j) = match self.condition(i + 1, rule) {
                    Ok(found) => found,
                    Err(e) => return Err(e),
                };
                match self.expect(j, Token::RParen, rule) {
                    Ok(_) => Ok((inner, j + 1)),
                    Err(e) => Err(e),
                }
            },
            Some(Token::Var(var)) => Ok((Condition::Var(var.clone()), i + 1)),
            Some(Token::Num(count)) => self.n_of(i, rule, count.bits),
            Some(Token::Word(word)) => {
                if same(word.as_str(), "not") {
                    match self.condition_unary(i + 1, rule) {
                        Ok((inner, j)) => Ok((Condition::Not(Box::new(inner)), j)),
                        Err(e) => Err(e),
                    }
                } else {
                    Err(self.misplaced(rule, i, "expected a condition"))
                }
            },
            _ => Err(self.misplaced(rule, i, "expected a condition")),
        }
    }

    fn condition_and(&self, i: usize, rule: &str) -> (r: Result<(Condition, usize), ParseRuleError>)
        requires
            i <= self@.len(),
        ensures
            match r {
                Ok((condition, j)) => conjunction(self@, i as int, rule@) matches Ok(m) && m.0
                    == condition@ && m.1 == j && i < j <= self@.len(),
                Err(e) => conjunction(self@, i as int, rule@) matches Err(m) && m == e@,
            },
        decreases self@.len() - i, 2int,
    {
        let len: usize = self.count();
        let (mut left, mut j) = match self.condition_unary(i, rule) {
            Ok(found) => found,
            Err(e) => return Err(e),
        };
        while self.is_word(j, "and")
            invariant
                len == self@.len(),
                i < j <= len,
                conjunction(self@, i as int, rule@) == and_tail(self@, j as int, rule@, left@),
            decreases len - j,
        {
            let (right, k) = match self.condition_unary(j + 1, rule) {
                Ok(found) => found,
                Err(e) => return Err(e),
            };
            left = Condition::And(Box::new(left), Box::new(right));
            j = k;
        }
        Ok((left, j))
    }

    /// `or` binds loosest, then `and`, then `not`.
    fn condition(&self, i: usize, rule: &str) -> (r: Result<(Condition, usize), ParseRuleError>)
        requires
            i <= self@.len(),
        ensures
            match r {
                Ok((condition, j)) => disjunction(self@, i as int, rule@) matches Ok(m) && m.0
                    == condition@ && m.1 == j && i < j <= self@.len(),
                Err(e) => disjunction(self@, i as int, rule@) matches Err(m) && m == e@,
            },
        decreases self@.len() - i, 4int,
    {
        let len: usize = self.count();
        let (mut left, mut j) = match self.condition_and(i, rule) {
            Ok(found) => found,
            Err(e) => return Err(e),
        };
        while self.is_word(j, "or")
            invariant
                len == self@.len(),
                i < j <= len,
                disjunction(self@, i as int, rule@) == or_tail(self@, j as int, rule@, left@),
            decreases len - j,
        {
            let (right, k) = match self.condition_and(j + 1, rule) {
                Ok(found) => found,
                Err(e) => return Err(e),
            };
            left = Condition::Or(Box::new(left), Box::new(right));
            j = k;
        }
        Ok((left, j))
    }
}

fn op_of_symbol(symbol: &str) -> (op: Option<Op>)
    ensures
        op == symbol_op(symbol@),
{
    if same(symbol, "==") {
        Some(Op::Eq)
    } else if same(symbol, "!=") {
        Some(Op::Ne)
    } else if same(symbol, ">") {
        Some(Op::Gt)
    } else if same(symbol, ">=") {
        Some(Op::Ge)
    } else if same(symbol, "<") {
        Some(Op::Lt)
    } else if same(symbol, "<=") {
        Some(Op::Le)
    } else {
        None
    }
}

fn op_of_word(word: &str) -> (op: Option<Op>)
    ensures
        op == word_op(word@),
{
    if same(word, "contains") {
        Some(Op::Contains)
    } else if same(word, "icontains") {
        Some(Op::IContains)
    } else if same(word, "startswith") {
        Some(Op::StartsWith)
    } else if same(word, "istartswith") {
        Some(Op::IStartsWith)
    } else if same(word, "endswith") {
        Some(Op::EndsWith)
    } else if same(word, "iendswith") {
        Some(Op::IEndsWith)
    } else if same(word, "matches") {
        Some(Op::Matches)
    } else if same(word, "in") {
        Some(Op::In)
    } else if same(word, "exists") {
        Some(Op::Exists)
    } else if same(word, "missing") {
        Some(Op::Missing)
    } else {
        None
    }
}

fn declares(fields: &Vec<FieldCondition>, var: &str) -> (b: bool)
    ensures
        b == is_declared(rule::field_models(fields@), var@),
{
    let ghost models = rule::field_models(fields@);
    let mut i: usize = 0;
    while i < fields.len()
        invariant
            i <= fields@.len(),
            models == rule::field_models(fields@),
            forall|j: int| 0 <= j < i ==> (#[trigger] models[j]).var != var@,
        decreases fields@.len() - i,
    {
        if same(fields[i].var.as_str(), var) {
            assert(models[i as int].var == var@);
            return true;
        }
        i += 1;
    }
    false
}

/// The first variable the condition uses without declaring, if any.
pub fn undefined_var(condition: &Condition, fields: &Vec<FieldCondition>) -> (r: Option<String>)
    ensures
        text::opt(r) == undeclared(condition@, rule::field_models(fields@)),
    decreases condition,
{
    match condition {
        Condition::Var(var) => {
            if declares(fields, var.as_str()) {
                None
            } else {
                Some(var.clone())
            }
        },
        Condition::Not(inner) => undefined_var(inner, fields),
        Condition::And(a, b) => match undefined_var(a, fields) {
            Some(var) => Some(var),
            None => undefined_var(b, fields),
        },
        Condition::Or(a, b) => match undefined_var(a, fields) {
            Some(var) => Some(var),
            None => undefined_var(b, fields),
        },
        Condition::NOf(_, vars) => {
            let ghost models = rule::field_models(fields@);
            let mut i: usize = 0;
            while i < vars.len()
                invariant
                    i <= vars@.len(),
                    models == rule::field_models(fields@),
                    undeclared(condition@, models) == undeclared_from(
                        text::texts(vars@),
                        0,
                        models,
                    ),
                    undeclared_from(text::texts(vars@), 0, models) == undeclared_from(
                        text::texts(vars@),
                        i as int,
                        models,
                    ),
                decreases vars@.len() - i,
            {
                if !declares(fields, vars[i].as_str()) {
                    return Some(vars[i].clone());
                }
                i += 1;
            }
            None
        },
    }
}

impl Tokens {
    fn use_of(&self, start: usize, var: &str) -> (k: usize)
        ensures
            k == use_from(self@, start as int, var@, start as int),
    {
        let mut i: usize = start;
        while i < self.count()
            invariant
                use_from(self@, start as int, var@, start as int) == use_from(
                    self@,
                    i as int,
                    var@,
                    start as int,
                ),
            decreases self@.len() - i,
        {
            match self.at(i) {
                Some(Token::Var(v)) => {
                    if same(v.as_str(), var) {
                        return i;
                    }
                },
                _ => {},
            }
            i += 1;
        }
        start
    }

    fn rule(&self, i: usize) -> (r: Result<(Rule, usize), ParseRuleError>)
        requires
            i < self@.len(),
        ensures
            match r {
                Ok((rule, j)) => rule_at(self@, i as int) matches Ok(m) && m.0 == rule@ && m.1 == j
                    && i < j <= self@.len(),
                Err(e) => rule_at(self@, i as int) matches Err(m) && m == e@,
            },
    {
        let len: usize = self.count();
        if !self.is_word(i, "rule") {
            return Err(self.misplaced("<top level>", i, "expected `rule`"));
        }
        let id: String = match self.at(i + 1) {
            Some(Token::Word(id)) => id.clone(),
            _ => {
                return Err(self.misplaced("<top level>", i + 1, "expected rule identifier"));
            },
        };
        match self.expect(i + 2, Token::LBrace, id.as_str()) {
            Ok(_) => {},
            Err(e) => return Err(e),
        }
        let start: usize = i + 3;
        let mut meta: TextMap<String> = TextMap::new();
        let mut fields: Vec<FieldCondition> = Vec::new();
        let mut condition: Option<(Condition, usize)> = None;
        let mut j: usize = start;
        let ghost first = Sections { meta: Map::empty(), fields: Seq::empty(), condition: None };
        assert(rule::texts_of(meta@) =~= Map::empty());
        assert(rule::field_models(fields@) =~= Seq::empty());
        let mut open: bool = true;
        while open
            invariant
                len == self@.len(),
                start <= j <= len,
                sections_from(self@, start as int, id@, first) == sections_from(
                    self@,
                    j as int,
                    id@,
                    Sections {
                        meta: rule::texts_of(meta@),
                        fields: rule::field_models(fields@),
                        condition: match condition {
                            Some((c, k)) => Some((c@, k as int)),
                            None => None,
                        },
                    },
                ),
                self@.at(i as int) == Some(lex::TokenModel::Word("rule"@)),
                self@.at(i + 1) == Some(lex::TokenModel::Word(id@)),
                self@.at(i + 2) == Some(lex::TokenModel::LBrace),
                start == i + 3,
                first == (Sections {
                    meta: Map::empty(),
                    fields: Seq::empty(),
                    condition: None,
                }),
                !open ==> self@.at(j as int) == Some(lex::TokenModel::RBrace),
            decreases len - j + if open { 1int } else { 0int },
        {
            match self.at(j) {
                Some(Token::RBrace) => {
                    open = false;
                },
                Some(Token::Word(section)) => {
                    match self.expect(j + 1, Token::Colon, id.as_str()) {
                        Ok(_) => {},
                        Err(e) => return Err(e),
                    }
                    if same(section.as_str(), "meta") {
                        match self.meta_section(j + 2, id.as_str()) {
                            Ok((found, k)) => {
                                meta = found;
                                j = k;
                            },
                            Err(e) => return Err(e),
                        }
                    } else if same(section.as_str(), "fields") {
                        match self.fields_section(j + 2, id.as_str()) {
                            Ok((found, k)) => {
                                fields = found;
                                j = k;
                            },
                            Err(e) => return Err(e),
                        }
                    } else if same(section.as_str(), "condition") {
                        match self.condition(j + 2, id.as_str()) {
                            Ok((found, k)) => {
                                condition = Some((found, j + 2));
                                j = k;
                            },
                            Err(e) => return Err(e),
                        }
                    } else {
                        let mut message = "unknown section `".to_owned();
                        message.push_str(section.as_str());
                        message.push_str("`");
                        return Err(self.syntax(id.as_str(), j + 1, message));
                    }
                },
                _ => {
                    return Err(self.misplaced(id.as_str(), j, "expected a section name"));
                },
            }
        }
        match condition {
            None => Err(
                self.syntax(id.as_str(), j, "missing `condition:` section".to_owned()),
            ),
            Some((condition, begin)) => match undefined_var(&condition, &fields) {
                Some(var) => {
                    let line: usize = self.line_at(self.use_of(begin, var.as_str()));
                    Err(ParseRuleError::UndefinedVar { rule: id, line, var })
                },
                None => Ok((Rule { id, meta, fields, condition }, j + 1)),
            },
        }
    }
}

/// Line of each token, counted once over the source.
fn line_numbers(chars: &Vec<char>, list: &Vec<Lexeme>) -> (lines: Vec<usize>)
    requires
        forall|k: int|
            0 <= k < list@.len() ==> 0 <= (#[trigger] list@[k]).start <= chars@.len(),
        forall|j: int, k: int|
            0 <= j < k < list@.len() ==> (#[trigger] list@[j]).start <= (#[trigger] list@[k]).start,
    ensures
        lines@.len() == list@.len(),
        forall|k: int|
            0 <= k < list@.len() ==> #[trigger] lines@[k] == lex::below(
                1,
                lex::newlines(chars@, 0, list@[k].start as int),
            ),
{
    let mut lines: Vec<usize> = Vec::new();
    let mut line: usize = 1;
    let mut at: usize = 0;
    let mut i: usize = 0;
    while i < list.len()
        invariant
            i <= list@.len(),
            lines@.len() == i,
            at <= chars@.len(),
            i < list@.len() ==> at <= list@[i as int].start,
            line == lex::below(1, lex::newlines(chars@, 0, at as int)),
            forall|k: int|
                0 <= k < list@.len() ==> 0 <= (#[trigger] list@[k]).start <= chars@.len(),
            forall|j: int, k: int|
                0 <= j < k < list@.len() ==> (#[trigger] list@[j]).start <= (
                #[trigger] list@[k]).start,
            forall|k: int|
                0 <= k < i ==> #[trigger] lines@[k] == lex::below(
                    1,
                    lex::newlines(chars@, 0, list@[k].start as int),
                ),
        decreases list@.len() - i,
    {
        let start: usize = list[i].start;
        proof {
            lex::lemma_newlines_split(chars@, 0, at as int, start as int);
        }
        line = line.saturating_add(lex::count_newlines(chars, at, start));
        at = start;
        lines.push(line);
        i += 1;
    }
    lines
}

fn tokens_with_lines(src: &Vec<char>) -> (r: Result<Tokens, ParseRuleError>)
    ensures
        match r {
            Ok(tokens) => lex::tokens(src@) matches Ok(list) && tokens@ == input_of(src@, list),
            Err(e) => lex::tokens(src@) matches Err(m) && e@ == ParseErrorModel::Lex(m),
        },
{
    let found = match lexemes(src) {
        Ok(found) => found,
        Err(e) => return Err(ParseRuleError::Lex(e)),
    };
    let ghost all = found@;
    let ghost spanned = lex::lexeme_models(all);
    proof {
        lex::tokens_are_ordered(src@, 0, 1);
        assert forall|k: int| 0 <= k < all.len() implies 0 <= (#[trigger] all[k]).start
            <= src@.len() by {
            assert(spanned[k] == all[k]@);
        }
        assert forall|j: int, k: int| 0 <= j < k < all.len() implies (#[trigger] all[j]).start <= (
        #[trigger] all[k]).start by {
            assert(spanned[k] == all[k]@);
            assert(spanned[j] == all[j]@);
        }
    }
    let lines = line_numbers(src, &found);
    let mut list: Vec<Token> = Vec::new();
    for lexeme in it: found
        invariant
            it.seq() == all,
            list@.len() == it.index(),
            forall|k: int| 0 <= k < it.index() ==> (#[trigger] list@[k])@ == all[k].token@,
    {
        list.push(lexeme.token);
    }
    let tokens = Tokens { list, lines };
    proof {
        assert(tokens@.tokens =~= lex::bare(spanned));
        assert(tokens@.lines =~= input_of(src@, spanned).lines);
    }
    Ok(tokens)
}

/// Parses every rule in one source file.
pub fn parse_rules(src: &str) -> (r: Result<Vec<Rule>, ParseRuleError>)
    ensures
        match r {
            Ok(rules) => parsed(src@) == Ok::<Seq<rule::RuleModel>, ParseErrorModel>(
                rule::rule_models(rules@),
            ),
            Err(e) => parsed(src@) == Err::<Seq<rule::RuleModel>, ParseErrorModel>(e@),
        },
{
    let chars = chars_of(src);
    let tokens = match tokens_with_lines(&chars) {
        Ok(tokens) => tokens,
        Err(e) => return Err(e),
    };
    let len: usize = tokens.count();
    let mut rules: Vec<Rule> = Vec::new();
    let mut i: usize = 0;
    assert(rule::rule_models(rules@) =~= Seq::empty());
    while i < len
        invariant
            len == tokens@.len(),
            i <= len,
            parsed(src@) == rules_from(tokens@, i as int, rule::rule_models(rules@)),
        decreases len - i,
    {
        let (rule, j) = match tokens.rule(i) {
            Ok(found) => found,
            Err(e) => return Err(e),
        };
        let ghost done = rule::rule_models(rules@);
        let mut k: usize = 0;
        while k < rules.len()
            invariant
                k <= rules@.len(),
                done == rule::rule_models(rules@),
                len == tokens@.len(),
                i < j <= len,
                parsed(src@) == rules_from(tokens@, i as int, done),
                rule_at(tokens@, i as int) matches Ok(m) && m.0 == rule@ && m.1 == j,
                forall|n: int| 0 <= n < k ==> (#[trigger] done[n]).id != rule@.id,
            decreases rules@.len() - k,
        {
            if same(rules[k].id.as_str(), rule.id.as_str()) {
                assert(done[k as int].id == rule@.id);
                return Err(ParseRuleError::DuplicateId { id: rule.id });
            }
            k += 1;
        }
        let ghost model = rule@;
        rules.push(rule);
        assert(rule::rule_models(rules@) =~= done.push(model));
        i = j;
    }
    Ok(rules)
}

/// An id and the source text it heads.
pub ghost struct Cut {
    pub id: Seq<char>,
    pub text: Seq<char>,
}

/// The texts of the rules whose closing brace is token `i` or a later one.
/// `depth` counts the braces open before token `i`; `open` is the id and the
/// start of the rule being read.
pub open spec fn cuts_from(
    src: Seq<char>,
    list: Seq<lex::Spanned>,
    i: int,
    depth: nat,
    open: Option<(Seq<char>, int)>,
) -> Seq<Cut>
    decreases list.len() - i,
{
    if i < 0 || i >= list.len() {
        Seq::empty()
    } else {
        match list[i].token {
            lex::TokenModel::Word(word) => {
                let head = if word == "rule"@ && depth == 0 && i + 1 < list.len() {
                    match list[i + 1].token {
                        lex::TokenModel::Word(id) => Some((id, list[i].start)),
                        _ => open,
                    }
                } else {
                    open
                };
                cuts_from(src, list, i + 1, depth, head)
            },
            lex::TokenModel::LBrace => cuts_from(src, list, i + 1, depth + 1, open),
            lex::TokenModel::RBrace => {
                let left = if depth > 0 {
                    (depth - 1) as nat
                } else {
                    0
                };
                match open {
                    Some((id, start)) if left == 0 => seq![
                        Cut { id, text: src.subrange(start, list[i].end) },
                    ] + cuts_from(src, list, i + 1, left, None),
                    _ => cuts_from(src, list, i + 1, left, open),
                }
            },
            _ => cuts_from(src, list, i + 1, depth, open),
        }
    }
}

pub open spec fn cut_models(cuts: Seq<(String, String)>) -> Seq<Cut> {
    Seq::new(cuts.len(), |i: int| Cut { id: cuts[i].0@, text: cuts[i].1@ })
}

/// The original text of every rule in `src`, keyed by id, so an editor can
/// open one rule out of a multi-rule file. Token-level only: call
/// [`parse_rules`] first when the source must also be valid.
pub fn rule_sources(src: &str) -> (r: Result<Vec<(String, String)>, ParseRuleError>)
    ensures
        match r {
            Ok(cuts) => lex::tokens(src@) matches Ok(list) && cut_models(cuts@) == cuts_from(
                src@,
                list,
                0,
                0,
                None,
            ),
            Err(e) => lex::tokens(src@) matches Err(m) && e@ == ParseErrorModel::Lex(m),
        },
{
    let chars = chars_of(src);
    let found = match lexemes(&chars) {
        Ok(found) => found,
        Err(e) => return Err(ParseRuleError::Lex(e)),
    };
    let ghost list = lex::lexeme_models(found@);
    proof {
        lex::tokens_are_ordered(src@, 0, 1);
    }
    let mut cuts: Vec<(String, String)> = Vec::new();
    let mut depth: usize = 0;
    let mut open: Option<(String, usize)> = None;
    let mut i: usize = 0;
    assert(cut_models(cuts@) + cuts_from(src@, list, 0, 0, None) =~= cuts_from(
        src@,
        list,
        0,
        0,
        None,
    ));
    while i < found.len()
        invariant
            chars@ == src@,
            list == lex::lexeme_models(found@),
            i <= found@.len(),
            depth <= i,
            open matches Some((_, start)) ==> forall|k: int|
                i <= k < list.len() ==> start <= (#[trigger] list[k]).end,
            forall|k: int|
                0 <= k < list.len() ==> 0 <= (#[trigger] list[k]).start < list[k].end
                    <= chars@.len(),
            forall|j: int, k: int|
                0 <= j < k < list.len() ==> (#[trigger] list[j]).end <= (#[trigger] list[k]).start,
            cut_models(cuts@) + cuts_from(
                src@,
                list,
                i as int,
                depth as nat,
                match open {
                    Some((id, start)) => Some((id@, start as int)),
                    None => None,
                },
            ) == cuts_from(src@, list, 0, 0, None),
        decreases found@.len() - i,
    {
        assert(list[i as int] == found@[i as int]@);
        match &found[i].token {
            Token::Word(word) => {
                if same(word.as_str(), "rule") && depth == 0 && i + 1 < found.len() {
                    assert(list[i + 1] == found@[i + 1]@);
                    match &found[i + 1].token {
                        Token::Word(id) => {
                            open = Some((id.clone(), found[i].start));
                        },
                        _ => {},
                    }
                }
            },
            Token::LBrace => {
                depth += 1;
            },
            Token::RBrace => {
                if depth > 0 {
                    depth -= 1;
                }
                if depth == 0 {
                    match open {
                        Some((id, start)) => {
                            let text = string_of(&chars, start, found[i].end);
                            let ghost before = cut_models(cuts@);
                            let ghost cut = Cut { id: id@, text: text@ };
                            cuts.push((id, text));
                            proof {
                                assert(cut_models(cuts@) =~= before.push(cut));
                                let rest = cuts_from(src@, list, i + 1, 0, None);
                                assert(before + (seq![cut] + rest) =~= cut_models(cuts@) + rest);
                            }
                            open = None;
                        },
                        None => {},
                    }
                }
            },
            _ => {},
        }
        i += 1;
    }
    assert(cut_models(cuts@) + Seq::<Cut>::empty() =~= cut_models(cuts@));
    Ok(cuts)
}

// ----------------------------------------------------------------- laws

/// Token `a` is the word `rule`, its id follows, and token `b` is the brace
/// that ends the text of `cut`.
pub open spec fn is_cut_at(src: Seq<char>, list: Seq<lex::Spanned>, cut: Cut, a: int, b: int) -> bool {
    &&& 0 <= a < b < list.len()
    &&& list[a].token == lex::TokenModel::Word("rule"@)
    &&& list[a + 1].token == lex::TokenModel::Word(cut.id)
    &&& list[b].token == lex::TokenModel::RBrace
    &&& cut.text == src.subrange(list[a].start, list[b].end)
}

/// Every text cut out of a file is a stretch of it that runs from the word
/// `rule`, with its id behind it, through a closing brace.
pub proof fn cuts_are_rule_texts(src: Seq<char>, list: Seq<lex::Spanned>, n: int)
    requires
        0 <= n < cuts_from(src, list, 0, 0, None).len(),
    ensures
        exists|a: int, b: int|
            is_cut_at(src, list, cuts_from(src, list, 0, 0, None)[n], a, b),
{
    lemma_cuts_from(src, list, 0, 0, None, 0, n);
}

proof fn lemma_cuts_from(
    src: Seq<char>,
    list: Seq<lex::Spanned>,
    i: int,
    depth: nat,
    open: Option<(Seq<char>, int)>,
    head: int,
    n: int,
)
    requires
        0 <= i,
        open matches Some((id, start)) ==> 0 <= head < i && head + 1 < list.len()
            && list[head].token == lex::TokenModel::Word("rule"@) && list[head].start == start
            && list[head + 1].token == lex::TokenModel::Word(id),
        0 <= n < cuts_from(src, list, i, depth, open).len(),
    ensures
        exists|a: int, b: int|
            is_cut_at(src, list, cuts_from(src, list, i, depth, open)[n], a, b),
    decreases list.len() - i,
{
    if i < list.len() {
        match list[i].token {
            lex::TokenModel::Word(word) => {
                if word == "rule"@ && depth == 0 && i + 1 < list.len() {
                    match list[i + 1].token {
                        lex::TokenModel::Word(id) => {
                            lemma_cuts_from(
                                src,
                                list,
                                i + 1,
                                depth,
                                Some((id, list[i].start)),
                                i,
                                n,
                            );
                        },
                        _ => {
                            lemma_cuts_from(src, list, i + 1, depth, open, head, n);
                        },
                    }
                } else {
                    lemma_cuts_from(src, list, i + 1, depth, open, head, n);
                }
            },
            lex::TokenModel::LBrace => {
                lemma_cuts_from(src, list, i + 1, depth + 1, open, head, n);
            },
            lex::TokenModel::RBrace => {
                let left = if depth > 0 {
                    (depth - 1) as nat
                } else {
                    0
                };
                if open is Some && left == 0 {
                    if n == 0 {
                        assert(is_cut_at(
                            src,
                            list,
                            cuts_from(src, list, i, depth, open)[0],
                            head,
                            i,
                        ));
                    } else {
                        lemma_cuts_from(src, list, i + 1, left, None, head, n - 1);
                        assert(cuts_from(src, list, i, depth, open)[n] == cuts_from(
                            src,
                            list,
                            i + 1,
                            left,
                            None,
                        )[n - 1]);
                    }
                } else {
                    lemma_cuts_from(src, list, i + 1, left, open, head, n);
                }
            },
            _ => {
                lemma_cuts_from(src, list, i + 1, depth, open, head, n);
            },
        }
    }
}

/// Rules that were read together never share an id.
pub proof fn rule_ids_are_distinct(src: Seq<char>)
    ensures
        parsed(src) matches Ok(rules) ==> forall|i: int, j: int|
            0 <= i < j < rules.len() ==> (#[trigger] rules[i]).id != (#[trigger] rules[j]).id,
{
    if let Ok(list) = lex::tokens(src) {
        lemma_distinct_from(input_of(src, list), 0, Seq::empty());
    }
}

proof fn lemma_distinct_from(s: Input, i: int, done: Seq<rule::RuleModel>)
    requires
        forall|a: int, b: int|
            0 <= a < b < done.len() ==> (#[trigger] done[a]).id != (#[trigger] done[b]).id,
    ensures
        rules_from(s, i, done) matches Ok(rules) ==> forall|a: int, b: int|
            0 <= a < b < rules.len() ==> (#[trigger] rules[a]).id != (#[trigger] rules[b]).id,
    decreases s.len() - i,
{
    if 0 <= i < s.len() {
        if let Ok((rule, j)) = rule_at(s, i) {
            if !has_id(done, rule.id) && i < j <= s.len() {
                let next = done.push(rule);
                assert forall|a: int, b: int| 0 <= a < b < next.len() implies (
                #[trigger] next[a]).id != (#[trigger] next[b]).id by {
                    if b == done.len() {
                        assert(done[a].id != rule.id);
                    }
                }
                lemma_distinct_from(s, j, next);
            }
        }
    }
}

/// Every variable that a parsed rule's condition names is bound by one of its
/// field conditions, so no rule silently never matches for want of one.
pub proof fn conditions_name_declared_variables(src: Seq<char>)
    ensures
        parsed(src) matches Ok(rules) ==> forall|i: int, var: Seq<char>|
            0 <= i < rules.len() && (#[trigger] rules[i]).condition.names(var)
                ==> #[trigger] is_declared(rules[i].fields, var),
{
    if let Ok(list) = lex::tokens(src) {
        lemma_declared_from(input_of(src, list), 0, Seq::empty());
    }
}

pub open spec fn all_declared(rule: rule::RuleModel) -> bool {
    forall|var: Seq<char>|
        rule.condition.names(var) ==> #[trigger] is_declared(rule.fields, var)
}

proof fn lemma_declared_from(s: Input, i: int, done: Seq<rule::RuleModel>)
    requires
        forall|k: int| 0 <= k < done.len() ==> all_declared(#[trigger] done[k]),
    ensures
        rules_from(s, i, done) matches Ok(rules) ==> forall|k: int|
            0 <= k < rules.len() ==> all_declared(#[trigger] rules[k]),
    decreases s.len() - i,
{
    if 0 <= i < s.len() {
        if let Ok((rule, j)) = rule_at(s, i) {
            if !has_id(done, rule.id) && i < j <= s.len() {
                assert forall|var: Seq<char>| rule.condition.names(var) implies #[trigger] is_declared(
                    rule.fields,
                    var,
                ) by {
                    lemma_undeclared(rule.condition, rule.fields, var);
                }
                lemma_declared_from(s, j, done.push(rule));
            }
        }
    }
}

proof fn lemma_undeclared(c: rule::ConditionModel, fields: Seq<rule::FieldModel>, var: Seq<char>)
    requires
        undeclared(c, fields) is None,
        c.names(var),
    ensures
        is_declared(fields, var),
    decreases c,
{
    match c {
        rule::ConditionModel::Var(v) => {},
        rule::ConditionModel::Not(inner) => {
            lemma_undeclared(*inner, fields, var);
        },
        rule::ConditionModel::And(a, b) => {
            if a.names(var) {
                lemma_undeclared(*a, fields, var);
            } else {
                lemma_undeclared(*b, fields, var);
            }
        },
        rule::ConditionModel::Or(a, b) => {
            if a.names(var) {
                lemma_undeclared(*a, fields, var);
            } else {
                lemma_undeclared(*b, fields, var);
            }
        },
        rule::ConditionModel::NOf(_, vars) => {
            let k = choose|k: int| 0 <= k < vars.len() && vars[k] == var;
            lemma_undeclared_from(vars, 0, fields, k);
        },
    }
}

proof fn lemma_undeclared_from(vars: Seq<Seq<char>>, i: int, fields: Seq<rule::FieldModel>, k: int)
    requires
        0 <= i <= k < vars.len(),
        undeclared_from(vars, i, fields) is None,
    ensures
        is_declared(fields, vars[k]),
    decreases k - i,
{
    if i < k {
        lemma_undeclared_from(vars, i + 1, fields, k);
    }
}

} // verus!
