//! Tokenizer for the rule grammar. Comments are stripped here so the parser
//! never sees them.

use core::ops::Range;

use vstd::prelude::*;

use crate::number;
use crate::number::{parse_double, Double};
use crate::split;
use crate::split::{find_char, find_text};
use crate::text;
use crate::text::{alpha, ascii_space, char_width, chars_of, digit, string_of};

verus! {

#[derive(Debug)]
pub enum Token {
    /// Bare word: keyword, field name or operator name.
    Word(String),
    /// `$name`
    Var(String),
    Str(String),
    Num(Double),
    /// `/pattern/`
    Regex(String),
    LBrace,
    RBrace,
    LParen,
    RParen,
    Comma,
    Colon,
    /// `==`, `!=`, `>`, `>=`, `<`, `<=`, `=`
    Sym(&'static str),
}

pub ghost enum TokenModel {
    Word(Seq<char>),
    Var(Seq<char>),
    Str(Seq<char>),
    Num(number::DoubleModel),
    Regex(Seq<char>),
    LBrace,
    RBrace,
    LParen,
    RParen,
    Comma,
    Colon,
    Sym(Seq<char>),
}

impl View for Token {
    type V = TokenModel;

    open spec fn view(&self) -> TokenModel {
        match self {
            Token::Word(t) => TokenModel::Word(t@),
            Token::Var(t) => TokenModel::Var(t@),
            Token::Str(t) => TokenModel::Str(t@),
            Token::Num(d) => TokenModel::Num(d@),
            Token::Regex(t) => TokenModel::Regex(t@),
            Token::LBrace => TokenModel::LBrace,
            Token::RBrace => TokenModel::RBrace,
            Token::LParen => TokenModel::LParen,
            Token::RParen => TokenModel::RParen,
            Token::Comma => TokenModel::Comma,
            Token::Colon => TokenModel::Colon,
            Token::Sym(t) => TokenModel::Sym(t@),
        }
    }
}

/// A source that does not split into tokens.
#[derive(Debug)]
pub struct LexError {
    pub line: usize,
    pub message: String,
}

pub ghost struct LexErrorModel {
    pub line: nat,
    pub message: Seq<char>,
}

impl View for LexError {
    type V = LexErrorModel;

    open spec fn view(&self) -> LexErrorModel {
        LexErrorModel { line: self.line as nat, message: self.message@ }
    }
}

impl LexError {
    /// `line 3: unterminated string`
    pub fn message(&self) -> (out: String)
        ensures
            out@ == "line "@ + number::decimal(self.line as nat) + ": "@ + self.message@,
    {
        let mut out = "line ".to_owned();
        out.push_str(number::decimal_text(self.line as u64).as_str());
        out.push_str(": ");
        out.push_str(self.message.as_str());
        out
    }
}

// -------------------------------------------------------------- grammar

/// A token and the characters it covers: `start` up to, not including, `end`.
pub ghost struct Spanned {
    pub token: TokenModel,
    pub start: int,
    pub end: int,
}

/// What stands at one position of the source.
pub ghost enum Step {
    /// White space or a comment; the next position and its line.
    Skip(int, nat),
    /// A token and the position behind it.
    Token(TokenModel, int),
    Error(LexErrorModel),
}

/// Line feeds among the characters `a` up to `b`.
pub open spec fn newlines(s: Seq<char>, a: int, b: int) -> nat
    decreases b - a,
{
    if a >= b {
        0
    } else {
        newlines(s, a, b - 1) + if s[b - 1] == '\n' {
            1nat
        } else {
            0nat
        }
    }
}

/// `n` lines further down. Line numbers stop at the largest `usize`.
pub open spec fn below(line: nat, n: nat) -> nat {
    if line + n <= usize::MAX {
        line + n
    } else {
        usize::MAX as nat
    }
}

pub open spec fn is_name_char(c: char) -> bool {
    text::is_alpha(c) || text::is_digit(c) || c == '_'
}

/// End of a `$name` that has reached `i`.
pub open spec fn name_end(s: Seq<char>, i: int) -> int
    decreases s.len() - i,
{
    if 0 <= i < s.len() && is_name_char(s[i]) {
        name_end(s, i + 1)
    } else {
        i
    }
}

/// End of a number that has reached `i`.
pub open spec fn number_end(s: Seq<char>, i: int) -> int
    decreases s.len() - i,
{
    if 0 <= i < s.len() && (text::is_digit(s[i]) || s[i] == '.') {
        number_end(s, i + 1)
    } else {
        i
    }
}

/// End of a word that has reached `i`. Field paths hold dots, hyphens (as
/// header-like payload keys do) and `[...]` for arrays.
pub open spec fn word_end(s: Seq<char>, i: int) -> int
    decreases s.len() - i,
{
    if i < 0 || i >= s.len() {
        i
    } else if s[i] == '[' {
        match split::find_from(s, ']', i) {
            Some(k) if i <= k < s.len() => word_end(s, k + 1),
            _ => s.len() as int,
        }
    } else if is_name_char(s[i]) || s[i] == '.' || s[i] == '-' {
        word_end(s, i + 1)
    } else {
        i
    }
}

/// What `\c` stands for inside a string.
pub open spec fn unescape(c: char) -> char {
    if c == 'n' {
        '\n'
    } else if c == 't' {
        '\t'
    } else {
        c
    }
}

/// The text from `i` up to the closing quote, and the position behind that.
pub open spec fn string_body(s: Seq<char>, i: int) -> Option<(Seq<char>, int)>
    decreases s.len() - i,
{
    if i < 0 || i >= s.len() {
        None
    } else if s[i] == '\\' && i + 1 < s.len() {
        match string_body(s, i + 2) {
            Some((rest, next)) => Some((seq![unescape(s[i + 1])] + rest, next)),
            None => None,
        }
    } else if s[i] == '"' {
        Some((Seq::empty(), i + 1))
    } else {
        match string_body(s, i + 1) {
            Some((rest, next)) => Some((seq![s[i]] + rest, next)),
            None => None,
        }
    }
}

/// The pattern from `i` up to the closing `/`, and the position behind that.
/// `\/` is a slash; a pattern does not run over the end of its line.
pub open spec fn regex_body(s: Seq<char>, i: int) -> Option<(Seq<char>, int)>
    decreases s.len() - i,
{
    if i < 0 || i >= s.len() || s[i] == '\n' {
        None
    } else if s[i] == '\\' && i + 1 < s.len() && s[i + 1] == '/' {
        match regex_body(s, i + 2) {
            Some((rest, next)) => Some((seq!['/'] + rest, next)),
            None => None,
        }
    } else if s[i] == '/' {
        Some((Seq::empty(), i + 1))
    } else {
        match regex_body(s, i + 1) {
            Some((rest, next)) => Some((seq![s[i]] + rest, next)),
            None => None,
        }
    }
}

/// The first byte of `c` in UTF-8.
pub open spec fn lead_byte(c: char) -> int {
    let v = c as u32 as int;
    if v <= 0x7f {
        v
    } else if v <= 0x7ff {
        0xc0 + v / 0x40
    } else if v <= 0xffff {
        0xe0 + v / 0x1000
    } else {
        0xf0 + v / 0x40000
    }
}

/// A diagnostic names the first byte of the offending character.
pub open spec fn unexpected(c: char, line: nat) -> LexErrorModel {
    LexErrorModel { line, message: "unexpected `"@ + seq![lead_byte(c) as u32 as char] + "`"@ }
}

/// What stands at position `i`, which is on line `line`.
pub open spec fn step(s: Seq<char>, i: int, line: nat) -> Step {
    let c = s[i];
    let next = if i + 1 < s.len() {
        Some(s[i + 1])
    } else {
        None
    };
    if c == '\n' {
        Step::Skip(i + 1, below(line, 1))
    } else if text::is_ascii_space(c) {
        Step::Skip(i + 1, line)
    } else if c == '/' && next == Some('/') {
        match split::find_from(s, '\n', i) {
            Some(k) => Step::Skip(k, line),
            None => Step::Skip(s.len() as int, line),
        }
    } else if c == '/' && next == Some('*') {
        match split::find_text_from(s, seq!['*', '/'], i + 2) {
            Some(k) => Step::Skip(k + 2, below(line, newlines(s, i + 2, k))),
            None => Step::Skip(s.len() as int, line),
        }
    } else if c == '{' {
        Step::Token(TokenModel::LBrace, i + 1)
    } else if c == '}' {
        Step::Token(TokenModel::RBrace, i + 1)
    } else if c == '(' {
        Step::Token(TokenModel::LParen, i + 1)
    } else if c == ')' {
        Step::Token(TokenModel::RParen, i + 1)
    } else if c == ',' {
        Step::Token(TokenModel::Comma, i + 1)
    } else if c == ':' {
        Step::Token(TokenModel::Colon, i + 1)
    } else if c == '"' {
        match string_body(s, i + 1) {
            Some((text, end)) => Step::Token(TokenModel::Str(text), end),
            None => Step::Error(LexErrorModel { line, message: "unterminated string"@ }),
        }
    } else if c == '/' {
        match regex_body(s, i + 1) {
            Some((text, end)) => Step::Token(TokenModel::Regex(text), end),
            None => Step::Error(LexErrorModel { line, message: "unterminated regex"@ }),
        }
    } else if c == '=' {
        if next == Some('=') {
            Step::Token(TokenModel::Sym("=="@), i + 2)
        } else {
            Step::Token(TokenModel::Sym("="@), i + 1)
        }
    } else if c == '!' {
        if next == Some('=') {
            Step::Token(TokenModel::Sym("!="@), i + 2)
        } else {
            Step::Error(unexpected(c, line))
        }
    } else if c == '>' {
        if next == Some('=') {
            Step::Token(TokenModel::Sym(">="@), i + 2)
        } else {
            Step::Token(TokenModel::Sym(">"@), i + 1)
        }
    } else if c == '<' {
        if next == Some('=') {
            Step::Token(TokenModel::Sym("<="@), i + 2)
        } else {
            Step::Token(TokenModel::Sym("<"@), i + 1)
        }
    } else if c == '$' {
        let end = name_end(s, i + 1);
        Step::Token(TokenModel::Var(s.subrange(i, end)), end)
    } else if text::is_digit(c) || c == '-' {
        let end = number_end(s, i + 1);
        let lexeme = s.subrange(i, end);
        match number::double_of(lexeme) {
            Some(d) => Step::Token(TokenModel::Num(d), end),
            None => Step::Error(
                LexErrorModel { line, message: "invalid number `"@ + lexeme + "`"@ },
            ),
        }
    } else if text::is_alpha(c) || c == '_' {
        let end = word_end(s, i);
        Step::Token(TokenModel::Word(s.subrange(i, end)), end)
    } else {
        Step::Error(unexpected(c, line))
    }
}

/// The tokens from position `i` on, which is on line `line`.
pub open spec fn tokens_from(s: Seq<char>, i: int, line: nat) -> Result<Seq<Spanned>, LexErrorModel>
    decreases s.len() - i,
{
    if i < 0 || i >= s.len() {
        Ok(Seq::empty())
    } else {
        match step(s, i, line) {
            Step::Skip(next, next_line) => if i < next <= s.len() {
                tokens_from(s, next, next_line)
            } else {
                Ok(Seq::empty())
            },
            Step::Token(token, end) => if i < end <= s.len() {
                match tokens_from(s, end, below(line, newlines(s, i, end))) {
                    Ok(rest) => Ok(seq![Spanned { token, start: i, end }] + rest),
                    Err(e) => Err(e),
                }
            } else {
                Ok(Seq::empty())
            },
            Step::Error(e) => Err(e),
        }
    }
}

/// The tokens of a source.
pub open spec fn tokens(s: Seq<char>) -> Result<Seq<Spanned>, LexErrorModel> {
    tokens_from(s, 0, 1)
}

/// The tokens of a list, without their ranges.
pub open spec fn models(list: Seq<Token>) -> Seq<TokenModel> {
    Seq::new(list.len(), |i: int| list[i]@)
}

/// The same tokens without their ranges.
pub open spec fn bare(list: Seq<Spanned>) -> Seq<TokenModel> {
    Seq::new(list.len(), |i: int| list[i].token)
}

// --------------------------------------------------------------- lemmas

/// Line feeds add up over two adjoining stretches.
pub proof fn lemma_newlines_split(s: Seq<char>, a: int, b: int, c: int)
    requires
        a <= b <= c,
    ensures
        newlines(s, a, c) == newlines(s, a, b) + newlines(s, b, c),
    decreases c - b,
{
    if b < c {
        lemma_newlines_split(s, a, b, c - 1);
    }
}

pub proof fn lemma_name_end(s: Seq<char>, i: int)
    requires
        0 <= i <= s.len(),
    ensures
        i <= name_end(s, i) <= s.len(),
    decreases s.len() - i,
{
    if i < s.len() {
        lemma_name_end(s, i + 1);
    }
}

pub proof fn lemma_number_end(s: Seq<char>, i: int)
    requires
        0 <= i <= s.len(),
    ensures
        i <= number_end(s, i) <= s.len(),
    decreases s.len() - i,
{
    if i < s.len() {
        lemma_number_end(s, i + 1);
    }
}

pub proof fn lemma_word_end(s: Seq<char>, i: int)
    requires
        0 <= i <= s.len(),
    ensures
        i <= word_end(s, i) <= s.len(),
    decreases s.len() - i,
{
    if i < s.len() {
        split::lemma_find_from(s, ']', i);
        match split::find_from(s, ']', i) {
            Some(k) => {
                lemma_word_end(s, k + 1);
            },
            None => {},
        }
        lemma_word_end(s, i + 1);
    }
}

pub proof fn lemma_string_body(s: Seq<char>, i: int)
    requires
        0 <= i,
    ensures
        string_body(s, i) matches Some((_, next)) ==> i < next <= s.len(),
    decreases s.len() - i,
{
    if i < s.len() {
        lemma_string_body(s, i + 1);
        if i + 1 < s.len() {
            lemma_string_body(s, i + 2);
        }
    }
}

pub proof fn lemma_regex_body(s: Seq<char>, i: int)
    requires
        0 <= i,
    ensures
        regex_body(s, i) matches Some((_, next)) ==> i < next <= s.len(),
    decreases s.len() - i,
{
    if i < s.len() {
        lemma_regex_body(s, i + 1);
        if i + 1 < s.len() {
            lemma_regex_body(s, i + 2);
        }
    }
}

/// Every step moves forward and stays inside the source.
pub proof fn lemma_step(s: Seq<char>, i: int, line: nat)
    requires
        0 <= i < s.len(),
    ensures
        step(s, i, line) matches Step::Skip(next, _) ==> i < next <= s.len(),
        step(s, i, line) matches Step::Token(_, end) ==> i < end <= s.len(),
{
    split::lemma_find_from(s, '\n', i);
    split::lemma_find_text_from(s, seq!['*', '/'], i + 2);
    lemma_name_end(s, i + 1);
    lemma_number_end(s, i + 1);
    lemma_word_end(s, i + 1);
    lemma_word_end(s, i);
    lemma_string_body(s, i + 1);
    lemma_regex_body(s, i + 1);
    split::lemma_find_from(s, ']', i);
}

/// The tokens of a source stand in it one behind the other, none empty.
pub proof fn tokens_are_ordered(s: Seq<char>, i: int, line: nat)
    requires
        0 <= i <= s.len(),
    ensures
        tokens_from(s, i, line) matches Ok(list) ==> {
            &&& forall|k: int|
                0 <= k < list.len() ==> i <= (#[trigger] list[k]).start < list[k].end <= s.len()
            &&& forall|j: int, k: int|
                0 <= j < k < list.len() ==> (#[trigger] list[j]).end <= (#[trigger] list[k]).start
        },
    decreases s.len() - i,
{
    if i < s.len() {
        lemma_step(s, i, line);
        match step(s, i, line) {
            Step::Skip(next, next_line) => {
                tokens_are_ordered(s, next, next_line);
            },
            Step::Token(token, end) => {
                tokens_are_ordered(s, end, below(line, newlines(s, i, end)));
            },
            Step::Error(e) => {},
        }
    }
}

/// A word or variable token is the source text it covers.
pub proof fn names_are_source_text(s: Seq<char>, i: int, line: nat)
    requires
        0 <= i <= s.len(),
    ensures
        tokens_from(s, i, line) matches Ok(list) ==> forall|k: int|
            #![trigger list[k]]
            0 <= k < list.len() ==> match list[k].token {
                TokenModel::Word(t) => t == s.subrange(list[k].start, list[k].end),
                TokenModel::Var(t) => t == s.subrange(list[k].start, list[k].end),
                _ => true,
            },
    decreases s.len() - i,
{
    if i < s.len() {
        lemma_step(s, i, line);
        match step(s, i, line) {
            Step::Skip(next, next_line) => {
                names_are_source_text(s, next, next_line);
            },
            Step::Token(token, end) => {
                names_are_source_text(s, end, below(line, newlines(s, i, end)));
            },
            Step::Error(e) => {},
        }
    }
}

proof fn lemma_no_newlines(s: Seq<char>, a: int, b: int)
    requires
        forall|k: int| a <= k < b ==> s[k] != '\n',
    ensures
        newlines(s, a, b) == 0,
    decreases b - a,
{
    if a < b {
        lemma_no_newlines(s, a, b - 1);
    }
}

/// The line a step leads to is the line it ends on.
proof fn lemma_step_line(s: Seq<char>, i: int, line: nat)
    requires
        0 <= i < s.len(),
        line <= usize::MAX,
    ensures
        step(s, i, line) matches Step::Skip(next, after) ==> next == s.len() || after == below(
            line,
            newlines(s, i, next),
        ),
{
    let c = s[i];
    if c == '\n' || text::is_ascii_space(c) {
        assert(newlines(s, i, i) == 0);
        assert(newlines(s, i, i + 1) == newlines(s, i, i) + if c == '\n' {
            1nat
        } else {
            0nat
        });
    } else if c == '/' && i + 1 < s.len() && s[i + 1] == '/' {
        split::lemma_find_from(s, '\n', i);
        if let Some(k) = split::find_from(s, '\n', i) {
            lemma_no_newlines(s, i, k);
        }
    } else if c == '/' && i + 1 < s.len() && s[i + 1] == '*' {
        split::lemma_find_text_from(s, seq!['*', '/'], i + 2);
        if let Some(k) = split::find_text_from(s, seq!['*', '/'], i + 2) {
            let close = s.subrange(k, k + 2);
            assert(close == seq!['*', '/']);
            assert(s[k] == close[0] && s[k + 1] == close[1]);
            lemma_no_newlines(s, i, i + 2);
            lemma_no_newlines(s, k, k + 2);
            lemma_newlines_split(s, i, i + 2, k);
            lemma_newlines_split(s, i, k, k + 2);
        }
    }
}

proof fn lemma_error_line(s: Seq<char>, i: int)
    requires
        0 <= i <= s.len(),
    ensures
        tokens_from(s, i, below(1, newlines(s, 0, i))) matches Err(e) ==> exists|k: int|
            i <= k < s.len() && step(s, k, e.line) == Step::Error(e) && e.line == below(
                1,
                #[trigger] newlines(s, 0, k),
            ),
    decreases s.len() - i,
{
    let line = below(1, newlines(s, 0, i));
    if i < s.len() {
        lemma_step(s, i, line);
        lemma_step_line(s, i, line);
        match step(s, i, line) {
            Step::Skip(next, after) => {
                if next < s.len() {
                    lemma_newlines_split(s, 0, i, next);
                    lemma_error_line(s, next);
                } else {
                    assert(tokens_from(s, next, after) is Ok);
                }
            },
            Step::Token(_, end) => {
                lemma_newlines_split(s, 0, i, end);
                lemma_error_line(s, end);
            },
            Step::Error(e) => {
                assert(e.line == line);
                assert(step(s, i, e.line) == Step::Error(e) && e.line == below(
                    1,
                    newlines(s, 0, i),
                ));
            },
        }
    }
}

/// A source that cannot be split into tokens is reported on the line that the
/// offending character is on, counting from one, whatever comments and strings
/// stand before it.
pub proof fn errors_name_their_line(s: Seq<char>)
    ensures
        tokens(s) matches Err(e) ==> exists|k: int|
            0 <= k < s.len() && step(s, k, e.line) == Step::Error(e) && e.line == below(
                1,
                #[trigger] newlines(s, 0, k),
            ),
{
    assert(newlines(s, 0, 0) == 0);
    lemma_error_line(s, 0);
}

// ------------------------------------------------------------ execution

/// A token and the characters it covers.
pub struct Lexeme {
    pub token: Token,
    pub start: usize,
    pub end: usize,
}

impl View for Lexeme {
    type V = Spanned;

    open spec fn view(&self) -> Spanned {
        Spanned { token: self.token@, start: self.start as int, end: self.end as int }
    }
}

pub open spec fn lexeme_models(list: Seq<Lexeme>) -> Seq<Spanned> {
    Seq::new(list.len(), |i: int| list[i]@)
}

enum Found {
    Skip(usize, usize),
    Token(Token, usize),
    Error(LexError),
}

impl View for Found {
    type V = Step;

    closed spec fn view(&self) -> Step {
        match self {
            Found::Skip(next, line) => Step::Skip(*next as int, *line as nat),
            Found::Token(token, end) => Step::Token(token@, *end as int),
            Found::Error(e) => Step::Error(e@),
        }
    }
}

fn lex_error(line: usize, message: &str) -> (e: LexError)
    ensures
        e@ == (LexErrorModel { line: line as nat, message: message@ }),
{
    LexError { line, message: message.to_owned() }
}

/// Reads a double-quoted string with `\` escapes; `start` is its first quote.
pub fn read_string(src: &Vec<char>, start: usize, line: usize) -> (r: Result<(String, usize), LexError>)
    requires
        start < src@.len(),
    ensures
        match r {
            Ok((text, next)) => string_body(src@, start + 1) == Some((text@, next as int)),
            Err(e) => string_body(src@, start + 1) is None && e@ == (LexErrorModel {
                line: line as nat,
                message: "unterminated string"@,
            }),
        },
{
    let len: usize = src.len();
    let mut text = String::new();
    let mut i: usize = start + 1;
    while i < len
        invariant
            len == src@.len(),
            start < i,
            string_body(src@, start + 1) == (match string_body(src@, i as int) {
                Some((rest, next)) => Some((text@ + rest, next)),
                None => None,
            }),
        decreases src@.len() - i,
    {
        let c = src[i];
        let ghost before = text@;
        if c == '\\' && i + 1 < len {
            let escaped = src[i + 1];
            text.push(
                if escaped == 'n' {
                    '\n'
                } else if escaped == 't' {
                    '\t'
                } else {
                    escaped
                },
            );
            proof {
                if let Some((rest, next)) = string_body(src@, i + 2) {
                    assert(before + (seq![unescape(escaped)] + rest) =~= text@ + rest);
                }
            }
            i += 2;
        } else if c == '"' {
            assert(text@ + Seq::<char>::empty() =~= text@);
            return Ok((text, i + 1));
        } else {
            text.push(c);
            proof {
                if let Some((rest, next)) = string_body(src@, i + 1) {
                    assert(before + (seq![c] + rest) =~= text@ + rest);
                }
            }
            i += 1;
        }
    }
    Err(lex_error(line, "unterminated string"))
}

/// Reads `/pattern/`, honouring `\/`; `start` is its first slash.
pub fn read_regex(src: &Vec<char>, start: usize, line: usize) -> (r: Result<(String, usize), LexError>)
    requires
        start < src@.len(),
    ensures
        match r {
            Ok((text, next)) => regex_body(src@, start + 1) == Some((text@, next as int)),
            Err(e) => regex_body(src@, start + 1) is None && e@ == (LexErrorModel {
                line: line as nat,
                message: "unterminated regex"@,
            }),
        },
{
    let len: usize = src.len();
    let mut text = String::new();
    let mut i: usize = start + 1;
    while i < len
        invariant
            len == src@.len(),
            start < i,
            regex_body(src@, start + 1) == (match regex_body(src@, i as int) {
                Some((rest, next)) => Some((text@ + rest, next)),
                None => None,
            }),
        decreases src@.len() - i,
    {
        let c = src[i];
        let ghost before = text@;
        if c == '\n' {
            return Err(lex_error(line, "unterminated regex"));
        } else if c == '\\' && i + 1 < len && src[i + 1] == '/' {
            text.push('/');
            proof {
                if let Some((rest, next)) = regex_body(src@, i + 2) {
                    assert(before + (seq!['/'] + rest) =~= text@ + rest);
                }
            }
            i += 2;
        } else if c == '/' {
            assert(text@ + Seq::<char>::empty() =~= text@);
            return Ok((text, i + 1));
        } else {
            text.push(c);
            proof {
                if let Some((rest, next)) = regex_body(src@, i + 1) {
                    assert(before + (seq![c] + rest) =~= text@ + rest);
                }
            }
            i += 1;
        }
    }
    Err(lex_error(line, "unterminated regex"))
}

fn name_char(c: char) -> (b: bool)
    ensures
        b == is_name_char(c),
{
    alpha(c) || digit(c) || c == '_'
}

fn scan_name(src: &Vec<char>, from: usize) -> (end: usize)
    requires
        from <= src@.len(),
    ensures
        end == name_end(src@, from as int),
        from <= end <= src@.len(),
{
    let mut i: usize = from;
    while i < src.len() && name_char(src[i])
        invariant
            from <= i <= src@.len(),
            name_end(src@, from as int) == name_end(src@, i as int),
        decreases src@.len() - i,
    {
        i += 1;
    }
    i
}

fn scan_number(src: &Vec<char>, from: usize) -> (end: usize)
    requires
        from <= src@.len(),
    ensures
        end == number_end(src@, from as int),
        from <= end <= src@.len(),
{
    let mut i: usize = from;
    while i < src.len() && (digit(src[i]) || src[i] == '.')
        invariant
            from <= i <= src@.len(),
            number_end(src@, from as int) == number_end(src@, i as int),
        decreases src@.len() - i,
    {
        i += 1;
    }
    i
}

fn scan_word(src: &Vec<char>, from: usize) -> (end: usize)
    requires
        from <= src@.len(),
    ensures
        end == word_end(src@, from as int),
        from <= end <= src@.len(),
{
    let mut i: usize = from;
    while i < src.len()
        invariant
            from <= i <= src@.len(),
            word_end(src@, from as int) == word_end(src@, i as int),
        decreases src@.len() - i,
    {
        let c = src[i];
        if c == '[' {
            match find_char(src, ']', i) {
                Some(k) => {
                    i = k + 1;
                },
                None => {
                    return src.len();
                },
            }
        } else if name_char(c) || c == '.' || c == '-' {
            i += 1;
        } else {
            return i;
        }
    }
    i
}

pub(crate) fn count_newlines(src: &Vec<char>, a: usize, b: usize) -> (n: usize)
    requires
        a <= b <= src@.len(),
    ensures
        n == newlines(src@, a as int, b as int),
        n <= b - a,
{
    let mut n: usize = 0;
    let mut i: usize = a;
    while i < b
        invariant
            a <= i <= b <= src@.len(),
            n == newlines(src@, a as int, i as int),
            n <= i - a,
        decreases b - i,
    {
        if src[i] == '\n' {
            n += 1;
        }
        i += 1;
    }
    n
}

fn unexpected_char(c: char, line: usize) -> (e: LexError)
    ensures
        e@ == unexpected(c, line as nat),
{
    let v: u32 = c as u32;
    let b: u8 = if v <= 0x7f {
        v as u8
    } else if v <= 0x7ff {
        (0xc0 + v / 0x40) as u8
    } else if v <= 0xffff {
        (0xe0 + v / 0x1000) as u8
    } else {
        (0xf0 + v / 0x40000) as u8
    };
    let mut message = "unexpected `".to_owned();
    message.push(b as char);
    message.push_str("`");
    assert(message@ =~= "unexpected `"@ + seq![lead_byte(c) as u32 as char] + "`"@);
    LexError { line, message }
}

/// What stands at position `i`, which is on line `line`.
fn step_at(src: &Vec<char>, i: usize, line: usize) -> (found: Found)
    requires
        i < src@.len(),
    ensures
        found@ == step(src@, i as int, line as nat),
{
    proof {
        lemma_step(src@, i as int, line as nat);
    }
    let len: usize = src.len();
    let c = src[i];
    let next: Option<char> = if i + 1 < len {
        Some(src[i + 1])
    } else {
        None
    };
    let doubled: bool = match next {
        Some(n) => n == '=',
        None => false,
    };
    if c == '\n' {
        return Found::Skip(i + 1, line.saturating_add(1));
    }
    if ascii_space(c) {
        return Found::Skip(i + 1, line);
    }
    if c == '/' {
        match next {
            Some(n) => {
                if n == '/' {
                    return match find_char(src, '\n', i) {
                        Some(k) => Found::Skip(k, line),
                        None => Found::Skip(len, line),
                    };
                }
                if n == '*' {
                    let mut close: Vec<char> = Vec::new();
                    close.push('*');
                    close.push('/');
                    assert(close@ =~= seq!['*', '/']);
                    return match find_text(src, &close, i + 2) {
                        Some(k) => Found::Skip(
                            k + 2,
                            line.saturating_add(count_newlines(src, i + 2, k)),
                        ),
                        None => Found::Skip(len, line),
                    };
                }
            },
            None => {},
        }
    }
    if c == '{' {
        Found::Token(Token::LBrace, i + 1)
    } else if c == '}' {
        Found::Token(Token::RBrace, i + 1)
    } else if c == '(' {
        Found::Token(Token::LParen, i + 1)
    } else if c == ')' {
        Found::Token(Token::RParen, i + 1)
    } else if c == ',' {
        Found::Token(Token::Comma, i + 1)
    } else if c == ':' {
        Found::Token(Token::Colon, i + 1)
    } else if c == '"' {
        match read_string(src, i, line) {
            Ok((text, end)) => Found::Token(Token::Str(text), end),
            Err(e) => Found::Error(e),
        }
    } else if c == '/' {
        match read_regex(src, i, line) {
            Ok((text, end)) => Found::Token(Token::Regex(text), end),
            Err(e) => Found::Error(e),
        }
    } else if c == '=' {
        if doubled {
            Found::Token(Token::Sym("=="), i + 2)
        } else {
            Found::Token(Token::Sym("="), i + 1)
        }
    } else if c == '!' {
        if doubled {
            Found::Token(Token::Sym("!="), i + 2)
        } else {
            Found::Error(unexpected_char(c, line))
        }
    } else if c == '>' {
        if doubled {
            Found::Token(Token::Sym(">="), i + 2)
        } else {
            Found::Token(Token::Sym(">"), i + 1)
        }
    } else if c == '<' {
        if doubled {
            Found::Token(Token::Sym("<="), i + 2)
        } else {
            Found::Token(Token::Sym("<"), i + 1)
        }
    } else if c == '$' {
        let end: usize = scan_name(src, i + 1);
        Found::Token(Token::Var(string_of(src, i, end)), end)
    } else if digit(c) || c == '-' {
        let end: usize = scan_number(src, i + 1);
        let lexeme = string_of(src, i, end);
        match parse_double(lexeme.as_str()) {
            Some(d) => Found::Token(Token::Num(d), end),
            None => {
                let mut message = "invalid number `".to_owned();
                message.push_str(lexeme.as_str());
                message.push_str("`");
                Found::Error(LexError { line, message })
            },
        }
    } else if alpha(c) || c == '_' {
        let end: usize = scan_word(src, i);
        Found::Token(Token::Word(string_of(src, i, end)), end)
    } else {
        Found::Error(unexpected_char(c, line))
    }
}

/// The tokens of a source given by its characters.
pub fn lexemes(src: &Vec<char>) -> (r: Result<Vec<Lexeme>, LexError>)
    ensures
        match r {
            Ok(list) => tokens(src@) == Ok::<Seq<Spanned>, LexErrorModel>(lexeme_models(list@)),
            Err(e) => tokens(src@) == Err::<Seq<Spanned>, LexErrorModel>(e@),
        },
{
    let mut list: Vec<Lexeme> = Vec::new();
    let mut i: usize = 0;
    let mut line: usize = 1;
    assert(lexeme_models(list@) =~= Seq::empty());
    proof {
        if let Ok(rest) = tokens_from(src@, 0, 1) {
            assert(lexeme_models(list@) + rest =~= rest);
        }
    }
    while i < src.len()
        invariant
            i <= src@.len(),
                tokens(src@) == (match tokens_from(src@, i as int, line as nat) {
                Ok(rest) => Ok::<Seq<Spanned>, LexErrorModel>(lexeme_models(list@) + rest),
                Err(e) => Err(e),
            }),
        decreases src@.len() - i,
    {
        proof {
            lemma_step(src@, i as int, line as nat);
        }
        match step_at(src, i, line) {
            Found::Skip(next, next_line) => {
                i = next;
                line = next_line;
            },
            Found::Token(token, end) => {
                let ghost before = lexeme_models(list@);
                let ghost one = Spanned { token: token@, start: i as int, end: end as int };
                list.push(Lexeme { token, start: i, end });
                line = line.saturating_add(count_newlines(src, i, end));
                proof {
                    assert(lexeme_models(list@) =~= before.push(one));
                    if let Ok(rest) = tokens_from(src@, end as int, line as nat) {
                        assert(before + (seq![one] + rest) =~= lexeme_models(list@) + rest);
                    }
                }
                i = end;
            },
            Found::Error(e) => {
                return Err(e);
            },
        }
    }
    assert(lexeme_models(list@) + Seq::<Spanned>::empty() =~= lexeme_models(list@));
    Ok(list)
}

/// The tokens with ranges in bytes of the source.
pub open spec fn located(
    list: Seq<(Token, Range<usize>)>,
    src: Seq<char>,
    spanned: Seq<Spanned>,
) -> bool {
    &&& list.len() == spanned.len()
    &&& forall|k: int|
        #![trigger list[k]]
        #![trigger spanned[k]]
        0 <= k < list.len() ==> {
            &&& list[k].0@ == spanned[k].token
            &&& list[k].1.start == text::byte_len(src.take(spanned[k].start))
            &&& list[k].1.end == text::byte_len(src.take(spanned[k].end))
        }
}

/// Bytes of `src` before `to`, given those before `from`.
fn advance(src: &Vec<char>, from: usize, bytes: usize, to: usize) -> (n: usize)
    requires
        from <= to <= src@.len(),
        bytes == text::byte_len(src@.take(from as int)),
        text::byte_len(src@) <= usize::MAX,
    ensures
        n == text::byte_len(src@.take(to as int)),
{
    let mut n: usize = bytes;
    let mut i: usize = from;
    while i < to
        invariant
            from <= i <= to <= src@.len(),
            n == text::byte_len(src@.take(i as int)),
            text::byte_len(src@) <= usize::MAX,
        decreases to - i,
    {
        proof {
            assert(src@.take(i + 1).drop_last() =~= src@.take(i as int));
            assert(src@.take(i + 1).last() == src@[i as int]);
            text::lemma_byte_len_prefix(src@, i + 1, src@.len() as int);
            assert(src@.take(src@.len() as int) =~= src@);
        }
        n += char_width(src[i]);
        i += 1;
    }
    n
}

/// [`tokenize`] with each token's byte range in `src`, so a rule's original
/// text can be cut out of a multi-rule file.
pub fn tokenize_spanned(src: &str) -> (r: Result<Vec<(Token, Range<usize>)>, LexError>)
    ensures
        match r {
            Ok(list) => tokens(src@) matches Ok(spanned) && located(list@, src@, spanned),
            Err(e) => tokens(src@) == Err::<Seq<Spanned>, LexErrorModel>(e@),
        },
{
    let chars = chars_of(src);
    let size: usize = src.as_bytes().len();
    proof {
        text::lemma_byte_len_encode(src@);
        tokens_are_ordered(src@, 0, 1);
    }
    let found = match lexemes(&chars) {
        Ok(list) => list,
        Err(e) => return Err(e),
    };
    let ghost all = found@;
    let ghost spanned = lexeme_models(all);
    let mut list: Vec<(Token, Range<usize>)> = Vec::new();
    let mut at: usize = 0;
    let mut bytes: usize = 0;
    assert(text::byte_len(chars@.take(0)) == 0);
    for lexeme in it: found
        invariant
            it.seq() == all,
            spanned == lexeme_models(all),
            chars@ == src@,
            text::byte_len(chars@) <= usize::MAX,
            at <= chars@.len(),
            at == (if it.index() == 0 {
                0
            } else {
                spanned[it.index() - 1].end
            }),
            bytes == text::byte_len(chars@.take(at as int)),
            forall|k: int|
                0 <= k < spanned.len() ==> 0 <= (#[trigger] spanned[k]).start < spanned[k].end
                    <= chars@.len(),
            forall|j: int, k: int|
                0 <= j < k < spanned.len() ==> (#[trigger] spanned[j]).end <= (
                #[trigger] spanned[k]).start,
            located(list@, src@, spanned.take(it.index() as int)),
    {
        let ghost k = it.index() as int;
        assert(lexeme@ == spanned[k]);
        let start: usize = advance(&chars, at, bytes, lexeme.start);
        let end: usize = advance(&chars, lexeme.start, start, lexeme.end);
        at = lexeme.end;
        bytes = end;
        list.push((lexeme.token, Range { start, end }));
    }
    assert(spanned.take(spanned.len() as int) =~= spanned);
    Ok(list)
}

/// Splits source into tokens, dropping `//` and `/* */` comments.
pub fn tokenize(src: &str) -> (r: Result<Vec<Token>, LexError>)
    ensures
        match r {
            Ok(list) => tokens(src@) matches Ok(spanned) && models(list@) == bare(spanned),
            Err(e) => tokens(src@) == Err::<Seq<Spanned>, LexErrorModel>(e@),
        },
{
    let chars = chars_of(src);
    let found = match lexemes(&chars) {
        Ok(list) => list,
        Err(e) => return Err(e),
    };
    let ghost all = found@;
    let mut list: Vec<Token> = Vec::new();
    for lexeme in it: found
        invariant
            it.seq() == all,
            models(list@) == bare(lexeme_models(all)).take(it.index() as int),
    {
        let ghost k = it.index() as int;
        assert(lexeme@ == lexeme_models(all)[k]);
        list.push(lexeme.token);
        assert(models(list@) =~= models(list@.drop_last()).push(lexeme_models(all)[k].token));
        assert(models(list@.drop_last()) =~= bare(lexeme_models(all)).take(k));
        assert(models(list@) =~= bare(lexeme_models(all)).take(it.index() + 1));
    }
    assert(models(list@) =~= bare(lexeme_models(all)));
    Ok(list)
}

} // verus!
