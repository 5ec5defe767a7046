//! The rule language: how rule texts are cut into tokens, and what the tokens
//! mean.

use vstd::prelude::*;

use crate::number;
use crate::rule;
use crate::rule::lex;
use crate::rule::parser;
use crate::rule::pattern;
use crate::rule::Op;
use crate::text;

verus! {

// ----------------------------------------------------------------- tokens

/// The character at that position.
pub open spec fn is_at(s: Seq<char>, i: int, c: char) -> bool {
    0 <= i < s.len() && s[i] == c
}

/// Each mark is a token of its own; a comparison with `=` behind it is one.
pub proof fn marks_are_tokens(s: Seq<char>, i: int, line: nat)
    requires
        0 <= i < s.len(),
    ensures
        s[i] == '{' ==> lex::step(s, i, line) == lex::Step::Token(lex::TokenModel::LBrace, i + 1),
        s[i] == '}' ==> lex::step(s, i, line) == lex::Step::Token(lex::TokenModel::RBrace, i + 1),
        s[i] == '(' ==> lex::step(s, i, line) == lex::Step::Token(lex::TokenModel::LParen, i + 1),
        s[i] == ')' ==> lex::step(s, i, line) == lex::Step::Token(lex::TokenModel::RParen, i + 1),
        s[i] == ',' ==> lex::step(s, i, line) == lex::Step::Token(lex::TokenModel::Comma, i + 1),
        s[i] == ':' ==> lex::step(s, i, line) == lex::Step::Token(lex::TokenModel::Colon, i + 1),
        s[i] == '=' && is_at(s, i + 1, '=') ==> lex::step(s, i, line) == lex::Step::Token(
            lex::TokenModel::Sym("=="@),
            i + 2,
        ),
        s[i] == '=' && !is_at(s, i + 1, '=') ==> lex::step(s, i, line) == lex::Step::Token(
            lex::TokenModel::Sym("="@),
            i + 1,
        ),
        s[i] == '!' && is_at(s, i + 1, '=') ==> lex::step(s, i, line) == lex::Step::Token(
            lex::TokenModel::Sym("!="@),
            i + 2,
        ),
        s[i] == '>' && is_at(s, i + 1, '=') ==> lex::step(s, i, line) == lex::Step::Token(
            lex::TokenModel::Sym(">="@),
            i + 2,
        ),
        s[i] == '>' && !is_at(s, i + 1, '=') ==> lex::step(s, i, line) == lex::Step::Token(
            lex::TokenModel::Sym(">"@),
            i + 1,
        ),
        s[i] == '<' && is_at(s, i + 1, '=') ==> lex::step(s, i, line) == lex::Step::Token(
            lex::TokenModel::Sym("<="@),
            i + 2,
        ),
        s[i] == '<' && !is_at(s, i + 1, '=') ==> lex::step(s, i, line) == lex::Step::Token(
            lex::TokenModel::Sym("<"@),
            i + 1,
        ),
        s[i] == ' ' || s[i] == '\t' || s[i] == '\r' ==> lex::step(s, i, line) == lex::Step::Skip(
            i + 1,
            line,
        ),
        s[i] == '\n' && line < usize::MAX ==> lex::step(s, i, line) == lex::Step::Skip(
            i + 1,
            line + 1,
        ),
{
}

/// A comment is passed over: to the end of its line, or to its closing mark.
pub proof fn comments_are_passed_over(
    head: Seq<char>,
    body: Seq<char>,
    rest: Seq<char>,
    line: nat,
)
    requires
        !body.contains('\n'),
    ensures
        lex::step(head + seq!['/', '/'] + body + seq!['\n'] + rest, head.len() as int, line)
            == lex::Step::Skip(head.len() as int + 2 + body.len(), line),
        !body.contains('*') ==> (lex::step(
            head + seq!['/', '*'] + body + seq!['*', '/'] + rest,
            head.len() as int,
            line,
        ) matches lex::Step::Skip(next, _) && next == head.len() as int + 4 + body.len()),
{
    let at = head.len() as int;
    let s = head + seq!['/', '/'] + body + seq!['\n'] + rest;
    let end = at + 2 + body.len();
    assert(s[at] == '/' && s[at + 1] == '/' && s[end] == '\n');
    crate::split::lemma_find_from(s, '\n', at);
    match crate::split::find_from(s, '\n', at) {
        Some(k) => {
            if at + 2 <= k < end {
                assert(s[k] == body[k - at - 2]);
                assert(body.contains(body[k - at - 2]));
            }
        },
        None => {},
    }
    if !body.contains('*') {
        let t = head + seq!['/', '*'] + body + seq!['*', '/'] + rest;
        assert(t[at] == '/' && t[at + 1] == '*');
        let mark = seq!['*', '/'];
        crate::split::lemma_find_text_from(t, mark, at + 2);
        assert(t.subrange(end, end + 2) =~= mark);
        assert(crate::split::is_at(t, mark, end));
        match crate::split::find_text_from(t, mark, at + 2) {
            Some(k) => {
                if k < end {
                    assert(t.subrange(k, k + 2)[0] == t[k]);
                    assert(t[k] == body[k - at - 2]);
                    assert(body.contains(body[k - at - 2]));
                }
            },
            None => {},
        }
    }
}

proof fn lemma_number_end(s: Seq<char>, i: int, n: int)
    requires
        0 <= i <= n <= s.len(),
        forall|j: int| i <= j < n ==> text::is_digit(#[trigger] s[j]) || s[j] == '.',
        n < s.len() ==> !text::is_digit(s[n]) && s[n] != '.',
    ensures
        lex::number_end(s, i) == n,
    decreases n - i,
{
    if i < n {
        assert(text::is_digit(s[i]) || s[i] == '.');
        lemma_number_end(s, i + 1, n);
    }
}

/// A number is a digit or a minus sign with the digits and dots behind it,
/// read as one text.
pub proof fn numbers_are_read_to_their_end(s: Seq<char>, i: int, n: int, line: nat)
    requires
        0 <= i < n <= s.len(),
        text::is_digit(s[i]) || s[i] == '-',
        forall|j: int| i < j < n ==> text::is_digit(#[trigger] s[j]) || s[j] == '.',
        n < s.len() ==> !text::is_digit(s[n]) && s[n] != '.',
    ensures
        number::double_of(s.subrange(i, n)) matches Some(d) ==> lex::step(s, i, line)
            == lex::Step::Token(lex::TokenModel::Num(d), n),
        number::double_of(s.subrange(i, n)) is None ==> lex::step(s, i, line) is Error,
{
    lemma_number_end(s, i + 1, n);
}

/// A character that can stand in a name.
pub open spec fn names_on(c: char) -> bool {
    ||| 'a' as u32 <= c as u32 <= 'z' as u32
    ||| 'A' as u32 <= c as u32 <= 'Z' as u32
    ||| '0' as u32 <= c as u32 <= '9' as u32
    ||| c == '_'
}

proof fn lemma_name_end(s: Seq<char>, i: int, n: int)
    requires
        0 <= i <= n <= s.len(),
        forall|j: int| i <= j < n ==> names_on(#[trigger] s[j]),
        n < s.len() ==> !names_on(s[n]),
    ensures
        lex::name_end(s, i) == n,
    decreases n - i,
{
    if i < n {
        lemma_name_end(s, i + 1, n);
    }
}

/// A variable is the dollar sign and the name behind it.
pub proof fn variables_are_read_to_their_end(s: Seq<char>, i: int, n: int, line: nat)
    requires
        0 <= i < n <= s.len(),
        s[i] == '$',
        forall|j: int| i < j < n ==> names_on(#[trigger] s[j]),
        n < s.len() ==> !names_on(s[n]),
    ensures
        lex::step(s, i, line) == lex::Step::Token(lex::TokenModel::Var(s.subrange(i, n)), n),
{
    lemma_name_end(s, i + 1, n);
}

proof fn lemma_word_end(s: Seq<char>, i: int, n: int)
    requires
        0 <= i <= n <= s.len(),
        forall|j: int|
            i <= j < n ==> names_on(#[trigger] s[j]) || s[j] == '.' || s[j] == '-',
        n < s.len() ==> !names_on(s[n]) && s[n] != '.' && s[n] != '-' && s[n] != '[',
    ensures
        lex::word_end(s, i) == n,
    decreases n - i,
{
    if i < n {
        assert(names_on(s[i]) || s[i] == '.' || s[i] == '-');
        lemma_word_end(s, i + 1, n);
    }
}

/// A word starts with a letter or an underscore and goes on over names, dots
/// and dashes.
pub proof fn words_are_read_to_their_end(s: Seq<char>, i: int, n: int, line: nat)
    requires
        0 <= i < n <= s.len(),
        names_on(s[i]) && !('0' as u32 <= s[i] as u32 <= '9' as u32),
        forall|j: int|
            i <= j < n ==> names_on(#[trigger] s[j]) || s[j] == '.' || s[j] == '-',
        n < s.len() ==> !names_on(s[n]) && s[n] != '.' && s[n] != '-' && s[n] != '[',
    ensures
        lex::step(s, i, line) == lex::Step::Token(lex::TokenModel::Word(s.subrange(i, n)), n),
{
    lemma_word_end(s, i, n);
}

/// How a text is written in a rule: a quote, a backslash, a line break and a
/// tab are escaped.
pub open spec fn escaped_char(c: char) -> Seq<char> {
    if c == '"' || c == '\\' {
        seq!['\\', c]
    } else if c == '\n' {
        seq!['\\', 'n']
    } else if c == '\t' {
        seq!['\\', 't']
    } else {
        seq![c]
    }
}

pub open spec fn escaped_text(t: Seq<char>) -> Seq<char>
    decreases t.len(),
{
    if t.len() == 0 {
        Seq::empty()
    } else {
        escaped_char(t[0]) + escaped_text(t.drop_first())
    }
}

proof fn lemma_string(head: Seq<char>, t: Seq<char>, rest: Seq<char>)
    ensures
        lex::string_body(head + escaped_text(t) + seq!['"'] + rest, head.len() as int) == Some(
            (t, head.len() as int + escaped_text(t).len() + 1),
        ),
    decreases t.len(),
{
    let s = head + escaped_text(t) + seq!['"'] + rest;
    let at = head.len() as int;
    if t.len() == 0 {
        assert(s[at] == '"');
        assert(t =~= Seq::empty());
    } else {
        let one = escaped_char(t[0]);
        let next = head + one;
        lemma_string(next, t.drop_first(), rest);
        assert(s =~= next + escaped_text(t.drop_first()) + seq!['"'] + rest);
        assert(s[at] == one[0]);
        if one.len() == 2 {
            assert(s[at + 1] == one[1]);
        }
        assert(seq![t[0]] + t.drop_first() =~= t);
    }
}

/// A string means the text that was written, its escapes taken out.
pub proof fn strings_mean_what_was_written(head: Seq<char>, t: Seq<char>, rest: Seq<char>, line: nat)
    ensures
        lex::step(head + seq!['"'] + escaped_text(t) + seq!['"'] + rest, head.len() as int, line)
            == lex::Step::Token(
            lex::TokenModel::Str(t),
            head.len() as int + escaped_text(t).len() + 2,
        ),
{
    lemma_string(head + seq!['"'], t, rest);
}

/// Behind a backslash `n` and `t` mean a line break and a tab, anything else
/// itself.
pub proof fn escapes_mean_two_marks_or_themselves(s: Seq<char>, i: int)
    requires
        0 <= i,
        i + 1 < s.len(),
        s[i] == '\\',
    ensures
        lex::string_body(s, i + 2) matches Some((rest, end)) ==> lex::string_body(s, i) == Some(
            (
                seq![
                    if s[i + 1] == 'n' {
                        '\n'
                    } else if s[i + 1] == 't' {
                        '\t'
                    } else {
                        s[i + 1]
                    },
                ] + rest,
                end,
            ),
        ),
{
}

/// A bracket in a field name goes on to its closing one, whatever is inside.
pub proof fn brackets_belong_to_a_word(head: Seq<char>, inside: Seq<char>, rest: Seq<char>)
    requires
        !inside.contains(']'),
    ensures
        ({
            let s = head + seq!['['] + inside + seq![']'] + rest;
            lex::word_end(s, head.len() as int) == lex::word_end(
                s,
                head.len() as int + inside.len() + 2,
            )
        }),
{
    let s = head + seq!['['] + inside + seq![']'] + rest;
    let at = head.len() as int;
    let end = at + inside.len() + 1;
    assert(s[at] == '[' && s[end] == ']');
    crate::split::lemma_find_from(s, ']', at);
    match crate::split::find_from(s, ']', at) {
        Some(k) => {
            if at < k < end {
                assert(s[k] == inside[k - at - 1]);
                assert(inside.contains(inside[k - at - 1]));
            }
        },
        None => {},
    }
}

/// How a pattern is written in a rule: its slashes are escaped.
pub open spec fn slashed(t: Seq<char>) -> Seq<char>
    decreases t.len(),
{
    if t.len() == 0 {
        Seq::empty()
    } else {
        (if t[0] == '/' {
            seq!['\\', '/']
        } else {
            seq![t[0]]
        }) + slashed(t.drop_first())
    }
}

proof fn lemma_regex(head: Seq<char>, t: Seq<char>, rest: Seq<char>)
    requires
        !t.contains('\n'),
        t.len() > 0 ==> t.last() != '\\',
    ensures
        lex::regex_body(head + slashed(t) + seq!['/'] + rest, head.len() as int) == Some(
            (t, head.len() as int + slashed(t).len() + 1),
        ),
    decreases t.len(),
{
    let s = head + slashed(t) + seq!['/'] + rest;
    let at = head.len() as int;
    if t.len() == 0 {
        assert(s[at] == '/');
        assert(t =~= Seq::empty());
    } else {
        let one = if t[0] == '/' {
            seq!['\\', '/']
        } else {
            seq![t[0]]
        };
        let next = head + one;
        let more = t.drop_first();
        assert(t.contains(t[0]));
        assert forall|k: int| 0 <= k < more.len() implies #[trigger] more[k] != '\n' by {
            assert(t.contains(t[k + 1]));
        }
        if more.len() > 0 {
            assert(more.last() == t.last());
        }
        lemma_regex(next, more, rest);
        assert(s =~= next + slashed(more) + seq!['/'] + rest);
        assert(s[at] == one[0]);
        if one.len() == 2 {
            assert(s[at + 1] == one[1]);
        } else if t[0] == '\\' {
            assert(more.len() > 0);
            assert(slashed(more).len() > 0);
            assert(s[at + 1] == slashed(more)[0]);
        }
        assert(seq![t[0]] + more =~= t);
    }
}

/// A pattern means the expression that was written, its slashes unescaped.
pub proof fn patterns_mean_what_was_written(
    head: Seq<char>,
    t: Seq<char>,
    rest: Seq<char>,
    line: nat,
)
    requires
        t.len() > 0,
        !t.contains('\n'),
        t.last() != '\\',
        t[0] != '*',
    ensures
        lex::step(head + seq!['/'] + slashed(t) + seq!['/'] + rest, head.len() as int, line)
            == lex::Step::Token(lex::TokenModel::Regex(t), head.len() as int + slashed(t).len() + 2),
{
    let s = head + seq!['/'] + slashed(t) + seq!['/'] + rest;
    lemma_regex(head + seq!['/'], t, rest);
    assert(slashed(t).len() > 0);
    assert(s[head.len() as int] == '/');
    assert(s[head.len() as int + 1] == slashed(t)[0]);
}

// -------------------------------------------------------------- operators

/// Every operator is written by one mark or word, and nothing else is one.
pub proof fn operators_are_written_one_way(w: Seq<char>)
    ensures
        parser::symbol_op(w) == Some(Op::Eq) <==> w == "=="@,
        parser::symbol_op(w) == Some(Op::Ne) <==> w == "!="@,
        parser::symbol_op(w) == Some(Op::Gt) <==> w == ">"@,
        parser::symbol_op(w) == Some(Op::Ge) <==> w == ">="@,
        parser::symbol_op(w) == Some(Op::Lt) <==> w == "<"@,
        parser::symbol_op(w) == Some(Op::Le) <==> w == "<="@,
        parser::symbol_op(w) is None <==> w != "=="@ && w != "!="@ && w != ">"@ && w != ">="@ && w
            != "<"@ && w != "<="@,
        parser::word_op(w) == Some(Op::Contains) <==> w == "contains"@,
        parser::word_op(w) == Some(Op::IContains) <==> w == "icontains"@,
        parser::word_op(w) == Some(Op::StartsWith) <==> w == "startswith"@,
        parser::word_op(w) == Some(Op::IStartsWith) <==> w == "istartswith"@,
        parser::word_op(w) == Some(Op::EndsWith) <==> w == "endswith"@,
        parser::word_op(w) == Some(Op::IEndsWith) <==> w == "iendswith"@,
        parser::word_op(w) == Some(Op::Matches) <==> w == "matches"@,
        parser::word_op(w) == Some(Op::In) <==> w == "in"@,
        parser::word_op(w) == Some(Op::Exists) <==> w == "exists"@,
        parser::word_op(w) == Some(Op::Missing) <==> w == "missing"@,
        parser::word_op(w) is None <==> w != "contains"@ && w != "icontains"@ && w
            != "startswith"@ && w != "istartswith"@ && w != "endswith"@ && w != "iendswith"@ && w
            != "matches"@ && w != "in"@ && w != "exists"@ && w != "missing"@,
{
    reveal_strlit("==");
    assert("=="@.len() == 2);
    reveal_strlit("!=");
    assert("!="@.len() == 2);
    reveal_strlit(">");
    assert(">"@.len() == 1);
    reveal_strlit(">=");
    assert(">="@.len() == 2);
    reveal_strlit("<");
    assert("<"@.len() == 1);
    reveal_strlit("<=");
    assert("<="@.len() == 2);
    assert("=="@[0] != "!="@[0]);
    assert("=="@[0] != ">="@[0]);
    assert("=="@[0] != "<="@[0]);
    assert("!="@[0] != ">="@[0]);
    assert("!="@[0] != "<="@[0]);
    assert(">"@[0] != "<"@[0]);
    assert(">="@[0] != "<="@[0]);
    reveal_strlit("contains");
    assert("contains"@.len() == 8);
    reveal_strlit("icontains");
    assert("icontains"@.len() == 9);
    reveal_strlit("startswith");
    assert("startswith"@.len() == 10);
    reveal_strlit("istartswith");
    assert("istartswith"@.len() == 11);
    reveal_strlit("endswith");
    assert("endswith"@.len() == 8);
    reveal_strlit("iendswith");
    assert("iendswith"@.len() == 9);
    reveal_strlit("matches");
    assert("matches"@.len() == 7);
    reveal_strlit("in");
    assert("in"@.len() == 2);
    reveal_strlit("exists");
    assert("exists"@.len() == 6);
    reveal_strlit("missing");
    assert("missing"@.len() == 7);
    assert("contains"@[0] != "endswith"@[0]);
    assert("icontains"@[1] != "iendswith"@[1]);
    assert("matches"@[1] != "missing"@[1]);
}

/// The operator behind a field name, with the value it takes.
pub proof fn operators_take_their_value(s: parser::Input, i: int, rule: Seq<char>, op: Op)
    ensures
        parser::symbol_op("="@) is None,
        (s.at(i) matches Some(lex::TokenModel::Sym(w)) && parser::symbol_op(w) == Some(op)) || (
        s.at(i) matches Some(lex::TokenModel::Word(w)) && parser::word_op(w) == Some(op)) ==> {
            &&& op == Op::Exists || op == Op::Missing ==> parser::operator(s, i, rule) == Ok::<
                (Op, rule::LiteralModel, int),
                parser::ParseErrorModel,
            >((op, rule::LiteralModel::Nothing, i + 1))
            &&& op != Op::Exists && op != Op::Missing && op != Op::In && op != Op::Matches ==> {
                &&& s.at(i + 1) matches Some(lex::TokenModel::Str(t)) ==> parser::operator(
                    s,
                    i,
                    rule,
                ) == Ok::<(Op, rule::LiteralModel, int), parser::ParseErrorModel>(
                    (op, rule::LiteralModel::Str(t), i + 2),
                )
                &&& s.at(i + 1) matches Some(lex::TokenModel::Num(d)) ==> parser::operator(
                    s,
                    i,
                    rule,
                ) == Ok::<(Op, rule::LiteralModel, int), parser::ParseErrorModel>(
                    (op, rule::LiteralModel::Num(d), i + 2),
                )
                &&& s.at(i + 1) == Some(lex::TokenModel::Word("true"@)) ==> parser::operator(
                    s,
                    i,
                    rule,
                ) == Ok::<(Op, rule::LiteralModel, int), parser::ParseErrorModel>(
                    (op, rule::LiteralModel::Bool(true), i + 2),
                )
                &&& s.at(i + 1) == Some(lex::TokenModel::Word("false"@)) ==> parser::operator(
                    s,
                    i,
                    rule,
                ) == Ok::<(Op, rule::LiteralModel, int), parser::ParseErrorModel>(
                    (op, rule::LiteralModel::Bool(false), i + 2),
                )
                &&& s.at(i + 1) is None ==> parser::operator(s, i, rule) is Err
            }
            &&& op == Op::Matches ==> (s.at(i + 1) matches Some(lex::TokenModel::Regex(t)) ==> (
            pattern::regex_fault(t) is None ==> parser::operator(s, i, rule) == Ok::<
                (Op, rule::LiteralModel, int),
                parser::ParseErrorModel,
            >((op, rule::LiteralModel::Regex(t), i + 2))))
        },
{
    operators_are_written_one_way("="@);
    reveal_strlit("=");
    reveal_strlit("==");
    reveal_strlit("!=");
    reveal_strlit(">");
    reveal_strlit(">=");
    reveal_strlit("<");
    reveal_strlit("<=");
    assert("="@.len() == 1 && "=="@.len() == 2 && "!="@.len() == 2 && ">="@.len() == 2 && "<="@.len()
        == 2);
    assert("="@[0] != ">"@[0] && "="@[0] != "<"@[0]);
    reveal_strlit("true");
    reveal_strlit("false");
    assert("true"@.len() == 4 && "false"@.len() == 5);
}

/// The texts that stand between commas, from position `i` on, up to the
/// closing parenthesis.
pub open spec fn lists(s: parser::Input, i: int, items: Seq<lex::TokenModel>) -> bool
    decreases items.len(),
{
    items.len() > 0 && s.at(i) == Some(items[0]) && if items.len() == 1 {
        s.at(i + 1) == Some(lex::TokenModel::RParen)
    } else {
        s.at(i + 1) == Some(lex::TokenModel::Comma) && lists(s, i + 2, items.drop_first())
    }
}

proof fn lemma_set(
    s: parser::Input,
    i: int,
    rule: Seq<char>,
    done: Seq<Seq<char>>,
    items: Seq<Seq<char>>,
)
    requires
        lists(s, i, Seq::new(items.len(), |k: int| lex::TokenModel::Str(items[k]))),
    ensures
        parser::set_from(s, i, rule, done) == Ok::<(Seq<Seq<char>>, int), parser::ParseErrorModel>(
            (done + items, i + 2 * items.len()),
        ),
    decreases items.len(),
{
    let all = Seq::new(items.len(), |k: int| lex::TokenModel::Str(items[k]));
    assert(all[0] == lex::TokenModel::Str(items[0]));
    if items.len() == 1 {
        assert(done.push(items[0]) =~= done + items);
    } else {
        let more = items.drop_first();
        assert(all.drop_first() =~= Seq::new(more.len(), |k: int| lex::TokenModel::Str(more[k])));
        lemma_set(s, i + 2, rule, done.push(items[0]), more);
        assert(done.push(items[0]) + more =~= done + items);
    }
}

/// `in` takes the texts between its parentheses, all of them and in order.
pub proof fn in_takes_the_listed_texts(
    s: parser::Input,
    i: int,
    rule: Seq<char>,
    items: Seq<Seq<char>>,
)
    requires
        s.at(i) == Some(lex::TokenModel::Word("in"@)),
        s.at(i + 1) == Some(lex::TokenModel::LParen),
        lists(s, i + 2, Seq::new(items.len(), |k: int| lex::TokenModel::Str(items[k]))),
    ensures
        parser::operator(s, i, rule) == Ok::<
            (Op, rule::LiteralModel, int),
            parser::ParseErrorModel,
        >((Op::In, rule::LiteralModel::OneOf(items), i + 2 + 2 * items.len())),
{
    operators_are_written_one_way("in"@);
    lemma_set(s, i + 2, rule, Seq::empty(), items);
    assert(Seq::<Seq<char>>::empty() + items =~= items);
}

proof fn lemma_vars(
    s: parser::Input,
    i: int,
    rule: Seq<char>,
    done: Seq<Seq<char>>,
    items: Seq<Seq<char>>,
)
    requires
        lists(s, i, Seq::new(items.len(), |k: int| lex::TokenModel::Var(items[k]))),
    ensures
        parser::vars_from(s, i, rule, done) == Ok::<(Seq<Seq<char>>, int), parser::ParseErrorModel>(
            (done + items, i + 2 * items.len()),
        ),
    decreases items.len(),
{
    let all = Seq::new(items.len(), |k: int| lex::TokenModel::Var(items[k]));
    assert(all[0] == lex::TokenModel::Var(items[0]));
    if items.len() == 1 {
        assert(done.push(items[0]) =~= done + items);
    } else {
        let more = items.drop_first();
        assert(all.drop_first() =~= Seq::new(more.len(), |k: int| lex::TokenModel::Var(more[k])));
        lemma_vars(s, i + 2, rule, done.push(items[0]), more);
        assert(done.push(items[0]) + more =~= done + items);
    }
}

// ------------------------------------------------------------- conditions

/// `N of ($a, $b)` counts the listed variables, all of them and in order.
pub proof fn n_of_lists_its_variables(
    s: parser::Input,
    i: int,
    rule: Seq<char>,
    count: number::DoubleModel,
    vars: Seq<Seq<char>>,
)
    requires
        s.at(i) == Some(lex::TokenModel::Num(count)),
        s.at(i + 1) == Some(lex::TokenModel::Word("of"@)),
        s.at(i + 2) == Some(lex::TokenModel::LParen),
        lists(s, i + 3, Seq::new(vars.len(), |k: int| lex::TokenModel::Var(vars[k]))),
    ensures
        parser::unary(s, i, rule) == Ok::<(rule::ConditionModel, int), parser::ParseErrorModel>(
            (
                rule::ConditionModel::NOf(number::whole_part(count.bits, usize::MAX as nat), vars),
                i + 3 + 2 * vars.len(),
            ),
        ),
{
    lemma_vars(s, i + 3, rule, Seq::empty(), vars);
    assert(Seq::<Seq<char>>::empty() + vars =~= vars);
}

pub open spec fn word_at(s: parser::Input, i: int, w: Seq<char>) -> bool {
    s.at(i) == Some(lex::TokenModel::Word(w))
}

pub open spec fn var_at(s: parser::Input, i: int, v: Seq<char>) -> bool {
    s.at(i) == Some(lex::TokenModel::Var(v))
}

pub open spec fn var_of(v: Seq<char>) -> rule::ConditionModel {
    rule::ConditionModel::Var(v)
}

pub open spec fn both(a: rule::ConditionModel, b: rule::ConditionModel) -> rule::ConditionModel {
    rule::ConditionModel::And(Box::new(a), Box::new(b))
}

pub open spec fn either(a: rule::ConditionModel, b: rule::ConditionModel) -> rule::ConditionModel {
    rule::ConditionModel::Or(Box::new(a), Box::new(b))
}

pub open spec fn none_of(a: rule::ConditionModel) -> rule::ConditionModel {
    rule::ConditionModel::Not(Box::new(a))
}

proof fn lemma_and_or()
    ensures
        "and"@ != "or"@,
        "not"@ != "or"@,
        "not"@ != "and"@,
{
    reveal_strlit("and");
    reveal_strlit("or");
    reveal_strlit("not");
    assert("and"@.len() == 3 && "or"@.len() == 2 && "not"@.len() == 3);
    assert("and"@[0] != "not"@[0]);
}

/// A variable, a negation and a parenthesis are conditions.
pub proof fn single_conditions_are_read(s: parser::Input, i: int, rule: Seq<char>)
    ensures
        s.at(i) matches Some(lex::TokenModel::Var(v)) ==> parser::unary(s, i, rule) == Ok::<
            (rule::ConditionModel, int),
            parser::ParseErrorModel,
        >((var_of(v), i + 1)),
        word_at(s, i, "not"@) ==> (parser::unary(s, i + 1, rule) matches Ok((a, j)) ==> parser::unary(
            s,
            i,
            rule,
        ) == Ok::<(rule::ConditionModel, int), parser::ParseErrorModel>((none_of(a), j))),
        s.at(i) == Some(lex::TokenModel::LParen) ==> (parser::disjunction(s, i + 1, rule) matches Ok(
            (a, j),
        ) ==> (s.at(j) == Some(lex::TokenModel::RParen) ==> parser::unary(s, i, rule) == Ok::<
            (rule::ConditionModel, int),
            parser::ParseErrorModel,
        >((a, j + 1)))),
        s.at(i) is None ==> parser::unary(s, i, rule) is Err,
{
}

/// `and` joins, and joins what stands on its left first.
pub proof fn conjunctions_are_read_from_the_left(
    s: parser::Input,
    i: int,
    rule: Seq<char>,
    a: Seq<char>,
    b: Seq<char>,
    c: Seq<char>,
)
    requires
        i >= 0,
        var_at(s, i, a) && word_at(s, i + 1, "and"@) && var_at(s, i + 2, b),
        word_at(s, i + 3, "and"@) && var_at(s, i + 4, c),
        !word_at(s, i + 5, "and"@) && !word_at(s, i + 5, "or"@),
    ensures
        parser::disjunction(s, i, rule) == Ok::<
            (rule::ConditionModel, int),
            parser::ParseErrorModel,
        >((both(both(var_of(a), var_of(b)), var_of(c)), i + 5)),
{
    lemma_and_or();
    single_conditions_are_read(s, i, rule);
    single_conditions_are_read(s, i + 2, rule);
    single_conditions_are_read(s, i + 4, rule);
    let ab = both(var_of(a), var_of(b));
    let abc = both(ab, var_of(c));
    assert(parser::and_tail(s, i + 5, rule, abc) == Ok::<
        (rule::ConditionModel, int),
        parser::ParseErrorModel,
    >((abc, i + 5)));
    assert(parser::and_tail(s, i + 3, rule, ab) == parser::and_tail(s, i + 5, rule, abc));
    assert(parser::and_tail(s, i + 1, rule, var_of(a)) == parser::and_tail(s, i + 3, rule, ab));
    assert(parser::conjunction(s, i, rule) == Ok::<
        (rule::ConditionModel, int),
        parser::ParseErrorModel,
    >((abc, i + 5)));
    assert(parser::or_tail(s, i + 5, rule, abc) == Ok::<
        (rule::ConditionModel, int),
        parser::ParseErrorModel,
    >((abc, i + 5)));
}

/// `or` joins, and joins what stands on its left first.
pub proof fn disjunctions_are_read_from_the_left(
    s: parser::Input,
    i: int,
    rule: Seq<char>,
    a: Seq<char>,
    b: Seq<char>,
    c: Seq<char>,
)
    requires
        i >= 0,
        var_at(s, i, a) && word_at(s, i + 1, "or"@) && var_at(s, i + 2, b),
        word_at(s, i + 3, "or"@) && var_at(s, i + 4, c),
        !word_at(s, i + 5, "and"@) && !word_at(s, i + 5, "or"@),
    ensures
        parser::disjunction(s, i, rule) == Ok::<
            (rule::ConditionModel, int),
            parser::ParseErrorModel,
        >((either(either(var_of(a), var_of(b)), var_of(c)), i + 5)),
{
    lemma_and_or();
    lemma_lone(s, i, rule, a);
    lemma_lone(s, i + 2, rule, b);
    lemma_lone(s, i + 4, rule, c);
    let ab = either(var_of(a), var_of(b));
    let abc = either(ab, var_of(c));
    assert(parser::or_tail(s, i + 5, rule, abc) == Ok::<
        (rule::ConditionModel, int),
        parser::ParseErrorModel,
    >((abc, i + 5)));
    assert(parser::or_tail(s, i + 3, rule, ab) == parser::or_tail(s, i + 5, rule, abc));
    assert(parser::or_tail(s, i + 1, rule, var_of(a)) == parser::or_tail(s, i + 3, rule, ab));
}

/// A variable with no `and` behind it is a conjunction of its own.
proof fn lemma_lone(s: parser::Input, i: int, rule: Seq<char>, v: Seq<char>)
    requires
        i >= 0,
        var_at(s, i, v),
        !word_at(s, i + 1, "and"@),
    ensures
        parser::conjunction(s, i, rule) == Ok::<
            (rule::ConditionModel, int),
            parser::ParseErrorModel,
        >((var_of(v), i + 1)),
{
    single_conditions_are_read(s, i, rule);
    assert(parser::and_tail(s, i + 1, rule, var_of(v)) == Ok::<
        (rule::ConditionModel, int),
        parser::ParseErrorModel,
    >((var_of(v), i + 1)));
}

proof fn lemma_pair(s: parser::Input, i: int, rule: Seq<char>, a: Seq<char>, b: Seq<char>)
    requires
        i >= 0,
        var_at(s, i, a) && word_at(s, i + 1, "and"@) && var_at(s, i + 2, b),
        !word_at(s, i + 3, "and"@),
    ensures
        parser::conjunction(s, i, rule) == Ok::<
            (rule::ConditionModel, int),
            parser::ParseErrorModel,
        >((both(var_of(a), var_of(b)), i + 3)),
{
    single_conditions_are_read(s, i, rule);
    single_conditions_are_read(s, i + 2, rule);
    let ab = both(var_of(a), var_of(b));
    assert(parser::and_tail(s, i + 3, rule, ab) == Ok::<
        (rule::ConditionModel, int),
        parser::ParseErrorModel,
    >((ab, i + 3)));
    assert(parser::and_tail(s, i + 1, rule, var_of(a)) == parser::and_tail(s, i + 3, rule, ab));
}

/// `and` binds tighter than `or`, on either side of it.
pub proof fn conjunctions_bind_tighter(
    s: parser::Input,
    i: int,
    rule: Seq<char>,
    a: Seq<char>,
    b: Seq<char>,
    c: Seq<char>,
)
    requires
        i >= 0,
        var_at(s, i, a) && var_at(s, i + 2, b) && var_at(s, i + 4, c),
        !word_at(s, i + 5, "and"@) && !word_at(s, i + 5, "or"@),
    ensures
        word_at(s, i + 1, "or"@) && word_at(s, i + 3, "and"@) ==> parser::disjunction(s, i, rule)
            == Ok::<(rule::ConditionModel, int), parser::ParseErrorModel>(
            (either(var_of(a), both(var_of(b), var_of(c))), i + 5),
        ),
        word_at(s, i + 1, "and"@) && word_at(s, i + 3, "or"@) ==> parser::disjunction(s, i, rule)
            == Ok::<(rule::ConditionModel, int), parser::ParseErrorModel>(
            (either(both(var_of(a), var_of(b)), var_of(c)), i + 5),
        ),
{
    lemma_and_or();
    if word_at(s, i + 1, "or"@) && word_at(s, i + 3, "and"@) {
        lemma_lone(s, i, rule, a);
        lemma_pair(s, i + 2, rule, b, c);
        let abc = either(var_of(a), both(var_of(b), var_of(c)));
        assert(parser::or_tail(s, i + 5, rule, abc) == Ok::<
            (rule::ConditionModel, int),
            parser::ParseErrorModel,
        >((abc, i + 5)));
        assert(parser::or_tail(s, i + 1, rule, var_of(a)) == parser::or_tail(s, i + 5, rule, abc));
    }
    if word_at(s, i + 1, "and"@) && word_at(s, i + 3, "or"@) {
        lemma_pair(s, i, rule, a, b);
        lemma_lone(s, i + 4, rule, c);
        let ab = both(var_of(a), var_of(b));
        let abc = either(ab, var_of(c));
        assert(parser::or_tail(s, i + 5, rule, abc) == Ok::<
            (rule::ConditionModel, int),
            parser::ParseErrorModel,
        >((abc, i + 5)));
        assert(parser::or_tail(s, i + 3, rule, ab) == parser::or_tail(s, i + 5, rule, abc));
    }
}

// ------------------------------------------------------------------ rules

/// A rule of one meta entry, one field and one condition is read as that.
pub proof fn a_small_rule_is_read_whole(
    s: parser::Input,
    i: int,
    id: Seq<char>,
    key: Seq<char>,
    value: Seq<char>,
    var: Seq<char>,
    field: Seq<char>,
    symbol: Seq<char>,
    op: Op,
    t: Seq<char>,
)
    requires
        i >= 0,
        word_at(s, i, "rule"@) && word_at(s, i + 1, id),
        s.at(i + 2) == Some(lex::TokenModel::LBrace),
        word_at(s, i + 3, "meta"@) && s.at(i + 4) == Some(lex::TokenModel::Colon),
        word_at(s, i + 5, key) && s.at(i + 6) == Some(lex::TokenModel::Sym("="@)),
        s.at(i + 7) == Some(lex::TokenModel::Str(value)),
        word_at(s, i + 8, "fields"@) && s.at(i + 9) == Some(lex::TokenModel::Colon),
        var_at(s, i + 10, var) && s.at(i + 11) == Some(lex::TokenModel::Sym("="@)),
        word_at(s, i + 12, field) && s.at(i + 13) == Some(lex::TokenModel::Sym(symbol)),
        parser::symbol_op(symbol) == Some(op),
        s.at(i + 14) == Some(lex::TokenModel::Str(t)),
        word_at(s, i + 15, "condition"@) && s.at(i + 16) == Some(lex::TokenModel::Colon),
        var_at(s, i + 17, var),
        s.at(i + 18) == Some(lex::TokenModel::RBrace),
    ensures
        parser::rule_at(s, i) matches Ok((r, j)) && j == i + 19 && r.id == id && r.meta
            == Map::<Seq<char>, Seq<char>>::empty().insert(key, value) && r.fields == seq![
            rule::FieldModel { var, field, op, value: rule::LiteralModel::Str(t) },
        ] && r.condition == rule::ConditionModel::Var(var),
{
    reveal_strlit("meta");
    reveal_strlit("fields");
    reveal_strlit("condition");
    assert("meta"@.len() == 4 && "fields"@.len() == 6 && "condition"@.len() == 9);
    let none = parser::Sections {
        meta: Map::empty(),
        fields: Seq::empty(),
        condition: None,
    };
    let meta = Map::<Seq<char>, Seq<char>>::empty().insert(key, value);
    assert(parser::meta_from(s, i + 8, id, meta) == Ok::<
        (Map<Seq<char>, Seq<char>>, int),
        parser::ParseErrorModel,
    >((meta, i + 8)));
    assert(parser::meta_from(s, i + 5, id, Map::empty()) == parser::meta_from(s, i + 8, id, meta));
    operators_take_their_value(s, i + 13, id, op);
    operators_are_written_one_way(symbol);
    let one = rule::FieldModel { var, field, op, value: rule::LiteralModel::Str(t) };
    let fields = Seq::<rule::FieldModel>::empty().push(one);
    assert(fields =~= seq![one]);
    assert(parser::fields_from(s, i + 15, id, fields) == Ok::<
        (Seq<rule::FieldModel>, int),
        parser::ParseErrorModel,
    >((fields, i + 15)));
    assert(parser::operator(s, i + 13, id) == Ok::<
        (Op, rule::LiteralModel, int),
        parser::ParseErrorModel,
    >((op, rule::LiteralModel::Str(t), i + 15)));
    assert(parser::fields_from(s, i + 10, id, Seq::empty()) == parser::fields_from(
        s,
        i + 15,
        id,
        fields,
    ));
    lemma_lone(s, i + 17, id, var);
    assert(parser::disjunction(s, i + 17, id) == Ok::<
        (rule::ConditionModel, int),
        parser::ParseErrorModel,
    >((var_of(var), i + 18)));
    let a = parser::Sections { meta, ..none };
    let b = parser::Sections { fields, ..a };
    let c = parser::Sections { condition: Some((var_of(var), i + 17)), ..b };
    assert(parser::sections_from(s, i + 18, id, c) == Ok::<
        (parser::Sections, int),
        parser::ParseErrorModel,
    >((c, i + 18)));
    assert(parser::sections_from(s, i + 15, id, b) == parser::sections_from(s, i + 18, id, c));
    assert(parser::sections_from(s, i + 8, id, a) == parser::sections_from(s, i + 15, id, b));
    assert(parser::sections_from(s, i + 3, id, none) == parser::sections_from(s, i + 8, id, a));
    assert(fields[0].var == var);
    assert(parser::is_declared(fields, var));
}

/// Rules without a condition, with an unknown section, with a variable that
/// no field declares, or under an id that is taken are refused.
pub proof fn broken_rules_are_refused(
    s: parser::Input,
    i: int,
    done: Seq<rule::RuleModel>,
    k: int,
)
    ensures
        !word_at(s, i, "rule"@) ==> parser::rule_at(s, i) is Err,
        parser::rule_at(s, i) matches Ok((r, _)) ==> forall|v: Seq<char>|
            r.condition.names(v) ==> exists|f: int|
                0 <= f < r.fields.len() && (#[trigger] r.fields[f]).var == v,
        0 <= i < s.len() && 0 <= k < done.len() ==> (parser::rule_at(s, i) matches Ok((r, _)) ==> (
        done[k].id == r.id ==> parser::rules_from(s, i, done) == Err::<
            Seq<rule::RuleModel>,
            parser::ParseErrorModel,
        >(parser::ParseErrorModel::DuplicateId { id: r.id }))),
{
    match parser::rule_at(s, i) {
        Ok((r, _)) => {
            assert forall|v: Seq<char>| r.condition.names(v) implies exists|f: int|
                0 <= f < r.fields.len() && (#[trigger] r.fields[f]).var == v by {
                lemma_declared(r.condition, r.fields, v);
            }
            if 0 <= k < done.len() && done[k].id == r.id {
                assert(parser::has_id(done, r.id));
            }
        },
        Err(_) => {},
    }
}

proof fn lemma_declared(
    condition: rule::ConditionModel,
    fields: Seq<rule::FieldModel>,
    v: Seq<char>,
)
    requires
        parser::undeclared(condition, fields) is None,
        condition.names(v),
    ensures
        parser::is_declared(fields, v),
    decreases condition,
{
    match condition {
        rule::ConditionModel::Var(_) => {},
        rule::ConditionModel::Not(inner) => {
            lemma_declared(*inner, fields, v);
        },
        rule::ConditionModel::And(a, b) => {
            if a.names(v) {
                lemma_declared(*a, fields, v);
            } else {
                lemma_declared(*b, fields, v);
            }
        },
        rule::ConditionModel::Or(a, b) => {
            if a.names(v) {
                lemma_declared(*a, fields, v);
            } else {
                lemma_declared(*b, fields, v);
            }
        },
        rule::ConditionModel::NOf(_, vars) => {
            let k = choose|k: int| 0 <= k < vars.len() && vars[k] == v;
            lemma_declared_list(vars, 0, fields, k);
        },
    }
}

proof fn lemma_declared_list(
    vars: Seq<Seq<char>>,
    i: int,
    fields: Seq<rule::FieldModel>,
    k: int,
)
    requires
        0 <= i <= k < vars.len(),
        parser::undeclared_from(vars, i, fields) is None,
    ensures
        parser::is_declared(fields, vars[k]),
    decreases k - i,
{
    if i < k {
        lemma_declared_list(vars, i + 1, fields, k);
    }
}

} // verus!
