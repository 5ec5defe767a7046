//! What a rule cut out of a file parses to.

use vstd::prelude::*;

use crate::rule;
use crate::rule::lex;
use crate::rule::parser;
use crate::split;
use crate::text;

verus! {

// ------------------------------------------------------------ characters

proof fn lemma_find_cut(s: Seq<char>, a: int, b: int, c: char, i: int)
    requires
        0 <= a <= i,
        b <= s.len(),
        split::find_from(s, c, i) matches Some(k) && k < b,
    ensures
        split::find_from(s.subrange(a, b), c, i - a) == Some(
            split::find_from(s, c, i)->Some_0 - a,
        ),
    decreases b - i,
{
    split::lemma_find_from(s, c, i);
    if s[i] != c {
        lemma_find_cut(s, a, b, c, i + 1);
    }
}

proof fn lemma_find_text_cut(s: Seq<char>, a: int, b: int, part: Seq<char>, i: int)
    requires
        0 <= a <= i,
        b <= s.len(),
        split::find_text_from(s, part, i) matches Some(k) && k + part.len() <= b,
    ensures
        split::find_text_from(s.subrange(a, b), part, i - a) == Some(
            split::find_text_from(s, part, i)->Some_0 - a,
        ),
    decreases b - i,
{
    let t = s.subrange(a, b);
    let k = split::find_text_from(s, part, i)->Some_0;
    split::lemma_find_text_from(s, part, i);
    if i + part.len() <= b {
        assert(t.subrange(i - a, i - a + part.len()) =~= s.subrange(i, i + part.len()));
    }
    if !split::is_at(s, part, i) {
        lemma_find_text_cut(s, a, b, part, i + 1);
    }
}

proof fn lemma_name_cut(s: Seq<char>, a: int, b: int, i: int)
    requires
        0 <= a <= i < s.len(),
        b <= s.len(),
        lex::name_end(s, i) < b,
    ensures
        lex::name_end(s.subrange(a, b), i - a) == lex::name_end(s, i) - a,
    decreases s.len() - i,
{
    lex::lemma_name_end(s, i);
    if lex::is_name_char(s[i]) {
        lex::lemma_name_end(s, i + 1);
        lemma_name_cut(s, a, b, i + 1);
    }
}

proof fn lemma_number_cut(s: Seq<char>, a: int, b: int, i: int)
    requires
        0 <= a <= i < s.len(),
        b <= s.len(),
        lex::number_end(s, i) < b,
    ensures
        lex::number_end(s.subrange(a, b), i - a) == lex::number_end(s, i) - a,
    decreases s.len() - i,
{
    lex::lemma_number_end(s, i);
    if text::is_digit(s[i]) || s[i] == '.' {
        lex::lemma_number_end(s, i + 1);
        lemma_number_cut(s, a, b, i + 1);
    }
}

proof fn lemma_word_cut(s: Seq<char>, a: int, b: int, i: int)
    requires
        0 <= a <= i < s.len(),
        b <= s.len(),
        lex::word_end(s, i) < b,
    ensures
        lex::word_end(s.subrange(a, b), i - a) == lex::word_end(s, i) - a,
    decreases s.len() - i,
{
    lex::lemma_word_end(s, i);
    if s[i] == '[' {
        split::lemma_find_from(s, ']', i);
        match split::find_from(s, ']', i) {
            Some(k) => {
                lex::lemma_word_end(s, k + 1);
                lemma_find_cut(s, a, b, ']', i);
                lemma_word_cut(s, a, b, k + 1);
            },
            None => {},
        }
    } else if lex::is_name_char(s[i]) || s[i] == '.' || s[i] == '-' {
        lex::lemma_word_end(s, i + 1);
        lemma_word_cut(s, a, b, i + 1);
    }
}

proof fn lemma_string_cut(s: Seq<char>, a: int, b: int, i: int)
    requires
        0 <= a <= i,
        b <= s.len(),
        lex::string_body(s, i) matches Some((_, end)) && end <= b,
    ensures
        lex::string_body(s, i) matches Some((body, end)) && lex::string_body(
            s.subrange(a, b),
            i - a,
        ) == Some((body, end - a)),
    decreases s.len() - i,
{
    lex::lemma_string_body(s, i);
    if s[i] == '\\' && i + 1 < s.len() {
        lex::lemma_string_body(s, i + 2);
        lemma_string_cut(s, a, b, i + 2);
    } else if s[i] != '"' {
        lex::lemma_string_body(s, i + 1);
        lemma_string_cut(s, a, b, i + 1);
    }
}

proof fn lemma_regex_cut(s: Seq<char>, a: int, b: int, i: int)
    requires
        0 <= a <= i,
        b <= s.len(),
        lex::regex_body(s, i) matches Some((_, end)) && end <= b,
    ensures
        lex::regex_body(s, i) matches Some((body, end)) && lex::regex_body(
            s.subrange(a, b),
            i - a,
        ) == Some((body, end - a)),
    decreases s.len() - i,
{
    lex::lemma_regex_body(s, i);
    if s[i] == '\\' && i + 1 < s.len() && s[i + 1] == '/' {
        lex::lemma_regex_body(s, i + 2);
        lemma_regex_cut(s, a, b, i + 2);
    } else if s[i] != '/' {
        lex::lemma_regex_body(s, i + 1);
        lemma_regex_cut(s, a, b, i + 1);
    }
}

// ---------------------------------------------------------------- tokens

/// A step that ends before the cut does, or is its closing brace, is the same
/// in the cut.
proof fn lemma_step_cut(s: Seq<char>, a: int, b: int, i: int, line: nat, other: nat)
    requires
        0 <= a <= i < b <= s.len(),
        match lex::step(s, i, line) {
            lex::Step::Skip(next, _) => next < b,
            lex::Step::Token(token, end) => end < b || token is RBrace,
            lex::Step::Error(_) => false,
        },
    ensures
        match lex::step(s, i, line) {
            lex::Step::Skip(next, _) => lex::step(s.subrange(a, b), i - a, other) matches lex::Step::Skip(
                n,
                _,
            ) && n == next - a,
            lex::Step::Token(token, end) => lex::step(s.subrange(a, b), i - a, other) == lex::Step::Token(
                token,
                end - a,
            ),
            lex::Step::Error(_) => false,
        },
{
    let t = s.subrange(a, b);
    let c = s[i];
    assert(t[i - a] == c);
    lex::lemma_step(s, i, line);
    if c != '}' {
        assert(i + 1 < b);
        assert(t[i - a + 1] == s[i + 1]);
        if c == '/' && s[i + 1] == '/' {
            split::lemma_find_from(s, '\n', i);
            lemma_find_cut(s, a, b, '\n', i);
        } else if c == '/' && s[i + 1] == '*' {
            split::lemma_find_text_from(s, seq!['*', '/'], i + 2);
            lemma_find_text_cut(s, a, b, seq!['*', '/'], i + 2);
        } else if c == '"' {
            lemma_string_cut(s, a, b, i + 1);
        } else if c == '/' {
            lemma_regex_cut(s, a, b, i + 1);
        } else if c == '$' {
            lemma_name_cut(s, a, b, i + 1);
            lex::lemma_name_end(s, i + 1);
            let end = lex::name_end(s, i + 1);
            assert(t.subrange(i - a, end - a) =~= s.subrange(i, end));
        } else if text::is_digit(c) || c == '-' {
            lemma_number_cut(s, a, b, i + 1);
            lex::lemma_number_end(s, i + 1);
            let end = lex::number_end(s, i + 1);
            assert(t.subrange(i - a, end - a) =~= s.subrange(i, end));
        } else if text::is_alpha(c) || c == '_' {
            lex::lemma_word_end(s, i);
            lemma_word_cut(s, a, b, i);
            let end = lex::word_end(s, i);
            assert(t.subrange(i - a, end - a) =~= s.subrange(i, end));
        }
    }
}

pub open spec fn moved(list: Seq<lex::Spanned>, by: int) -> Seq<lex::Spanned> {
    Seq::new(
        list.len(),
        |i: int|
            lex::Spanned {
                token: list[i].token,
                start: list[i].start - by,
                end: list[i].end - by,
            },
    )
}

/// A stretch that ends with a closing brace has the tokens it has in the
/// whole.
proof fn lemma_tokens_cut(s: Seq<char>, a: int, b: int, i: int, line: nat, other: nat, q: int)
    requires
        0 <= a <= i <= s.len(),
        lex::tokens_from(s, i, line) matches Ok(list) && 0 <= q < list.len() && list[q].end == b
            && list[q].token is RBrace,
    ensures
        lex::tokens_from(s, i, line) matches Ok(list) && lex::tokens_from(
            s.subrange(a, b),
            i - a,
            other,
        ) == Ok::<Seq<lex::Spanned>, lex::LexErrorModel>(moved(list.take(q + 1), a)),
    decreases s.len() - i,
{
    let list = lex::tokens_from(s, i, line)->Ok_0;
    let t = s.subrange(a, b);
    lex::tokens_are_ordered(s, i, line);
    assert(i <= list[q].start < list[q].end <= s.len());
    lex::lemma_step(s, i, line);
    match lex::step(s, i, line) {
        lex::Step::Skip(next, next_line) => {
            lex::tokens_are_ordered(s, next, next_line);
            assert(next <= list[q].start);
            lemma_step_cut(s, a, b, i, line, other);
            let other_line = lex::step(t, i - a, other)->Skip_1;
            lemma_tokens_cut(s, a, b, next, next_line, other_line, q);
        },
        lex::Step::Token(token, end) => {
            let after = lex::below(line, lex::newlines(s, i, end));
            let rest = lex::tokens_from(s, end, after)->Ok_0;
            lex::tokens_are_ordered(s, end, after);
            let first = lex::Spanned { token, start: i, end };
            assert(list == seq![first] + rest);
            if q == 0 {
                assert(list[0] == first);
                lemma_step_cut(s, a, b, i, line, other);
                assert(lex::tokens_from(t, end - a, other) == Ok::<
                    Seq<lex::Spanned>,
                    lex::LexErrorModel,
                >(Seq::empty()));
                assert(moved(list.take(1), a) =~= seq![
                    lex::Spanned { token, start: i - a, end: end - a },
                ] + Seq::empty());
            } else {
                assert(list[q] == rest[q - 1]);
                assert(end <= list[q].start);
                lemma_step_cut(s, a, b, i, line, other);
                let other_after = lex::below(other, lex::newlines(t, i - a, end - a));
                lemma_tokens_cut(s, a, b, end, after, other_after, q - 1);
                assert(moved(list.take(q + 1), a) =~= seq![
                    lex::Spanned { token, start: i - a, end: end - a },
                ] + moved(rest.take(q), a));
            }
        },
        lex::Step::Error(_) => {},
    }
}

/// Where a token starts the tokens from it on start.
proof fn lemma_tokens_at(s: Seq<char>, i: int, line: nat, p: int) -> (at: nat)
    requires
        0 <= i <= s.len(),
        lex::tokens_from(s, i, line) matches Ok(list) && 0 <= p < list.len(),
    ensures
        lex::tokens_from(s, i, line) matches Ok(list) && lex::tokens_from(s, list[p].start, at)
            == Ok::<Seq<lex::Spanned>, lex::LexErrorModel>(list.skip(p)),
    decreases s.len() - i,
{
    let list = lex::tokens_from(s, i, line)->Ok_0;
    lex::lemma_step(s, i, line);
    match lex::step(s, i, line) {
        lex::Step::Skip(next, next_line) => lemma_tokens_at(s, next, next_line, p),
        lex::Step::Token(token, end) => {
            let after = lex::below(line, lex::newlines(s, i, end));
            let rest = lex::tokens_from(s, end, after)->Ok_0;
            assert(list == seq![lex::Spanned { token, start: i, end }] + rest);
            if p == 0 {
                assert(list.skip(0) =~= list);
                line
            } else {
                assert(list.skip(p) =~= rest.skip(p - 1));
                assert(list[p] == rest[p - 1]);
                lemma_tokens_at(s, end, after, p - 1)
            }
        },
        lex::Step::Error(_) => line,
    }
}

/// The tokens of a stretch from one token through a closing brace.
proof fn lemma_stretch(src: Seq<char>, p: int, q: int)
    requires
        lex::tokens(src) matches Ok(list) && 0 <= p <= q < list.len() && list[q].token is RBrace,
    ensures
        lex::tokens(src) matches Ok(list) && lex::tokens(
            src.subrange(list[p].start, list[q].end),
        ) matches Ok(cut) && lex::bare(cut) == lex::bare(list).subrange(p, q + 1),
{
    let list = lex::tokens(src)->Ok_0;
    let at = lemma_tokens_at(src, 0, 1, p);
    lex::tokens_are_ordered(src, 0, 1);
    let rest = list.skip(p);
    assert(rest[q - p] == list[q]);
    lemma_tokens_cut(src, list[p].start, list[q].end, list[p].start, at, 1, q - p);
    let cut = moved(rest.take(q - p + 1), list[p].start);
    assert(lex::bare(cut) =~= lex::bare(list).subrange(p, q + 1));
}

// --------------------------------------------------------------- grammar

/// `c` has the tokens `lo` up to `hi` of `s`.
spec fn is_stretch(s: parser::Input, c: parser::Input, lo: int, hi: int) -> bool {
    0 <= lo <= hi <= s.len() && c.tokens == s.tokens.subrange(lo, hi)
}

/// No brace stands among the tokens `i` up to `e`.
spec fn braceless(s: parser::Input, i: int, e: int) -> bool {
    &&& i <= e <= s.len()
    &&& forall|k: int|
        i <= k < e ==> !((#[trigger] s.tokens[k]) is LBrace) && !(s.tokens[k] is RBrace)
}

proof fn lemma_meta(
    s: parser::Input,
    c: parser::Input,
    lo: int,
    hi: int,
    i: int,
    id: Seq<char>,
    done: Map<Seq<char>, Seq<char>>,
)
    requires
        is_stretch(s, c, lo, hi),
        lo <= i <= s.len(),
    ensures
        parser::meta_from(s, i, id, done) matches Ok((meta, e)) ==> braceless(s, i, e) && (e < hi
            ==> parser::meta_from(c, i - lo, id, done) == Ok::<_, parser::ParseErrorModel>(
            (meta, e - lo),
        )),
    decreases s.len() - i,
{
    match s.at(i) {
        Some(lex::TokenModel::Word(key)) => {
            if s.at(i + 1) == Some(lex::TokenModel::Sym("="@)) {
                match s.at(i + 2) {
                    Some(lex::TokenModel::Str(value)) => {
                        lemma_meta(s, c, lo, hi, i + 3, id, done.insert(key, value));
                    },
                    _ => {},
                }
            }
        },
        _ => {},
    }
}

proof fn lemma_set(
    s: parser::Input,
    c: parser::Input,
    lo: int,
    hi: int,
    i: int,
    id: Seq<char>,
    done: Seq<Seq<char>>,
)
    requires
        is_stretch(s, c, lo, hi),
        lo <= i <= s.len(),
    ensures
        parser::set_from(s, i, id, done) matches Ok((items, e)) ==> i < e && braceless(s, i, e) && (
        e <= hi ==> parser::set_from(c, i - lo, id, done) == Ok::<_, parser::ParseErrorModel>(
            (items, e - lo),
        )),
    decreases s.len() - i,
{
    match s.at(i) {
        Some(lex::TokenModel::Str(item)) => match s.at(i + 1) {
            Some(lex::TokenModel::Comma) => {
                lemma_set(s, c, lo, hi, i + 2, id, done.push(item));
            },
            _ => {},
        },
        _ => {},
    }
}

proof fn lemma_vars(
    s: parser::Input,
    c: parser::Input,
    lo: int,
    hi: int,
    i: int,
    id: Seq<char>,
    done: Seq<Seq<char>>,
)
    requires
        is_stretch(s, c, lo, hi),
        lo <= i <= s.len(),
    ensures
        parser::vars_from(s, i, id, done) matches Ok((vars, e)) ==> i < e && braceless(s, i, e) && (
        e <= hi ==> parser::vars_from(c, i - lo, id, done) == Ok::<_, parser::ParseErrorModel>(
            (vars, e - lo),
        )),
    decreases s.len() - i,
{
    match s.at(i) {
        Some(lex::TokenModel::Var(var)) => match s.at(i + 1) {
            Some(lex::TokenModel::Comma) => {
                lemma_vars(s, c, lo, hi, i + 2, id, done.push(var));
            },
            _ => {},
        },
        _ => {},
    }
}

proof fn lemma_operator(
    s: parser::Input,
    c: parser::Input,
    lo: int,
    hi: int,
    i: int,
    id: Seq<char>,
)
    requires
        is_stretch(s, c, lo, hi),
        lo <= i <= s.len(),
    ensures
        parser::operator(s, i, id) matches Ok((op, value, e)) ==> i < e && braceless(s, i, e) && (e
            <= hi ==> parser::operator(c, i - lo, id) == Ok::<_, parser::ParseErrorModel>(
            (op, value, e - lo),
        )),
{
    if i + 2 <= s.len() {
        lemma_set(s, c, lo, hi, i + 2, id, Seq::empty());
    }
}

proof fn lemma_fields(
    s: parser::Input,
    c: parser::Input,
    lo: int,
    hi: int,
    i: int,
    id: Seq<char>,
    done: Seq<rule::FieldModel>,
)
    requires
        is_stretch(s, c, lo, hi),
        lo <= i <= s.len(),
    ensures
        parser::fields_from(s, i, id, done) matches Ok((fields, e)) ==> braceless(s, i, e) && (e
            < hi ==> parser::fields_from(c, i - lo, id, done) == Ok::<_, parser::ParseErrorModel>(
            (fields, e - lo),
        )),
    decreases s.len() - i,
{
    match s.at(i) {
        Some(lex::TokenModel::Var(var)) => match s.at(i + 2) {
            Some(lex::TokenModel::Word(field)) => {
                lemma_operator(s, c, lo, hi, i + 3, id);
                match parser::operator(s, i + 3, id) {
                    Ok((op, value, j)) => {
                        lemma_fields(
                            s,
                            c,
                            lo,
                            hi,
                            j,
                            id,
                            done.push(rule::FieldModel { var, field, op, value }),
                        );
                    },
                    Err(_) => {},
                }
            },
            _ => {},
        },
        _ => {},
    }
}

proof fn lemma_unary(
    s: parser::Input,
    c: parser::Input,
    lo: int,
    hi: int,
    i: int,
    id: Seq<char>,
)
    requires
        is_stretch(s, c, lo, hi),
        lo <= i <= s.len(),
    ensures
        parser::unary(s, i, id) matches Ok((condition, e)) ==> i < e && braceless(s, i, e) && (e < hi
            ==> parser::unary(c, i - lo, id) == Ok::<_, parser::ParseErrorModel>((condition, e - lo))),
    decreases s.len() - i, 0int,
{
    match s.at(i) {
        Some(lex::TokenModel::LParen) => {
            lemma_disjunction(s, c, lo, hi, i + 1, id);
        },
        Some(lex::TokenModel::Num(_)) => {
            if i + 3 <= s.len() {
                lemma_vars(s, c, lo, hi, i + 3, id, Seq::empty());
            }
        },
        Some(lex::TokenModel::Word(_)) => {
            lemma_unary(s, c, lo, hi, i + 1, id);
        },
        _ => {},
    }
}

proof fn lemma_and_tail(
    s: parser::Input,
    c: parser::Input,
    lo: int,
    hi: int,
    i: int,
    id: Seq<char>,
    left: rule::ConditionModel,
)
    requires
        is_stretch(s, c, lo, hi),
        lo <= i <= s.len(),
    ensures
        parser::and_tail(s, i, id, left) matches Ok((condition, e)) ==> braceless(s, i, e) && (e < hi
            ==> parser::and_tail(c, i - lo, id, left) == Ok::<_, parser::ParseErrorModel>((condition, e - lo))),
    decreases s.len() - i, 1int,
{
    if s.at(i) == Some(lex::TokenModel::Word("and"@)) {
        lemma_unary(s, c, lo, hi, i + 1, id);
        match parser::unary(s, i + 1, id) {
            Ok((right, j)) => {
                lemma_and_tail(
                    s,
                    c,
                    lo,
                    hi,
                    j,
                    id,
                    rule::ConditionModel::And(Box::new(left), Box::new(right)),
                );
            },
            Err(_) => {},
        }
    }
}

proof fn lemma_conjunction(
    s: parser::Input,
    c: parser::Input,
    lo: int,
    hi: int,
    i: int,
    id: Seq<char>,
)
    requires
        is_stretch(s, c, lo, hi),
        lo <= i <= s.len(),
    ensures
        parser::conjunction(s, i, id) matches Ok((condition, e)) ==> i < e && braceless(s, i, e) && (e < hi
            ==> parser::conjunction(c, i - lo, id) == Ok::<_, parser::ParseErrorModel>((condition, e - lo))),
    decreases s.len() - i, 2int,
{
    lemma_unary(s, c, lo, hi, i, id);
    match parser::unary(s, i, id) {
        Ok((left, j)) => {
            lemma_and_tail(s, c, lo, hi, j, id, left);
        },
        Err(_) => {},
    }
}

proof fn lemma_or_tail(
    s: parser::Input,
    c: parser::Input,
    lo: int,
    hi: int,
    i: int,
    id: Seq<char>,
    left: rule::ConditionModel,
)
    requires
        is_stretch(s, c, lo, hi),
        lo <= i <= s.len(),
    ensures
        parser::or_tail(s, i, id, left) matches Ok((condition, e)) ==> braceless(s, i, e) && (e < hi
            ==> parser::or_tail(c, i - lo, id, left) == Ok::<_, parser::ParseErrorModel>((condition, e - lo))),
    decreases s.len() - i, 3int,
{
    if s.at(i) == Some(lex::TokenModel::Word("or"@)) {
        lemma_conjunction(s, c, lo, hi, i + 1, id);
        match parser::conjunction(s, i + 1, id) {
            Ok((right, j)) => {
                lemma_or_tail(
                    s,
                    c,
                    lo,
                    hi,
                    j,
                    id,
                    rule::ConditionModel::Or(Box::new(left), Box::new(right)),
                );
            },
            Err(_) => {},
        }
    }
}

proof fn lemma_disjunction(
    s: parser::Input,
    c: parser::Input,
    lo: int,
    hi: int,
    i: int,
    id: Seq<char>,
)
    requires
        is_stretch(s, c, lo, hi),
        lo <= i <= s.len(),
    ensures
        parser::disjunction(s, i, id) matches Ok((condition, e)) ==> i < e && braceless(s, i, e) && (e < hi
            ==> parser::disjunction(c, i - lo, id) == Ok::<_, parser::ParseErrorModel>((condition, e - lo))),
    decreases s.len() - i, 4int,
{
    lemma_conjunction(s, c, lo, hi, i, id);
    match parser::conjunction(s, i, id) {
        Ok((left, j)) => {
            lemma_or_tail(s, c, lo, hi, j, id, left);
        },
        Err(_) => {},
    }
}

/// The same sections, read from a stretch that starts at token `lo`.
spec fn sections_in(done: parser::Sections, lo: int) -> parser::Sections {
    parser::Sections {
        condition: match done.condition {
            Some((condition, start)) => Some((condition, start - lo)),
            None => None,
        },
        ..done
    }
}

/// A section at token `i` that ends before token `j`, with `next` said by then.
proof fn lemma_section(
    s: parser::Input,
    c: parser::Input,
    lo: int,
    hi: int,
    i: int,
    j: int,
    id: Seq<char>,
    done: parser::Sections,
    next: parser::Sections,
)
    requires
        is_stretch(s, c, lo, hi),
        lo <= i < s.len(),
        s.tokens[i] is Word,
        s.at(i + 1) == Some(lex::TokenModel::Colon),
        braceless(s, i + 2, j),
        parser::sections_from(s, i, id, done) == parser::sections_from(s, j, id, next),
        j < hi ==> parser::sections_from(c, i - lo, id, sections_in(done, lo))
            == parser::sections_from(c, j - lo, id, sections_in(next, lo)),
        parser::sections_from(s, j, id, next) matches Ok((sections, e)) ==> s.at(e) == Some(
            lex::TokenModel::RBrace,
        ) && braceless(s, j, e) && (e < hi ==> parser::sections_from(
            c,
            j - lo,
            id,
            sections_in(next, lo),
        ) == Ok::<_, parser::ParseErrorModel>((sections_in(sections, lo), e - lo))),
    ensures
        parser::sections_from(s, i, id, done) matches Ok((sections, e)) ==> s.at(e) == Some(
            lex::TokenModel::RBrace,
        ) && braceless(s, i, e) && (e < hi ==> parser::sections_from(
            c,
            i - lo,
            id,
            sections_in(done, lo),
        ) == Ok::<_, parser::ParseErrorModel>((sections_in(sections, lo), e - lo))),
{
}

proof fn lemma_sections(
    s: parser::Input,
    c: parser::Input,
    lo: int,
    hi: int,
    i: int,
    id: Seq<char>,
    done: parser::Sections,
)
    requires
        is_stretch(s, c, lo, hi),
        lo <= i <= s.len(),
    ensures
        parser::sections_from(s, i, id, done) matches Ok((sections, e)) ==> s.at(e) == Some(
            lex::TokenModel::RBrace,
        ) && braceless(s, i, e) && (e < hi ==> parser::sections_from(
            c,
            i - lo,
            id,
            sections_in(done, lo),
        ) == Ok::<_, parser::ParseErrorModel>((sections_in(sections, lo), e - lo))),
    decreases s.len() - i,
{
    match s.at(i) {
        Some(lex::TokenModel::Word(section)) => {
            if s.at(i + 1) == Some(lex::TokenModel::Colon) {
                assert(i + 1 < hi ==> c.at(i - lo) == s.at(i) && c.at(i + 1 - lo) == s.at(i + 1));
                if section == "meta"@ {
                    lemma_meta(s, c, lo, hi, i + 2, id, Map::empty());
                    match parser::meta_from(s, i + 2, id, Map::empty()) {
                        Ok((meta, j)) => {
                            let next = parser::Sections { meta, ..done };
                            assert(sections_in(next, lo) == parser::Sections {
                                meta,
                                ..sections_in(done, lo)
                            });
                            lemma_sections(s, c, lo, hi, j, id, next);
                            lemma_section(s, c, lo, hi, i, j, id, done, next);
                        },
                        Err(_) => {},
                    }
                } else if section == "fields"@ {
                    lemma_fields(s, c, lo, hi, i + 2, id, Seq::empty());
                    match parser::fields_from(s, i + 2, id, Seq::empty()) {
                        Ok((fields, j)) => {
                            let next = parser::Sections { fields, ..done };
                            assert(sections_in(next, lo) == parser::Sections {
                                fields,
                                ..sections_in(done, lo)
                            });
                            lemma_sections(s, c, lo, hi, j, id, next);
                            lemma_section(s, c, lo, hi, i, j, id, done, next);
                        },
                        Err(_) => {},
                    }
                } else if section == "condition"@ {
                    lemma_disjunction(s, c, lo, hi, i + 2, id);
                    match parser::disjunction(s, i + 2, id) {
                        Ok((condition, j)) => {
                            let next = parser::Sections {
                                condition: Some((condition, i + 2)),
                                ..done
                            };
                            assert(sections_in(next, lo) == parser::Sections {
                                condition: Some((condition, i + 2 - lo)),
                                ..sections_in(done, lo)
                            });
                            lemma_sections(s, c, lo, hi, j, id, next);
                            lemma_section(s, c, lo, hi, i, j, id, done, next);
                        },
                        Err(_) => {},
                    }
                }
            }
        },
        _ => {},
    }
}

/// The tokens of one rule alone are that rule.
proof fn lemma_rule(s: parser::Input, c: parser::Input, i: int, e: int)
    requires
        0 <= i < s.len(),
        parser::rule_at(s, i) matches Ok((_, end)) && end == e,
        c.tokens == s.tokens.subrange(i, e),
    ensures
        i + 4 <= e <= s.len(),
        s.tokens[i] == lex::TokenModel::Word("rule"@),
        s.tokens[i + 1] == lex::TokenModel::Word(parser::rule_at(s, i)->Ok_0.0.id),
        s.tokens[i + 2] is LBrace,
        braceless(s, i + 3, e - 1),
        s.tokens[e - 1] is RBrace,
        parser::rules_from(c, 0, Seq::empty()) == Ok::<_, parser::ParseErrorModel>(
            seq![parser::rule_at(s, i)->Ok_0.0],
        ),
{
    let rule = parser::rule_at(s, i)->Ok_0.0;
    let first = parser::Sections { meta: Map::empty(), fields: Seq::empty(), condition: None };
    let end = parser::sections_from(s, i + 3, rule.id, first)->Ok_0.1;
    assert(end + 1 == e);
    assert(s.tokens.subrange(0, s.len()) =~= s.tokens);
    lemma_sections(s, s, 0, s.len(), i + 3, rule.id, first);
    assert(is_stretch(s, c, i, e));
    lemma_sections(s, c, i, e, i + 3, rule.id, first);
    assert(sections_in(first, i) == first);
    assert(parser::rule_at(c, 0) == Ok::<_, parser::ParseErrorModel>((rule, e - i)));
    let none = Seq::<rule::RuleModel>::empty();
    assert(none.push(rule) =~= seq![rule]);
    assert(parser::rules_from(c, e - i, seq![rule]) == Ok::<_, parser::ParseErrorModel>(
        seq![rule],
    ));
}

// ------------------------------------------------------------------ cuts

/// Inside a rule nothing but its closing brace ends it.
proof fn lemma_inside(
    src: Seq<char>,
    list: Seq<lex::Spanned>,
    s: parser::Input,
    i: int,
    e: int,
    open: Option<(Seq<char>, int)>,
)
    requires
        0 <= i,
        s.tokens == lex::bare(list),
        braceless(s, i, e),
    ensures
        parser::cuts_from(src, list, i, 1, open) == parser::cuts_from(src, list, e, 1, open),
    decreases e - i,
{
    if i < e {
        assert(s.tokens[i] == list[i].token);
        lemma_inside(src, list, s, i + 1, e, open);
    }
}

/// Each of these texts is a rule of its own: the one of the same number.
pub open spec fn are_texts_of(cuts: Seq<parser::Cut>, rules: Seq<rule::RuleModel>) -> bool {
    &&& cuts.len() == rules.len()
    &&& forall|n: int|
        0 <= n < rules.len() ==> (#[trigger] cuts[n]).id == rules[n].id && parser::parsed(
            cuts[n].text,
        ) == Ok::<_, parser::ParseErrorModel>(seq![rules[n]])
}

/// One rule gives one text, which alone parses to it.
proof fn lemma_one_cut(src: Seq<char>, list: Seq<lex::Spanned>, i: int, e: int)
    requires
        0 <= i < list.len(),
        lex::tokens(src) == Ok::<_, lex::LexErrorModel>(list),
        parser::rule_at(parser::input_of(src, list), i) matches Ok((_, end)) && end == e,
    ensures
        i < e <= list.len(),
        parser::cuts_from(src, list, i, 0, None) == seq![
            parser::Cut {
                id: parser::rule_at(parser::input_of(src, list), i)->Ok_0.0.id,
                text: src.subrange(list[i].start, list[e - 1].end),
            },
        ] + parser::cuts_from(src, list, e, 0, None),
        parser::parsed(src.subrange(list[i].start, list[e - 1].end)) == Ok::<
            _,
            parser::ParseErrorModel,
        >(seq![parser::rule_at(parser::input_of(src, list), i)->Ok_0.0]),
{
    let s = parser::input_of(src, list);
    let rule = parser::rule_at(s, i)->Ok_0.0;
    let start = list[i].start;
    let whole = parser::Input { tokens: s.tokens.subrange(i, e), lines: Seq::empty() };
    lemma_rule(s, whole, i, e);
    assert(list[i].token == s.tokens[i]);
    assert(list[i + 1].token == s.tokens[i + 1]);
    assert(list[i + 2].token == s.tokens[i + 2]);
    assert(list[e - 1].token == s.tokens[e - 1]);
    let text = src.subrange(start, list[e - 1].end);
    assert(parser::parsed(text) == Ok::<_, parser::ParseErrorModel>(seq![rule])) by {
        lemma_stretch(src, i, e - 1);
        let cut = lex::tokens(text)->Ok_0;
        lemma_rule(s, parser::input_of(text, cut), i, e);
    }
    let open = Some((rule.id, start));
    lemma_inside(src, list, s, i + 3, e - 1, open);
    let rest = parser::cuts_from(src, list, e, 0, None);
    let one = parser::Cut { id: rule.id, text };
    assert(parser::cuts_from(src, list, e - 1, 1, open) == seq![one] + rest);
    assert(parser::cuts_from(src, list, i + 2, 0, open) == seq![one] + rest);
    assert(parser::cuts_from(src, list, i + 1, 0, open) == seq![one] + rest);
}

proof fn lemma_cut_rules(
    src: Seq<char>,
    list: Seq<lex::Spanned>,
    i: int,
    done: Seq<rule::RuleModel>,
)
    requires
        0 <= i <= list.len(),
        lex::tokens(src) == Ok::<_, lex::LexErrorModel>(list),
        parser::rules_from(parser::input_of(src, list), i, done) is Ok,
    ensures
        parser::rules_from(parser::input_of(src, list), i, done) matches Ok(rules) && done.len()
            <= rules.len() && rules.take(done.len() as int) == done && are_texts_of(
            parser::cuts_from(src, list, i, 0, None),
            rules.skip(done.len() as int),
        ),
    decreases list.len() - i,
{
    let s = parser::input_of(src, list);
    let rules = parser::rules_from(s, i, done)->Ok_0;
    let n = done.len() as int;
    if i == list.len() {
        assert(rules.take(n) =~= done);
    } else {
        let (rule, e) = parser::rule_at(s, i)->Ok_0;
        lemma_one_cut(src, list, i, e);
        lemma_cut_rules(src, list, e, done.push(rule));
        let rest = parser::cuts_from(src, list, e, 0, None);
        let cuts = parser::cuts_from(src, list, i, 0, None);
        assert(rules.take(n) =~= done) by {
            assert(rules.take(n + 1).drop_last() =~= rules.take(n));
            assert(done.push(rule).drop_last() =~= done);
        }
        assert(rules[n] == rule) by {
            assert(rules.take(n + 1)[n] == done.push(rule)[n]);
        }
        let own = rules.skip(n);
        assert(own.len() == cuts.len());
        assert forall|k: int| 0 <= k < own.len() implies (#[trigger] cuts[k]).id == own[k].id
            && parser::parsed(cuts[k].text) == Ok::<_, parser::ParseErrorModel>(
            seq![own[k]],
        ) by {
            if k > 0 {
                assert(cuts[k] == rest[k - 1]);
                assert(own[k] == rules.skip(n + 1)[k - 1]);
            }
        }
    }
}

/// Cutting the rules out of a file loses none and mixes none up: there is one
/// text per rule, under its id and in order, and each text alone parses to
/// exactly that rule.
pub proof fn every_cut_is_its_rule(src: Seq<char>)
    ensures
        parser::parsed(src) matches Ok(rules) ==> lex::tokens(src) matches Ok(list)
            && are_texts_of(parser::cuts_from(src, list, 0, 0, None), rules),
{
    if parser::parsed(src) is Ok {
        let list = lex::tokens(src)->Ok_0;
        lemma_cut_rules(src, list, 0, Seq::empty());
        let rules = parser::parsed(src)->Ok_0;
        assert(rules.skip(0) =~= rules);
    }
}

} // verus!
