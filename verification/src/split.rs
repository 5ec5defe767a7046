//! Searching, cutting and trimming text.

use vstd::prelude::*;

use crate::text;
use crate::text::{chars_of, lowered, space, string_of};

verus! {

// ------------------------------------------------------------ searching

/// Position of the first `c` at or after `i`.
pub open spec fn find_from(s: Seq<char>, c: char, i: int) -> Option<int>
    decreases s.len() - i,
{
    if i < 0 || i >= s.len() {
        None
    } else if s[i] == c {
        Some(i)
    } else {
        find_from(s, c, i + 1)
    }
}

/// Position of the last `c` before `n`.
pub open spec fn rfind_before(s: Seq<char>, c: char, n: int) -> Option<int>
    decreases n,
{
    if n <= 0 || n > s.len() {
        None
    } else if s[n - 1] == c {
        Some(n - 1)
    } else {
        rfind_before(s, c, n - 1)
    }
}

/// `part` stands in `s` at position `i`.
pub open spec fn is_at(s: Seq<char>, part: Seq<char>, i: int) -> bool {
    0 <= i && i + part.len() <= s.len() && s.subrange(i, i + part.len()) == part
}

pub open spec fn contains(s: Seq<char>, part: Seq<char>) -> bool {
    exists|i: int| is_at(s, part, i)
}

pub open spec fn starts_with(s: Seq<char>, part: Seq<char>) -> bool {
    is_at(s, part, 0)
}

pub open spec fn ends_with(s: Seq<char>, part: Seq<char>) -> bool {
    is_at(s, part, s.len() - part.len())
}

/// Position of the first occurrence of `part` at or after `i`.
pub open spec fn find_text_from(s: Seq<char>, part: Seq<char>, i: int) -> Option<int>
    decreases s.len() + 1 - i,
{
    if i < 0 || i > s.len() {
        None
    } else if is_at(s, part, i) {
        Some(i)
    } else {
        find_text_from(s, part, i + 1)
    }
}

/// Occurrences of `part` from `i` on, none overlapping another.
pub open spec fn count_text_from(s: Seq<char>, part: Seq<char>, i: int) -> nat
    decreases s.len() - i,
{
    match find_text_from(s, part, i) {
        Some(k) if part.len() > 0 && 0 <= i <= k && k + part.len() <= s.len() => 1 + count_text_from(s, part, k + part.len()),
        _ => 0,
    }
}

/// What a found position means.
pub proof fn lemma_find_from(s: Seq<char>, c: char, i: int)
    requires
        0 <= i,
    ensures
        match find_from(s, c, i) {
            Some(k) => i <= k < s.len() && s[k] == c && forall|j: int| i <= j < k ==> s[j] != c,
            None => forall|j: int| i <= j < s.len() ==> s[j] != c,
        },
    decreases s.len() - i,
{
    if i < s.len() && s[i] != c {
        lemma_find_from(s, c, i + 1);
    }
}

/// What a found position from the end means.
pub proof fn lemma_rfind_before(s: Seq<char>, c: char, n: int)
    requires
        n <= s.len(),
    ensures
        match rfind_before(s, c, n) {
            Some(k) => 0 <= k < n && s[k] == c && forall|j: int| k < j < n ==> s[j] != c,
            None => forall|j: int| 0 <= j < n ==> s[j] != c,
        },
    decreases n,
{
    if 0 < n && s[n - 1] != c {
        lemma_rfind_before(s, c, n - 1);
    }
}

/// What a found occurrence means.
pub proof fn lemma_find_text_from(s: Seq<char>, part: Seq<char>, i: int)
    requires
        0 <= i,
    ensures
        match find_text_from(s, part, i) {
            Some(k) => i <= k && is_at(s, part, k) && forall|j: int|
                i <= j < k ==> !is_at(s, part, j),
            None => forall|j: int| i <= j ==> !is_at(s, part, j),
        },
    decreases s.len() + 1 - i,
{
    if i <= s.len() && !is_at(s, part, i) {
        lemma_find_text_from(s, part, i + 1);
    }
}

pub fn find_char(s: &Vec<char>, c: char, from: usize) -> (r: Option<usize>)
    ensures
        match r {
            Some(k) => find_from(s@, c, from as int) == Some(k as int) && from <= k < s@.len(),
            None => find_from(s@, c, from as int) is None,
        },
{
    let mut i: usize = from;
    while i < s.len()
        invariant
            from <= i,
            i <= s@.len() || i == from,
            find_from(s@, c, from as int) == find_from(s@, c, i as int),
        decreases s@.len() - i,
    {
        if s[i] == c {
            return Some(i);
        }
        i += 1;
    }
    None
}

pub fn rfind_char(s: &Vec<char>, c: char) -> (r: Option<usize>)
    ensures
        match r {
            Some(k) => rfind_before(s@, c, s@.len() as int) == Some(k as int) && k < s@.len(),
            None => rfind_before(s@, c, s@.len() as int) is None,
        },
{
    let mut n: usize = s.len();
    while n > 0
        invariant
            n <= s@.len(),
            rfind_before(s@, c, s@.len() as int) == rfind_before(s@, c, n as int),
        decreases n,
    {
        if s[n - 1] == c {
            return Some(n - 1);
        }
        n -= 1;
    }
    None
}

/// `part` stands in `s` at position `i`.
pub fn at(s: &Vec<char>, part: &Vec<char>, i: usize) -> (r: bool)
    ensures
        r == is_at(s@, part@, i as int),
{
    if i > s.len() || part.len() > s.len() - i {
        return false;
    }
    let end: usize = s.len();
    let mut j: usize = 0;
    while j < part.len()
        invariant
            end == s@.len(),
            i + part@.len() <= s@.len(),
            j <= part@.len(),
            forall|k: int| 0 <= k < j ==> s@[i + k] == part@[k],
        decreases part@.len() - j,
    {
        if s[i + j] != part[j] {
            assert(s@.subrange(i as int, i + part@.len())[j as int] != part@[j as int]);
            return false;
        }
        j += 1;
    }
    assert(s@.subrange(i as int, i + part@.len()) =~= part@);
    true
}

pub fn find_text(s: &Vec<char>, part: &Vec<char>, from: usize) -> (r: Option<usize>)
    ensures
        match r {
            Some(k) => find_text_from(s@, part@, from as int) == Some(k as int) && from <= k
                && k + part@.len() <= s@.len(),
            None => find_text_from(s@, part@, from as int) is None,
        },
{
    let mut i: usize = from;
    while i <= s.len()
        invariant
            from <= i,
            find_text_from(s@, part@, from as int) == find_text_from(s@, part@, i as int),
        decreases s@.len() + 1 - i,
    {
        if at(s, part, i) {
            return Some(i);
        }
        if i == s.len() {
            assert(find_text_from(s@, part@, i + 1) is None);
            return None;
        }
        i += 1;
    }
    None
}

/// Occurrences of `part` in `s`, none overlapping another.
pub fn count_text(s: &Vec<char>, part: &Vec<char>) -> (n: usize)
    requires
        part@.len() > 0,
    ensures
        n == count_text_from(s@, part@, 0),
        n <= s@.len(),
{
    let end: usize = s.len();
    let mut n: usize = 0;
    let mut i: usize = 0;
    loop
        invariant
            end == s@.len(),
            part@.len() > 0,
            n <= i <= s@.len(),
            count_text_from(s@, part@, 0) == n + count_text_from(s@, part@, i as int),
        decreases s@.len() - i,
    {
        match find_text(s, part, i) {
            Some(k) => {
                n += 1;
                i = k + part.len();
            },
            None => {
                return n;
            },
        }
    }
}

pub fn has_prefix(s: &str, part: &str) -> (r: bool)
    ensures
        r == starts_with(s@, part@),
{
    let s = chars_of(s);
    let part = chars_of(part);
    at(&s, &part, 0)
}

pub fn has_suffix(s: &str, part: &str) -> (r: bool)
    ensures
        r == ends_with(s@, part@),
{
    let s = chars_of(s);
    let part = chars_of(part);
    s.len() >= part.len() && at(&s, &part, s.len() - part.len())
}

pub fn has_text(s: &str, part: &str) -> (r: bool)
    ensures
        r == contains(s@, part@),
{
    let s = chars_of(s);
    let part = chars_of(part);
    proof {
        lemma_find_text_from(s@, part@, 0);
    }
    find_text(&s, &part, 0).is_some()
}

// ------------------------------------------------------------- splitting

/// The pieces of `s` between the separators `c`, from position `start` on.
pub open spec fn split_from(s: Seq<char>, c: char, start: int) -> Seq<Seq<char>>
    decreases s.len() - start,
{
    match find_from(s, c, start) {
        Some(k) if 0 <= start <= k < s.len() => seq![s.subrange(start, k)] + split_from(
            s,
            c,
            k + 1,
        ),
        _ => seq![s.subrange(start, s.len() as int)],
    }
}

/// `s.split(c)`: there is always at least one piece.
pub open spec fn split(s: Seq<char>, c: char) -> Seq<Seq<char>> {
    split_from(s, c, 0)
}

/// `a` before and `b` after the first `c`.
pub open spec fn split_once(s: Seq<char>, c: char) -> Option<(Seq<char>, Seq<char>)> {
    match find_from(s, c, 0) {
        Some(k) => Some((s.take(k), s.skip(k + 1))),
        None => None,
    }
}

pub fn split_char(s: &str, c: char) -> (out: Vec<String>)
    ensures
        text::texts(out@) == split(s@, c),
{
    let chars = chars_of(s);
    let end: usize = chars.len();
    let mut out: Vec<String> = Vec::new();
    let mut start: usize = 0;
    loop
        invariant
            chars@ == s@,
            end == s@.len(),
            start <= s@.len(),
            text::texts(out@) + split_from(s@, c, start as int) == split(s@, c),
        decreases s@.len() - start,
    {
        let ghost before = text::texts(out@);
        match find_char(&chars, c, start) {
            Some(k) => {
                out.push(string_of(&chars, start, k));
                assert(text::texts(out@) =~= before.push(s@.subrange(start as int, k as int)));
                assert(before + (seq![s@.subrange(start as int, k as int)] + split_from(
                    s@,
                    c,
                    k + 1,
                )) =~= text::texts(out@) + split_from(s@, c, k + 1));
                start = k + 1;
            },
            None => {
                out.push(string_of(&chars, start, chars.len()));
                assert(text::texts(out@) =~= before.push(s@.subrange(start as int, s@.len() as int)));
                assert(before + seq![s@.subrange(start as int, s@.len() as int)] =~= text::texts(out@));
                return out;
            },
        }
    }
}

/// One trailing carriage return dropped.
pub open spec fn strip_cr(s: Seq<char>) -> Seq<char> {
    if s.len() > 0 && s.last() == '\r' {
        s.drop_last()
    } else {
        s
    }
}

/// The lines of `s` from position `start` on: each ends at a line feed, with
/// or without a carriage return before it, and the last one may lack its end.
pub open spec fn lines_from(s: Seq<char>, start: int) -> Seq<Seq<char>>
    decreases s.len() - start,
{
    if start < 0 || start >= s.len() {
        Seq::empty()
    } else {
        match find_from(s, '\n', start) {
            Some(k) if start <= k < s.len() => seq![strip_cr(s.subrange(start, k))] + lines_from(
                s,
                k + 1,
            ),
            _ => seq![s.subrange(start, s.len() as int)],
        }
    }
}

/// `s.lines()`.
pub open spec fn lines(s: Seq<char>) -> Seq<Seq<char>> {
    lines_from(s, 0)
}

pub fn split_lines(s: &str) -> (out: Vec<String>)
    ensures
        text::texts(out@) == lines(s@),
{
    let chars = chars_of(s);
    let mut out: Vec<String> = Vec::new();
    let mut start: usize = 0;
    while start < chars.len()
        invariant
            chars@ == s@,
            start <= s@.len(),
            text::texts(out@) + lines_from(s@, start as int) == lines(s@),
        decreases s@.len() - start,
    {
        let ghost before = text::texts(out@);
        match find_char(&chars, '\n', start) {
            Some(k) => {
                let end: usize = if k > start && chars[k - 1] == '\r' {
                    k - 1
                } else {
                    k
                };
                out.push(string_of(&chars, start, end));
                proof {
                    let line = strip_cr(s@.subrange(start as int, k as int));
                    assert(s@.subrange(start as int, end as int) =~= line);
                    assert(text::texts(out@) =~= before.push(line));
                    assert(before + (seq![line] + lines_from(s@, k + 1)) =~= text::texts(out@)
                        + lines_from(s@, k + 1));
                }
                start = k + 1;
            },
            None => {
                out.push(string_of(&chars, start, chars.len()));
                assert(text::texts(out@) =~= before.push(s@.subrange(start as int, s@.len() as int)));
                assert(before + seq![s@.subrange(start as int, s@.len() as int)] =~= text::texts(out@));
                return out;
            },
        }
    }
    assert(text::texts(out@) + lines_from(s@, start as int) =~= text::texts(out@));
    out
}

/// First position from `i` on that holds no white space.
pub open spec fn skip_space(s: Seq<char>, i: int) -> int
    decreases s.len() - i,
{
    if 0 <= i < s.len() && text::is_space(s[i]) {
        skip_space(s, i + 1)
    } else {
        i
    }
}

/// First position from `i` on that holds white space, or the end.
pub open spec fn word_end(s: Seq<char>, i: int) -> int
    decreases s.len() - i,
{
    if 0 <= i < s.len() && !text::is_space(s[i]) {
        word_end(s, i + 1)
    } else {
        i
    }
}

pub proof fn lemma_word_bounds(s: Seq<char>, i: int)
    requires
        0 <= i <= s.len(),
    ensures
        i <= skip_space(s, i) <= s.len(),
        i <= word_end(s, i) <= s.len(),
        skip_space(s, i) < s.len() ==> !text::is_space(s[skip_space(s, i)]),
    decreases s.len() - i,
{
    if i < s.len() {
        lemma_word_bounds(s, i + 1);
    }
}

/// The words of `s` from position `i` on.
pub open spec fn words_from(s: Seq<char>, i: int) -> Seq<Seq<char>>
    decreases s.len() - i,
    when 0 <= i <= s.len()
    via words_from_decreases
{
    let a = skip_space(s, i);
    if a >= s.len() {
        Seq::empty()
    } else {
        let b = word_end(s, a);
        seq![s.subrange(a, b)] + words_from(s, b)
    }
}

#[via_fn]
proof fn words_from_decreases(s: Seq<char>, i: int) {
    lemma_word_bounds(s, i);
    let a = skip_space(s, i);
    if a < s.len() {
        lemma_word_bounds(s, a);
        lemma_word_bounds(s, a + 1);
    }
}

/// `s.split_whitespace()`.
pub open spec fn words(s: Seq<char>) -> Seq<Seq<char>> {
    words_from(s, 0)
}

pub fn split_words(s: &str) -> (out: Vec<String>)
    ensures
        text::texts(out@) == words(s@),
{
    let chars = chars_of(s);
    let mut out: Vec<String> = Vec::new();
    let mut i: usize = 0;
    loop
        invariant
            chars@ == s@,
            i <= s@.len(),
            text::texts(out@) + words_from(s@, i as int) == words(s@),
        decreases s@.len() - i,
    {
        let ghost before = text::texts(out@);
        let ghost from = i as int;
        proof {
            lemma_word_bounds(s@, from);
        }
        while i < chars.len() && space(chars[i])
            invariant
                chars@ == s@,
                from <= i <= s@.len(),
                skip_space(s@, from) == skip_space(s@, i as int),
            decreases s@.len() - i,
        {
            i += 1;
        }
        if i == chars.len() {
            assert(before + words_from(s@, from) =~= before);
            return out;
        }
        let a: usize = i;
        while i < chars.len() && !space(chars[i])
            invariant
                chars@ == s@,
                a <= i <= s@.len(),
                i == a ==> a < s@.len() && !text::is_space(s@[a as int]),
                word_end(s@, a as int) == word_end(s@, i as int),
            decreases s@.len() - i,
        {
            i += 1;
        }
        out.push(string_of(&chars, a, i));
        proof {
            let word = s@.subrange(a as int, i as int);
            assert(text::texts(out@) =~= before.push(word));
            assert(before + (seq![word] + words_from(s@, i as int)) =~= text::texts(out@) + words_from(
                s@,
                i as int,
            ));
        }
    }
}

// -------------------------------------------------------------- trimming

/// Length of the first `n` characters without trailing white space.
pub open spec fn trimmed_len(s: Seq<char>, n: int) -> int
    decreases n,
{
    if 0 < n <= s.len() && text::is_space(s[n - 1]) {
        trimmed_len(s, n - 1)
    } else {
        n
    }
}

/// `s.trim_end()`.
pub open spec fn trim_end(s: Seq<char>) -> Seq<char> {
    s.take(trimmed_len(s, s.len() as int))
}

/// `s.trim()`.
pub open spec fn trim(s: Seq<char>) -> Seq<char> {
    trim_end(s.skip(skip_space(s, 0)))
}

pub proof fn lemma_trimmed_len(s: Seq<char>, n: int)
    requires
        0 <= n <= s.len(),
    ensures
        0 <= trimmed_len(s, n) <= n,
        trimmed_len(s, n) > 0 ==> !text::is_space(s[trimmed_len(s, n) - 1]),
        forall|j: int| trimmed_len(s, n) <= j < n ==> text::is_space(#[trigger] s[j]),
    decreases n,
{
    if 0 < n && text::is_space(s[n - 1]) {
        lemma_trimmed_len(s, n - 1);
    }
}

/// Length of `s` without its trailing white space.
pub fn end_of_text(s: &Vec<char>) -> (n: usize)
    ensures
        n == trimmed_len(s@, s@.len() as int),
        n <= s@.len(),
{
    let mut n: usize = s.len();
    while n > 0 && space(s[n - 1])
        invariant
            n <= s@.len(),
            trimmed_len(s@, s@.len() as int) == trimmed_len(s@, n as int),
        decreases n,
    {
        n -= 1;
    }
    n
}

pub fn trimmed(s: &str) -> (out: String)
    ensures
        out@ == trim(s@),
{
    let chars = chars_of(s);
    let mut a: usize = 0;
    while a < chars.len() && space(chars[a])
        invariant
            a <= chars@.len(),
            skip_space(chars@, 0) == skip_space(chars@, a as int),
        decreases chars@.len() - a,
    {
        a += 1;
    }
    let ghost rest = chars@.skip(a as int);
    let mut b: usize = chars.len();
    while b > a && space(chars[b - 1])
        invariant
            a <= b <= chars@.len(),
            rest == chars@.skip(a as int),
            trimmed_len(rest, rest.len() as int) == trimmed_len(rest, b - a),
        decreases b,
    {
        b -= 1;
    }
    assert(rest.take(b - a) =~= chars@.subrange(a as int, b as int));
    string_of(&chars, a, b)
}

// ------------------------------------------------------- case and joining

pub fn folded(s: &str) -> (out: String)
    ensures
        out@ == text::fold(s@),
{
    let chars = chars_of(s);
    let mut out = String::new();
    let mut i: usize = 0;
    while i < chars.len()
        invariant
            chars@ == s@,
            i <= chars@.len(),
            out@ == text::fold(s@).take(i as int),
        decreases chars@.len() - i,
    {
        out.push(lowered(chars[i]));
        i += 1;
        assert(text::fold(s@).take(i as int) =~= text::fold(s@).take(i - 1).push(text::lower(s@[i - 1])));
    }
    assert(text::fold(s@).take(i as int) =~= text::fold(s@));
    out
}

/// The items with `sep` between them.
pub open spec fn join(items: Seq<Seq<char>>, sep: Seq<char>) -> Seq<char>
    decreases items.len(),
{
    if items.len() == 0 {
        Seq::empty()
    } else if items.len() == 1 {
        items[0]
    } else {
        join(items.drop_last(), sep) + sep + items.last()
    }
}

pub fn joined(items: &Vec<String>, sep: &str) -> (out: String)
    ensures
        out@ == join(text::texts(items@), sep@),
{
    let mut out = String::new();
    let mut i: usize = 0;
    while i < items.len()
        invariant
            i <= items@.len(),
            out@ == join(text::texts(items@).take(i as int), sep@),
        decreases items@.len() - i,
    {
        if i > 0 {
            out.push_str(sep);
        }
        out.push_str(items[i].as_str());
        i += 1;
        proof {
            let all = text::texts(items@).take(i as int);
            assert(all.drop_last() =~= text::texts(items@).take(i - 1));
            assert(all.last() == items@[i - 1]@);
            if i == 1 {
                assert(Seq::<char>::empty() + items@[0]@ =~= items@[0]@);
            }
        }
    }
    assert(text::texts(items@).take(i as int) =~= text::texts(items@));
    out
}

/// `a` followed by `b`.
pub fn concat(a: &str, b: &str) -> (out: String)
    ensures
        out@ == a@ + b@,
{
    let mut out = a.to_owned();
    out.push_str(b);
    out
}

} // verus!
