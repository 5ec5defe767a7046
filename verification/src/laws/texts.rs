//! Texts: what cutting and joining them gives.

use vstd::prelude::*;

use crate::split;

verus! {

/// The pieces one after the other, with `c` between two of them.
pub open spec fn joined(pieces: Seq<Seq<char>>, c: char) -> Seq<char>
    decreases pieces.len(),
{
    if pieces.len() == 0 {
        Seq::empty()
    } else if pieces.len() == 1 {
        pieces[0]
    } else {
        pieces[0] + seq![c] + joined(pieces.drop_first(), c)
    }
}

pub proof fn lemma_find_shift(head: Seq<char>, s: Seq<char>, c: char, i: int)
    requires
        0 <= i,
    ensures
        split::find_from(head + s, c, head.len() + i) == match split::find_from(s, c, i) {
            Some(k) => Some(head.len() + k),
            None => None,
        },
    decreases s.len() - i,
{
    if i < s.len() {
        assert((head + s)[head.len() + i] == s[i]);
        if s[i] != c {
            lemma_find_shift(head, s, c, i + 1);
        }
    }
}

proof fn lemma_split_shift(head: Seq<char>, s: Seq<char>, c: char, i: int)
    requires
        0 <= i <= s.len(),
    ensures
        split::split_from(head + s, c, head.len() + i) == split::split_from(s, c, i),
    decreases s.len() - i,
{
    lemma_find_shift(head, s, c, i);
    split::lemma_find_from(s, c, i);
    match split::find_from(s, c, i) {
        Some(k) => {
            lemma_split_shift(head, s, c, k + 1);
            assert((head + s).subrange(head.len() + i, head.len() + k) =~= s.subrange(i, k));
        },
        None => {
            assert((head + s).subrange(head.len() + i, (head + s).len() as int) =~= s.subrange(
                i,
                s.len() as int,
            ));
        },
    }
}

/// Splitting gives back the pieces that were joined, none of which holds the
/// separator.
pub proof fn splitting_undoes_joining(pieces: Seq<Seq<char>>, c: char)
    requires
        pieces.len() > 0,
        forall|i: int| 0 <= i < pieces.len() ==> !(#[trigger] pieces[i]).contains(c),
    ensures
        split::split(joined(pieces, c), c) == pieces,
    decreases pieces.len(),
{
    let s = joined(pieces, c);
    let first = pieces[0];
    if pieces.len() == 1 {
        split::lemma_find_from(s, c, 0);
        match split::find_from(s, c, 0) {
            Some(k) => {
                assert(first.contains(first[k]));
            },
            None => {},
        }
        assert(s.subrange(0, s.len() as int) =~= first);
        assert(split::split(s, c) =~= pieces);
    } else {
        splitting_undoes_joining(pieces.drop_first(), c);
        lemma_split_head(first, joined(pieces.drop_first(), c), c);
        assert(pieces =~= seq![first] + pieces.drop_first());
    }
}

/// The first piece, and the pieces of what follows.
pub proof fn lemma_split_head(first: Seq<char>, rest: Seq<char>, c: char)
    requires
        !first.contains(c),
    ensures
        split::split(first + seq![c] + rest, c) == seq![first] + split::split(rest, c),
{
    let head = first + seq![c];
    let s = head + rest;
    assert(first + seq![c] + rest =~= s);
    split::lemma_find_from(s, c, 0);
    assert(s[first.len() as int] == c);
    match split::find_from(s, c, 0) {
        Some(k) => {
            if k < first.len() {
                assert(s[k] == first[k]);
                assert(first.contains(first[k]));
            }
        },
        None => {},
    }
    lemma_split_shift(head, rest, c, 0);
    assert(s.subrange(0, first.len() as int) =~= first);
}

/// The first separator parts a text; a text without one is not parted.
pub proof fn the_first_separator_parts(a: Seq<char>, b: Seq<char>, c: char)
    requires
        !a.contains(c),
    ensures
        split::split_once(a + seq![c] + b, c) == Some((a, b)),
        split::split_once(a, c) is None,
{
    let s = a + seq![c] + b;
    split::lemma_find_from(s, c, 0);
    split::lemma_find_from(a, c, 0);
    assert(s[a.len() as int] == c);
    match split::find_from(s, c, 0) {
        Some(k) => {
            if k < a.len() {
                assert(s[k] == a[k]);
                assert(a.contains(a[k]));
            }
        },
        None => {},
    }
    match split::find_from(a, c, 0) {
        Some(k) => {
            assert(a.contains(a[k]));
        },
        None => {},
    }
    assert(s.take(a.len() as int) =~= a);
    assert(s.skip(a.len() as int + 1) =~= b);
}

} // verus!
