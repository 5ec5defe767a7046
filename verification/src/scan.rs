//! Which files of a directory are log candidates. Content is not read here:
//! what a candidate holds is decided by detection, never by its name.

use vstd::prelude::*;

use crate::split;
use crate::split::{folded, has_prefix, has_suffix};
use crate::text;
use crate::text::same;
use crate::textmap;
use crate::textmap::{place, Place};

verus! {

#[derive(Debug)]
pub enum ScanError {
    Unreadable { path: String, reason: String },
}

impl ScanError {
    pub open spec fn text(self) -> Seq<char> {
        match self {
            ScanError::Unreadable { path, reason } => "cannot read input directory: "@ + path@
                + " ("@ + reason@ + ")"@,
        }
    }

    pub fn message(&self) -> (out: String)
        ensures
            out@ == self.text(),
    {
        match self {
            ScanError::Unreadable { path, reason } => {
                let mut out = "cannot read input directory: ".to_owned();
                out.push_str(path.as_str());
                out.push_str(" (");
                out.push_str(reason.as_str());
                out.push_str(")");
                out
            },
        }
    }
}

#[derive(Debug, Clone, Copy, PartialEq, Eq, Structural)]
pub enum SkipReason {
    /// Not a supported gzip log filename.
    Extension,
    /// Zero bytes; nothing to decode.
    Empty,
    /// Metadata could not be read.
    Unreadable,
}

/// A path as its components.
#[derive(Debug, Clone)]
pub struct FilePath {
    pub parts: Vec<String>,
}

impl View for FilePath {
    type V = Seq<Seq<char>>;

    open spec fn view(&self) -> Seq<Seq<char>> {
        text::texts(self.parts@)
    }
}

#[derive(Debug, Clone)]
pub struct Candidate {
    pub path: FilePath,
    pub size_bytes: u64,
}

#[derive(Debug, Clone)]
pub struct Skipped {
    pub path: FilePath,
    pub reason: SkipReason,
}

#[derive(Debug, Clone)]
pub struct ScanReport {
    /// Directory the user chose; display paths are relative to it.
    pub root: FilePath,
    pub candidates: Vec<Candidate>,
    pub skipped: Vec<Skipped>,
}

// -------------------------------------------------------------------- names

/// Files created by the OS or file manager, never by the log export.
pub open spec fn is_metadata(name: Seq<char>) -> bool {
    let lower = text::fold(name);
    lower == ".ds_store"@ || lower == "thumbs.db"@ || lower == "desktop.ini"@ || lower
        == ".localized"@ || split::starts_with(lower, "._"@)
}

/// Files created by the OS or file manager, never by the log export. A name
/// that is no text is none of them.
pub fn is_os_metadata(name: Option<&str>) -> (b: bool)
    ensures
        b == (name matches Some(n) && is_metadata(n@)),
{
    match name {
        Some(n) => {
            let lower = folded(n);
            let t: &str = lower.as_str();
            same(t, ".ds_store") || same(t, "thumbs.db") || same(t, "desktop.ini") || same(
                t,
                ".localized",
            ) || has_prefix(t, "._")
        },
        None => false,
    }
}

/// Any gzip file is a candidate.
pub open spec fn is_gzip_name(name: Seq<char>) -> bool {
    split::ends_with(text::fold(name), ".gz"@)
}

/// Any gzip file is a candidate, whatever the case of its suffix.
pub fn is_candidate_name(name: Option<&str>) -> (b: bool)
    ensures
        b == (name matches Some(n) && is_gzip_name(n@)),
{
    match name {
        Some(n) => has_suffix(folded(n).as_str(), ".gz"),
        None => false,
    }
}

/// What becomes of a file that was found.
#[derive(Debug, Clone, Copy, PartialEq, Eq, Structural)]
pub enum Found {
    /// Not a candidate, and not worth reporting either.
    Ignored,
    Skipped(SkipReason),
    /// A candidate of this size.
    Taken(u64),
}

/// What becomes of a file with this name and size; a size that could not be
/// read is `None`.
pub open spec fn fate(name: Option<Seq<char>>, size: Option<u64>) -> Found {
    if name matches Some(n) && is_metadata(n) {
        Found::Ignored
    } else if !(name matches Some(n) && is_gzip_name(n)) {
        Found::Skipped(SkipReason::Extension)
    } else {
        match size {
            Some(bytes) => if bytes == 0 {
                Found::Skipped(SkipReason::Empty)
            } else {
                Found::Taken(bytes)
            },
            None => Found::Skipped(SkipReason::Unreadable),
        }
    }
}

/// What becomes of a file with this name and size. Desktop metadata is tested
/// first: a sidecar such as `._log.json.gz` would pass for a log.
pub fn examine(name: Option<&str>, size: Option<u64>) -> (r: Found)
    ensures
        r == fate(text::opt_str(name), size),
{
    if is_os_metadata(name) {
        return Found::Ignored;
    }
    if !is_candidate_name(name) {
        return Found::Skipped(SkipReason::Extension);
    }
    match size {
        Some(bytes) => {
            if bytes == 0 {
                Found::Skipped(SkipReason::Empty)
            } else {
                Found::Taken(bytes)
            }
        },
        None => Found::Skipped(SkipReason::Unreadable),
    }
}

/// Nothing is lost without a word: a file that is neither offered nor
/// reported is desktop metadata.
pub proof fn only_metadata_is_passed_over(name: Option<Seq<char>>, size: Option<u64>)
    ensures
        fate(name, size) is Ignored <==> (name matches Some(n) && is_metadata(n)),
        fate(name, size) matches Found::Taken(bytes) ==> bytes > 0 && (name matches Some(n)
            && is_gzip_name(n)),
{
}

// -------------------------------------------------------------------- order

/// Paths compare component by component.
pub open spec fn path_lt(a: Seq<Seq<char>>, b: Seq<Seq<char>>, i: int) -> bool
    decreases b.len() - i,
{
    if i < 0 || i >= b.len() {
        false
    } else if i >= a.len() {
        true
    } else if a[i] == b[i] {
        path_lt(a, b, i + 1)
    } else {
        textmap::text_lt(a[i], b[i])
    }
}

proof fn lemma_path_lt_transitive(a: Seq<Seq<char>>, b: Seq<Seq<char>>, c: Seq<Seq<char>>, i: int)
    requires
        0 <= i,
        path_lt(a, b, i),
        path_lt(b, c, i),
    ensures
        path_lt(a, c, i),
    decreases c.len() - i,
{
    if i < a.len() && i < b.len() && i < c.len() {
        if a[i] == b[i] && b[i] == c[i] {
            lemma_path_lt_transitive(a, b, c, i + 1);
        } else if a[i] != b[i] && b[i] != c[i] {
            textmap::lemma_text_lt_transitive(a[i], b[i], c[i]);
            if a[i] == c[i] {
                textmap::lemma_text_lt_irreflexive(a[i]);
            }
        }
    }
}

proof fn lemma_path_lt_asymmetric(a: Seq<Seq<char>>, b: Seq<Seq<char>>, i: int)
    requires
        0 <= i,
    ensures
        !(path_lt(a, b, i) && path_lt(b, a, i)),
    decreases b.len() - i,
{
    if i < a.len() && i < b.len() {
        if a[i] == b[i] {
            lemma_path_lt_asymmetric(a, b, i + 1);
        } else if path_lt(a, b, i) && path_lt(b, a, i) {
            textmap::lemma_text_lt_transitive(a[i], b[i], a[i]);
            textmap::lemma_text_lt_irreflexive(a[i]);
        }
    }
}

/// `a` may stand before `b` in a list.
pub open spec fn path_le(a: Seq<Seq<char>>, b: Seq<Seq<char>>) -> bool {
    !path_lt(b, a, 0)
}

fn before(a: &FilePath, b: &FilePath) -> (r: bool)
    ensures
        r == path_lt(a@, b@, 0),
{
    let n: usize = a.parts.len();
    let m: usize = b.parts.len();
    let mut i: usize = 0;
    while i < n && i < m
        invariant
            i <= n,
            i <= m,
            n == a.parts@.len(),
            m == b.parts@.len(),
            path_lt(a@, b@, 0) == path_lt(a@, b@, i as int),
        decreases n - i,
    {
        let x: &str = a.parts[i].as_str();
        let y: &str = b.parts[i].as_str();
        assert(a@[i as int] == x@ && b@[i as int] == y@);
        match place(x, y) {
            Place::Same => {},
            Place::Before => {
                proof {
                    textmap::lemma_text_lt_irreflexive(x@);
                }
                return true;
            },
            Place::After => {
                proof {
                    if textmap::text_lt(x@, y@) {
                        textmap::lemma_text_lt_transitive(x@, y@, x@);
                    }
                    textmap::lemma_text_lt_irreflexive(x@);
                }
                return false;
            },
        }
        i = i + 1;
    }
    n < m
}

/// Sorted by path, so the list and any later run are reproducible.
pub open spec fn by_path(paths: Seq<Seq<Seq<char>>>) -> bool {
    forall|i: int, j: int|
        0 <= i < j < paths.len() ==> path_le(#[trigger] paths[i], #[trigger] paths[j])
}

proof fn lemma_insert_sorted(paths: Seq<Seq<Seq<char>>>, at: int, item: Seq<Seq<char>>)
    requires
        by_path(paths),
        0 <= at <= paths.len(),
        forall|k: int| 0 <= k < at ==> !path_lt(item, #[trigger] paths[k], 0),
        at < paths.len() ==> path_lt(item, paths[at], 0),
    ensures
        by_path(paths.insert(at, item)),
{
    let all = paths.insert(at, item);
    assert forall|i: int, j: int| 0 <= i < j < all.len() implies path_le(
        #[trigger] all[i],
        #[trigger] all[j],
    ) by {
        if j < at {
            assert(all[i] == paths[i] && all[j] == paths[j]);
        } else if j == at {
            assert(all[i] == paths[i] && all[j] == item);
        } else if i < at {
            assert(all[i] == paths[i] && all[j] == paths[j - 1]);
        } else if i == at {
            assert(all[i] == item && all[j] == paths[j - 1]);
            if path_lt(paths[j - 1], item, 0) {
                if j - 1 == at {
                    lemma_path_lt_asymmetric(paths[at], item, 0);
                } else {
                    lemma_path_lt_transitive(paths[j - 1], item, paths[at], 0);
                    assert(path_le(paths[at], paths[j - 1]));
                }
            }
        } else {
            assert(all[i] == paths[i - 1] && all[j] == paths[j - 1]);
        }
    }
}

/// An item inserted anywhere is one more of it.
pub proof fn lemma_insert_multiset<A>(s: Seq<A>, at: int, item: A)
    requires
        0 <= at <= s.len(),
    ensures
        s.insert(at, item).to_multiset() == s.to_multiset().insert(item),
{
    let t = s.insert(at, item);
    assert(t.remove(at) =~= s);
    vstd::seq_lib::to_multiset_remove(t, at);
    assert(t[at] == item);
    broadcast use vstd::seq_lib::group_to_multiset_ensures;

    assert(t.contains(item));
    assert(t.to_multiset().count(item) > 0);
    assert(t.to_multiset() =~= t.to_multiset().remove(item).insert(item));
}

proof fn lemma_empty_multiset<A>(s: Seq<A>)
    requires
        s.len() == 0,
    ensures
        s.to_multiset() == vstd::multiset::Multiset::<A>::empty(),
{
    broadcast use vstd::seq_lib::group_to_multiset_ensures;

    assert forall|a: A| s.to_multiset().count(a) == 0 by {
        assert(!s.contains(a));
    }
    assert(s.to_multiset() =~= vstd::multiset::Multiset::<A>::empty());
}

/// Something that stands at a path.
pub trait Located {
    spec fn place(&self) -> Seq<Seq<char>>;

    fn path(&self) -> (r: &FilePath)
        ensures
            r@ == self.place(),
    ;
}

impl Located for Candidate {
    open spec fn place(&self) -> Seq<Seq<char>> {
        self.path@
    }

    fn path(&self) -> (r: &FilePath) {
        &self.path
    }
}

impl Located for Skipped {
    open spec fn place(&self) -> Seq<Seq<char>> {
        self.path@
    }

    fn path(&self) -> (r: &FilePath) {
        &self.path
    }
}

pub open spec fn places<T: Located>(items: Seq<T>) -> Seq<Seq<Seq<char>>> {
    items.map_values(|item: T| item.place())
}

/// The same items, sorted by path.
pub fn sort_by_path<T: Located>(items: Vec<T>) -> (out: Vec<T>)
    ensures
        out@.to_multiset() == items@.to_multiset(),
        by_path(places(out@)),
{
    let mut rest = items;
    let ghost whole = items@;
    let mut out: Vec<T> = Vec::new();
    proof {
        assert(whole.take(whole.len() as int) =~= whole);
        lemma_empty_multiset(out@);
        assert(whole.to_multiset().add(out@.to_multiset()) =~= whole.to_multiset());
    }
    while rest.len() > 0
        invariant
            rest@ == whole.take(rest@.len() as int),
            rest@.len() <= whole.len(),
            rest@.to_multiset().add(out@.to_multiset()) == whole.to_multiset(),
            by_path(places(out@)),
        decreases rest@.len(),
    {
        let ghost n = rest@.len();
        let ghost before_rest = rest@;
        if let Some(item) = rest.pop() {
            let ghost sorted = out@;
            let ghost paths = places(out@);
            let ghost added = item;
            let len: usize = out.len();
            let mut at: usize = 0;
            while at < len && !before(item.path(), out[at].path())
                invariant
                    at <= len,
                    len == out@.len(),
                    paths == places(out@),
                    forall|k: int| 0 <= k < at ==> !path_lt(item.place(), #[trigger] paths[k], 0),
                decreases len - at,
            {
                assert(paths[at as int] == out@[at as int].place());
                at = at + 1;
            }
            proof {
                if at < len {
                    assert(paths[at as int] == out@[at as int].place());
                }
                lemma_insert_sorted(paths, at as int, item.place());
                lemma_insert_multiset(sorted, at as int, item);
                assert(before_rest =~= rest@.push(item));
                vstd::seq_lib::to_multiset_build(rest@, item);
                assert(rest@ =~= whole.take(n - 1));
            }
            out.insert(at, item);
            proof {
                assert(places(out@) =~= paths.insert(at as int, added.place()));
                assert(rest@.to_multiset().add(out@.to_multiset())
                    =~= rest@.to_multiset().insert(added).add(sorted.to_multiset()));
            }
        }
    }
    proof {
        lemma_empty_multiset(rest@);
        assert(rest@.to_multiset().add(out@.to_multiset()) =~= out@.to_multiset());
    }
    out
}

/// Puts a report together from what was found. Directory order depends on the
/// filesystem; both lists are sorted by path.
pub fn report(root: FilePath, candidates: Vec<Candidate>, skipped: Vec<Skipped>) -> (r: ScanReport)
    ensures
        r.root == root,
        r.candidates@.to_multiset() == candidates@.to_multiset(),
        by_path(places(r.candidates@)),
        r.skipped@.to_multiset() == skipped@.to_multiset(),
        by_path(places(r.skipped@)),
{
    ScanReport {
        root,
        candidates: sort_by_path(candidates),
        skipped: sort_by_path(skipped),
    }
}

} // verus!
