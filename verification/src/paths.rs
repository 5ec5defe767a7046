//! The portable case root and the names of what lies in it.

use vstd::prelude::*;

use crate::number;
use crate::number::decimal_text;
use crate::scan::FilePath;
use crate::split;
use crate::split::has_suffix;
use crate::text;
use crate::text::{chars_of, digit, lowered, same};
use crate::textmap;
use crate::textmap::{place, Place};

verus! {

// ------------------------------------------------------------------ safe ids

/// A character that ids are made of.
pub open spec fn is_id_char(c: char) -> bool {
    ('a' <= c && c <= 'z') || ('A' <= c && c <= 'Z') || ('0' <= c && c <= '9') || c == '-' || c
        == '_'
}

/// An id that can only name an entry of the directory it is looked up in.
pub open spec fn is_safe(id: Seq<char>) -> bool {
    id.len() > 0 && forall|i: int| 0 <= i < id.len() ==> is_id_char(#[trigger] id[i])
}

fn id_char(c: char) -> (b: bool)
    ensures
        b == is_id_char(c),
{
    ('a' <= c && c <= 'z') || ('A' <= c && c <= 'Z') || ('0' <= c && c <= '9') || c == '-' || c
        == '_'
}

/// Whether an id may become the name of a file or directory under the cases
/// root.
pub fn is_safe_case_id(id: &str) -> (b: bool)
    ensures
        b == is_safe(id@),
{
    let s = chars_of(id);
    let n: usize = s.len();
    if n == 0 {
        return false;
    }
    let mut i: usize = 0;
    while i < n
        invariant
            i <= n,
            n == s@.len(),
            s@ == id@,
            forall|k: int| 0 <= k < i ==> is_id_char(#[trigger] s@[k]),
        decreases n - i,
    {
        if !id_char(s[i]) {
            return false;
        }
        i = i + 1;
    }
    true
}

/// A safe id cannot lead out of its directory: it has no separator, and it is
/// neither the directory itself nor the one above.
pub proof fn safe_ids_stay_inside(id: Seq<char>)
    requires
        is_safe(id),
    ensures
        !id.contains('/'),
        !id.contains('\\'),
        !id.contains(':'),
        id != "."@,
        id != ".."@,
{
    reveal_strlit(".");
    reveal_strlit("..");
    if id.contains('/') {
        assert(is_id_char(id[id.index_of('/')]));
    }
    if id.contains('\\') {
        assert(is_id_char(id[id.index_of('\\')]));
    }
    if id.contains(':') {
        assert(is_id_char(id[id.index_of(':')]));
    }
    assert("."@[0] == '.');
    assert(".."@[0] == '.');
    assert(is_id_char(id[0]));
}

// -------------------------------------------------------------------- the root

/// Where the cases root may come from.
pub struct RootSources<'a> {
    pub env_dir: Option<&'a FilePath>,
    pub cli_dir: Option<&'a FilePath>,
    pub exe_dir: &'a FilePath,
}

/// How many leading components of the executable's directory the cases lie
/// beside: a macOS bundle counts as one file.
pub open spec fn base_len(exe_dir: Seq<Seq<char>>) -> int {
    let n = exe_dir.len() as int;
    if n >= 3 && exe_dir[n - 1] == "MacOS"@ && exe_dir[n - 2] == "Contents"@ && split::ends_with(
        exe_dir[n - 3],
        ".app"@,
    ) {
        n - 3
    } else {
        n
    }
}

fn prefix_of(path: &FilePath, n: usize) -> (out: FilePath)
    requires
        n <= path@.len(),
    ensures
        out@ == path@.take(n as int),
{
    let mut parts: Vec<String> = Vec::new();
    let mut i: usize = 0;
    while i < n
        invariant
            i <= n,
            n <= path.parts@.len(),
            parts@.len() == i,
            forall|k: int| 0 <= k < i ==> (#[trigger] parts@[k])@ == path.parts@[k]@,
        decreases n - i,
    {
        parts.push(path.parts[i].as_str().to_owned());
        i = i + 1;
    }
    let out = FilePath { parts };
    assert(out@ =~= path@.take(n as int));
    out
}

/// The directory that cases lie in when nothing else is said: the
/// executable's own, or the one a macOS bundle stands in.
pub fn portable_base_dir(exe_dir: &FilePath) -> (out: FilePath)
    ensures
        out@ == exe_dir@.take(base_len(exe_dir@)),
{
    let n: usize = exe_dir.parts.len();
    assert(exe_dir@.len() == n);
    if n >= 3 {
        assert(exe_dir@[n - 1] == exe_dir.parts@[n - 1]@);
        assert(exe_dir@[n - 2] == exe_dir.parts@[n - 2]@);
        assert(exe_dir@[n - 3] == exe_dir.parts@[n - 3]@);
        if same(exe_dir.parts[n - 1].as_str(), "MacOS") && same(
            exe_dir.parts[n - 2].as_str(),
            "Contents",
        ) && has_suffix(exe_dir.parts[n - 3].as_str(), ".app") {
            return prefix_of(exe_dir, n - 3);
        }
    }
    prefix_of(exe_dir, n)
}

/// The cases root: the environment wins over the command line, which wins
/// over the place beside the executable. There is no other fallback.
pub fn resolve(sources: &RootSources) -> (out: FilePath)
    ensures
        out@ == (match sources.env_dir {
            Some(dir) => dir@,
            None => match sources.cli_dir {
                Some(dir) => dir@,
                None => sources.exe_dir@.take(base_len(sources.exe_dir@)).push("cases"@),
            },
        }),
{
    match sources.env_dir {
        Some(dir) => {
            assert(dir@.take(dir@.len() as int) =~= dir@);
            prefix_of(dir, dir.parts.len())
        },
        None => match sources.cli_dir {
            Some(dir) => {
                assert(dir@.take(dir@.len() as int) =~= dir@);
                prefix_of(dir, dir.parts.len())
            },
            None => {
                let mut out = portable_base_dir(sources.exe_dir);
                let ghost base = out@;
                out.parts.push("cases".to_owned());
                assert(out@ =~= base.push("cases"@));
                out
            },
        },
    }
}

/// The directory that `--cases-dir` names, in either of its forms.
pub open spec fn cases_dir_from(args: Seq<Seq<char>>, i: int) -> Option<Seq<char>>
    decreases args.len() - i,
{
    if i < 0 || i >= args.len() {
        None
    } else if args[i] == "--cases-dir"@ {
        if i + 1 < args.len() {
            Some(args[i + 1])
        } else {
            None
        }
    } else if split::starts_with(args[i], "--cases-dir="@) {
        Some(args[i].skip(12))
    } else {
        cases_dir_from(args, i + 1)
    }
}

/// The directory that `--cases-dir` names. A single flag; a full argument
/// parser would be unjustified here.
pub fn cli_cases_dir(args: &Vec<String>) -> (r: Option<String>)
    ensures
        text::opt(r) == cases_dir_from(text::texts(args@), 0),
{
    let ghost all = text::texts(args@);
    let n: usize = args.len();
    let mut i: usize = 0;
    while i < n
        invariant
            i <= n,
            n == args@.len(),
            all == text::texts(args@),
            cases_dir_from(all, 0) == cases_dir_from(all, i as int),
        decreases n - i,
    {
        assert(all[i as int] == args@[i as int]@);
        let arg: &str = args[i].as_str();
        if same(arg, "--cases-dir") {
            if i + 1 < n {
                assert(all[i + 1] == args@[i + 1]@);
                return Some(args[i + 1].as_str().to_owned());
            }
            return None;
        }
        if split::has_prefix(arg, "--cases-dir=") {
            proof {
                reveal_strlit("--cases-dir=");
            }
            let s = chars_of(arg);
            let len: usize = s.len();
            assert(s@.subrange(12, len as int) =~= s@.skip(12));
            return Some(text::string_of(&s, 12, len));
        }
        i = i + 1;
    }
    None
}

// -------------------------------------------------------------------- case ids

/// A directory name reduced to lower-case letters, digits and single hyphens,
/// as far as its first `n` characters.
pub open spec fn slug_upto(name: Seq<char>, n: nat) -> Seq<char>
    decreases n,
{
    if n == 0 || n > name.len() {
        Seq::empty()
    } else {
        let before = slug_upto(name, (n - 1) as nat);
        let c = text::lower(name[n - 1]);
        if ('a' <= c && c <= 'z') || text::is_digit(c) {
            before.push(c)
        } else if before.len() == 0 || before.last() == '-' {
            before
        } else {
            before.push('-')
        }
    }
}

/// The slug of a directory name, without a hyphen at its end.
pub open spec fn slug_of(name: Seq<char>) -> Seq<char> {
    let s = slug_upto(name, name.len());
    if s.len() > 0 && s.last() == '-' {
        s.drop_last()
    } else {
        s
    }
}

fn letters_of(name: &str) -> (out: Vec<char>)
    ensures
        out@ == slug_of(name@),
{
    let s = chars_of(name);
    let n: usize = s.len();
    let mut out: Vec<char> = Vec::new();
    let mut i: usize = 0;
    while i < n
        invariant
            i <= n,
            n == s@.len(),
            s@ == name@,
            out@ == slug_upto(s@, i as nat),
        decreases n - i,
    {
        let c = lowered(s[i]);
        let len: usize = out.len();
        if ('a' <= c && c <= 'z') || digit(c) {
            out.push(c);
        } else if len > 0 && out[len - 1] != '-' {
            out.push('-');
        }
        i = i + 1;
    }
    let len: usize = out.len();
    if len > 0 && out[len - 1] == '-' {
        let ghost all = out@;
        let _ = out.pop();
        assert(out@ =~= all.drop_last());
    }
    out
}

/// The id of a case: when it started, what it was made from, and a number
/// where an earlier case has the name already.
pub open spec fn case_id_text(started: Seq<char>, name: Seq<char>, attempt: nat) -> Seq<char> {
    let base = started + "-"@ + slug_of(name);
    if attempt == 0 {
        base
    } else {
        base + "-"@ + number::decimal(attempt + 1)
    }
}

/// The id of a case that started at `started`, made from the directory
/// `name`, after `attempt` ids were found taken.
pub fn case_id(started: &str, name: &str, attempt: u64) -> (out: String)
    requires
        attempt < u64::MAX,
    ensures
        out@ == case_id_text(started@, name@, attempt as nat),
{
    let mut out = started.to_owned();
    out.push_str("-");
    let slug = letters_of(name);
    let len: usize = slug.len();
    out.push_str(text::string_of(&slug, 0, len).as_str());
    assert(slug@.subrange(0, len as int) =~= slug@);
    if attempt > 0 {
        out.push_str("-");
        out.push_str(decimal_text(attempt + 1).as_str());
    }
    out
}

proof fn lemma_slug_chars(name: Seq<char>, n: nat)
    ensures
        forall|i: int|
            0 <= i < slug_upto(name, n).len() ==> is_id_char(#[trigger] slug_upto(name, n)[i]),
    decreases n,
{
    if 0 < n <= name.len() {
        lemma_slug_chars(name, (n - 1) as nat);
        let before = slug_upto(name, (n - 1) as nat);
        let now = slug_upto(name, n);
        assert forall|i: int| 0 <= i < now.len() implies is_id_char(#[trigger] now[i]) by {
            if i < before.len() {
                assert(now[i] == before[i]);
            }
        }
    }
}

proof fn lemma_decimal_chars(n: nat)
    ensures
        number::decimal(n).len() > 0,
        forall|i: int|
            0 <= i < number::decimal(n).len() ==> is_id_char(#[trigger] number::decimal(n)[i]),
    decreases n,
{
    if n >= 10 {
        lemma_decimal_chars(n / 10);
        let before = number::decimal(n / 10);
        let now = number::decimal(n);
        assert forall|i: int| 0 <= i < now.len() implies is_id_char(#[trigger] now[i]) by {
            if i < before.len() {
                assert(now[i] == before[i]);
            }
        }
    }
}

/// The id of a new case is always a safe one, whatever the directory is
/// called.
pub proof fn made_case_ids_are_safe(started: Seq<char>, name: Seq<char>, attempt: nat)
    requires
        is_safe(started),
    ensures
        is_safe(case_id_text(started, name, attempt)),
{
    reveal_strlit("-");
    lemma_slug_chars(name, name.len());
    lemma_decimal_chars(attempt + 1);
    let s = slug_upto(name, name.len());
    let slug = slug_of(name);
    assert forall|i: int| 0 <= i < slug.len() implies is_id_char(#[trigger] slug[i]) by {
        assert(slug[i] == s[i]);
    }
    let base = started + "-"@ + slug;
    assert forall|i: int| 0 <= i < base.len() implies is_id_char(#[trigger] base[i]) by {
        if i > started.len() {
            assert(base[i] == slug[i - started.len() - 1]);
        }
    }
    let id = case_id_text(started, name, attempt);
    assert forall|i: int| 0 <= i < id.len() implies is_id_char(#[trigger] id[i]) by {
        if i < base.len() {
            assert(id[i] == base[i]);
        } else if i > base.len() {
            assert(id[i] == number::decimal(attempt + 1)[i - base.len() - 1]);
        }
    }
}

// ------------------------------------------------------------------- the list

/// Newest first: ids start with the time, so that is descending order.
pub open spec fn descending(ids: Seq<Seq<char>>) -> bool {
    forall|i: int, j: int|
        0 <= i < j < ids.len() ==> !textmap::text_lt(#[trigger] ids[i], #[trigger] ids[j])
}

proof fn lemma_insert_descending(ids: Seq<Seq<char>>, at: int, id: Seq<char>)
    requires
        descending(ids),
        0 <= at <= ids.len(),
        forall|k: int| 0 <= k < at ==> !textmap::text_lt(#[trigger] ids[k], id),
        at < ids.len() ==> textmap::text_lt(ids[at], id),
    ensures
        descending(ids.insert(at, id)),
{
    let all = ids.insert(at, id);
    assert forall|i: int, j: int| 0 <= i < j < all.len() implies !textmap::text_lt(
        #[trigger] all[i],
        #[trigger] all[j],
    ) by {
        if j < at {
            assert(all[i] == ids[i] && all[j] == ids[j]);
        } else if j == at {
            assert(all[i] == ids[i] && all[j] == id);
        } else if i < at {
            assert(all[i] == ids[i] && all[j] == ids[j - 1]);
        } else if i == at {
            assert(all[i] == id && all[j] == ids[j - 1]);
            if textmap::text_lt(id, ids[j - 1]) {
                if j - 1 == at {
                    textmap::lemma_text_lt_transitive(id, ids[at], id);
                    textmap::lemma_text_lt_irreflexive(id);
                } else {
                    textmap::lemma_text_lt_transitive(ids[at], id, ids[j - 1]);
                }
            }
        } else {
            assert(all[i] == ids[i - 1] && all[j] == ids[j - 1]);
        }
    }
}

/// The cases newest first: every id that was found, and no other.
pub fn newest_first(ids: &Vec<String>) -> (out: Vec<String>)
    ensures
        descending(text::texts(out@)),
        text::texts(out@).to_multiset() == text::texts(ids@).to_multiset(),
{
    let ghost all = text::texts(ids@);
    let n: usize = ids.len();
    let mut out: Vec<String> = Vec::new();
    let mut i: usize = 0;
    assert(text::texts(out@) =~= all.take(0));
    while i < n
        invariant
            i <= n,
            n == ids@.len(),
            all == text::texts(ids@),
            descending(text::texts(out@)),
            text::texts(out@).to_multiset() == all.take(i as int).to_multiset(),
        decreases n - i,
    {
        let id: &str = ids[i].as_str();
        let ghost sorted = text::texts(out@);
        let len: usize = out.len();
        let mut at: usize = 0;
        let mut open = true;
        while open && at < len
            invariant
                at <= len,
                len == out@.len(),
                sorted == text::texts(out@),
                forall|k: int| 0 <= k < at ==> !textmap::text_lt(#[trigger] sorted[k], id@),
                !open ==> at < len && textmap::text_lt(sorted[at as int], id@),
            decreases len - at, (if open { 1int } else { 0 }),
        {
            assert(sorted[at as int] == out@[at as int]@);
            match place(out[at].as_str(), id) {
                Place::Before => {
                    open = false;
                },
                Place::Same => {
                    proof {
                        textmap::lemma_text_lt_irreflexive(id@);
                    }
                    at = at + 1;
                },
                Place::After => {
                    proof {
                        if textmap::text_lt(sorted[at as int], id@) {
                            textmap::lemma_text_lt_transitive(id@, sorted[at as int], id@);
                            textmap::lemma_text_lt_irreflexive(id@);
                        }
                    }
                    at = at + 1;
                },
            }
        }
        proof {
            lemma_insert_descending(sorted, at as int, id@);
            crate::scan::lemma_insert_multiset(sorted, at as int, id@);
            assert(all.take(i + 1) =~= all.take(i as int).push(id@));
            vstd::seq_lib::to_multiset_build(all.take(i as int), id@);
        }
        out.insert(at, id.to_owned());
        assert(text::texts(out@) =~= sorted.insert(at as int, id@));
        i = i + 1;
    }
    assert(all.take(n as int) =~= all);
    out
}

/// Why a directory is not deleted.
#[derive(Debug, Clone, Copy, PartialEq, Eq, Structural)]
pub enum Refusal {
    /// The id could lead out of the cases root.
    UnsafeId,
    /// There is no such directory.
    Missing,
    /// It is not a case: a recursive delete must not run on foreign data.
    NotACase,
}

/// Whether a case may be deleted. A half-deleted case, with its database but
/// without its description, still may.
pub fn may_delete(id: &str, is_dir: bool, has_meta: bool, has_db: bool) -> (r: Result<(), Refusal>)
    ensures
        r is Ok <==> is_safe(id@) && is_dir && (has_meta || has_db),
        r == Err::<(), Refusal>(Refusal::UnsafeId) <==> !is_safe(id@),
        r == Err::<(), Refusal>(Refusal::Missing) <==> is_safe(id@) && !is_dir,
{
    if !is_safe_case_id(id) {
        Err(Refusal::UnsafeId)
    } else if !is_dir {
        Err(Refusal::Missing)
    } else if !has_meta && !has_db {
        Err(Refusal::NotACase)
    } else {
        Ok(())
    }
}

} // verus!
