//! Lines of the run logs. Log bodies never contain event content: only
//! paths, counts and error kinds.

use vstd::prelude::*;

use crate::number;
use crate::number::decimal_text;
use crate::split;
use crate::split::end_of_text;
use crate::text;
use crate::text::{char_width, chars_of, space, string_of};

verus! {

/// Longest error text kept in a log line, in bytes. Parser errors can embed
/// the offending record, so they are cut to the diagnostic prefix.
pub const MAX_REASON: usize = 80;

/// A character that opens embedded structure.
pub open spec fn opens_payload(c: char) -> bool {
    c == '{' || c == '[' || c == '"'
}

/// How many characters stay, counted from position `i` on after `used` bytes:
/// up to the first that opens structure, and no byte beyond the cap.
pub open spec fn kept_from(s: Seq<char>, i: int, used: nat) -> int
    decreases s.len() - i,
{
    if 0 <= i < s.len() && !opens_payload(s[i]) && used + text::width(s[i]) <= MAX_REASON {
        kept_from(s, i + 1, used + text::width(s[i]))
    } else {
        i
    }
}

/// The characters of the diagnostic prefix, without trailing blanks.
pub open spec fn diagnostic_len(s: Seq<char>) -> int {
    split::trimmed_len(s, kept_from(s, 0, 0))
}

/// An error text as the logs may show it.
pub open spec fn redacted(s: Seq<char>) -> Seq<char> {
    if diagnostic_len(s) < split::trimmed_len(s, s.len() as int) {
        s.take(diagnostic_len(s)) + " (details omitted)"@
    } else {
        s.take(diagnostic_len(s))
    }
}

proof fn lemma_kept(s: Seq<char>, i: int, used: nat)
    requires
        0 <= i <= s.len(),
        used <= MAX_REASON,
        used == text::byte_len(s.take(i)),
        forall|j: int| 0 <= j < i ==> !opens_payload(#[trigger] s[j]),
    ensures
        i <= kept_from(s, i, used) <= s.len(),
        text::byte_len(s.take(kept_from(s, i, used))) <= MAX_REASON,
        forall|j: int| 0 <= j < kept_from(s, i, used) ==> !opens_payload(#[trigger] s[j]),
    decreases s.len() - i,
{
    if i < s.len() && !opens_payload(s[i]) && used + text::width(s[i]) <= MAX_REASON {
        assert(s.take(i + 1).drop_last() =~= s.take(i));
        assert(s.take(i + 1).last() == s[i]);
        lemma_kept(s, i + 1, used + text::width(s[i]));
    }
}

/// What a log shows of a reason is a prefix of it that holds no embedded
/// structure and no more bytes than the cap, marked where anything but
/// blanks was dropped.
pub proof fn redaction_keeps_no_payload(s: Seq<char>)
    ensures
        0 <= diagnostic_len(s) <= s.len(),
        text::byte_len(s.take(diagnostic_len(s))) <= MAX_REASON,
        forall|j: int| 0 <= j < diagnostic_len(s) ==> !opens_payload(#[trigger] s[j]),
        redacted(s) == s.take(diagnostic_len(s)) || redacted(s) == s.take(diagnostic_len(s))
            + " (details omitted)"@,
        redacted(s) == s.take(diagnostic_len(s)) ==> forall|j: int|
            diagnostic_len(s) <= j < s.len() ==> text::is_space(#[trigger] s[j]),
{
    assert(s.take(0) =~= Seq::empty());
    lemma_kept(s, 0, 0);
    let k = kept_from(s, 0, 0);
    split::lemma_trimmed_len(s, k);
    split::lemma_trimmed_len(s, s.len() as int);
    text::lemma_byte_len_prefix(s, diagnostic_len(s), k);
    if redacted(s) == s.take(diagnostic_len(s)) {
        reveal_strlit(" (details omitted)");
        if diagnostic_len(s) < split::trimmed_len(s, s.len() as int) {
            assert(redacted(s).len() == diagnostic_len(s) + 18);
        }
    }
}

/// Keeps the diagnostic prefix of an error text and drops any embedded record
/// payload: cut at the first structure delimiter, then at a length cap, never
/// inside a character.
pub fn redact(reason: &str) -> (out: String)
    ensures
        out@ == redacted(reason@),
{
    let s = chars_of(reason);
    let len: usize = s.len();
    let mut cut: usize = 0;
    let mut used: usize = 0;
    let mut open = true;
    while open && cut < len
        invariant
            s@ == reason@,
            len == s@.len(),
            cut <= len,
            used <= MAX_REASON,
            open ==> kept_from(s@, 0, 0) == kept_from(s@, cut as int, used as nat),
            !open ==> kept_from(s@, 0, 0) == cut,
        decreases len - cut, (if open { 1int } else { 0 }),
    {
        let c = s[cut];
        let w: usize = char_width(c);
        if c == '{' || c == '[' || c == '"' || used + w > MAX_REASON {
            open = false;
        } else {
            cut = cut + 1;
            used = used + w;
        }
    }
    let mut kept: usize = cut;
    while kept > 0 && space(s[kept - 1])
        invariant
            kept <= cut <= len,
            len == s@.len(),
            split::trimmed_len(s@, cut as int) == split::trimmed_len(s@, kept as int),
        decreases kept,
    {
        kept = kept - 1;
    }
    let whole: usize = end_of_text(&s);
    let mut out: String = string_of(&s, 0, kept);
    assert(out@ =~= s@.take(kept as int));
    if kept < whole {
        out.push_str(" (details omitted)");
    }
    out
}

/// One line of a log file.
pub open spec fn line_text(stamp: Seq<char>, level: Seq<char>, message: Seq<char>) -> Seq<char> {
    stamp + " "@ + level + " "@ + message + "\n"@
}

/// One line of a log file: when, how grave, what.
pub fn log_line(stamp: &str, level: &str, message: &str) -> (out: String)
    ensures
        out@ == line_text(stamp@, level@, message@),
{
    let mut out = stamp.to_owned();
    out.push_str(" ");
    out.push_str(level);
    out.push_str(" ");
    out.push_str(message);
    out.push_str("\n");
    out
}

pub open spec fn record_failure_message(
    name: Seq<char>,
    record_index: u64,
    reason: Seq<char>,
) -> Seq<char> {
    name + " record "@ + number::decimal(record_index as nat) + ": "@ + redacted(reason)
}

/// Says where a record failed, never what it contained.
pub fn record_failure(name: &str, record_index: u64, reason: &str) -> (out: String)
    ensures
        out@ == record_failure_message(name@, record_index, reason@),
{
    let mut out = name.to_owned();
    out.push_str(" record ");
    out.push_str(decimal_text(record_index).as_str());
    out.push_str(": ");
    out.push_str(redact(reason).as_str());
    out
}

pub open spec fn file_skipped_message(name: Seq<char>, reason: Seq<char>) -> Seq<char> {
    name + " skipped: "@ + redacted(reason)
}

/// Says that a file was skipped entirely.
pub fn file_skipped(name: &str, reason: &str) -> (out: String)
    ensures
        out@ == file_skipped_message(name@, reason@),
{
    let mut out = name.to_owned();
    out.push_str(" skipped: ");
    out.push_str(redact(reason).as_str());
    out
}

} // verus!
