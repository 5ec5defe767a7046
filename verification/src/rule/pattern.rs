//! Regular expressions, compiled once.

use vstd::prelude::*;

verus! {

#[verifier::external_type_specification]
#[verifier::external_body]
pub struct ExRegex(regex::Regex);

/// Why `regex::Regex::new` refuses a pattern; `None` where it compiles.
pub uninterp spec fn regex_fault(pattern: Seq<char>) -> Option<Seq<char>>;

/// The pattern of a value that `regex::Regex::new` made, with its default
/// options.
pub uninterp spec fn plain_pattern(re: regex::Regex) -> Option<Seq<char>>;

/// A compiled pattern matches somewhere in a text.
pub uninterp spec fn regex_matches(pattern: Seq<char>, text: Seq<char>) -> bool;

/// Calls `regex::Regex::new`. Whether a pattern compiles, and the message of
/// the error where it does not, are fixed by the pattern; a compiled value
/// carries the pattern it was made from.
#[verifier::external_body]
fn compile(pattern: &str) -> (r: Result<regex::Regex, String>)
    ensures
        match r {
            Ok(re) => regex_fault(pattern@) is None && plain_pattern(re) == Some(pattern@),
            Err(e) => regex_fault(pattern@) == Some(e@),
        },
{
    regex::Regex::new(pattern).map_err(|e| e.to_string())
}

/// Calls `regex::Regex::is_match`. For a value made by `Regex::new` the answer
/// is fixed by its pattern and the text.
#[verifier::external_body]
fn search(re: &regex::Regex, text: &str) -> (r: bool)
    requires
        plain_pattern(*re) is Some,
    ensures
        r == regex_matches(plain_pattern(*re)->Some_0, text@),
{
    re.is_match(text)
}

/// A regular expression that compiled, with its source.
#[derive(Debug)]
pub struct Pattern {
    source: String,
    compiled: regex::Regex,
}

impl View for Pattern {
    type V = Seq<char>;

    closed spec fn view(&self) -> Seq<char> {
        self.source@
    }
}

impl Pattern {
    #[verifier::type_invariant]
    spec fn wf(self) -> bool {
        plain_pattern(self.compiled) == Some(self.source@)
    }

    /// Compiles a pattern, or says why it cannot be.
    pub fn new(source: &str) -> (r: Result<Pattern, String>)
        ensures
            match r {
                Ok(pattern) => pattern@ == source@ && regex_fault(source@) is None,
                Err(message) => regex_fault(source@) == Some(message@),
            },
    {
        match compile(source) {
            Ok(compiled) => Ok(Pattern { source: source.to_owned(), compiled }),
            Err(message) => Err(message),
        }
    }

    /// The pattern as it was written.
    pub fn as_str(&self) -> (r: &str)
        ensures
            r@ == self@,
    {
        self.source.as_str()
    }

    /// The pattern matches somewhere in `text`.
    pub fn is_match(&self, text: &str) -> (r: bool)
        ensures
            r == regex_matches(self@, text@),
    {
        proof {
            use_type_invariant(self);
        }
        search(&self.compiled, text)
    }
}

} // verus!
