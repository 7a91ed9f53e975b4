//! Compiled regular expressions, kept together with the text they were compiled from.

use vstd::prelude::*;
use vstd::string::StringSliceAdditionalSpecFns;
use vstd::utf8::*;

verus! {

/// Declares `regex::Regex` to Verus; its contents stay opaque.
#[verifier::external_type_specification]
#[verifier::external_body]
pub struct ExRegex(regex::Regex);

/// Declares `regex::Error` to Verus.
#[verifier::external_type_specification]
#[verifier::external_body]
pub struct ExRegexError(regex::Error);

/// Whether `regex::Regex::new` accepts the pattern (a valid pattern within the default size limit).
pub uninterp spec fn regex_accepts(pattern: Seq<char>) -> bool;

/// The byte spans `(start, end)` of the successive non-overlapping matches that
/// `regex::Regex::find_iter` reports for a regex compiled from `pattern` on `text`.
pub uninterp spec fn regex_match_spans(pattern: Seq<char>, text: Seq<char>) -> Seq<(usize, usize)>;

/// What the regex documentation promises of the spans of `find_iter`: each lies
/// inside the text with `start <= end`, both ends fall on UTF-8 character
/// boundaries, and successive matches do not overlap and come in order.
pub open spec fn spans_well_formed(spans: Seq<(usize, usize)>, bytes: Seq<u8>) -> bool {
    &&& forall|i: int| 0 <= i < spans.len() ==> {
        &&& #[trigger] spans[i].0 <= spans[i].1 <= bytes.len()
        &&& is_char_boundary(bytes, spans[i].0 as int)
        &&& is_char_boundary(bytes, spans[i].1 as int)
    }
    &&& forall|i: int| 0 <= i < spans.len() - 1 ==> #[trigger] spans[i].1 <= spans[i + 1].0
}

/// Calls `regex::Regex::new`. Claimed: it succeeds exactly on the patterns that
/// `regex_accepts` names, a deterministic property of the pattern text.
#[verifier::external_body]
fn compile_regex(pattern: &str) -> (r: Result<regex::Regex, regex::Error>)
    ensures
        r is Ok <==> regex_accepts(pattern@),
{
    regex::Regex::new(pattern)
}

/// Why a pattern could not be compiled.
#[derive(Debug, Clone, Copy, PartialEq, Eq)]
pub enum PatternError {
    /// The pattern is not a valid regular expression, or it is too large.
    Invalid,
}

/// A compiled regular expression together with its source text.
#[derive(Debug)]
pub struct Pattern {
    source: String,
    regex: regex::Regex,
}

impl View for Pattern {
    type V = Seq<char>;

    closed spec fn view(&self) -> Seq<char> {
        self.source@
    }
}

impl Pattern {
    /// Compiles `pattern`; fails exactly when the regex engine refuses it.
    pub fn new(pattern: &str) -> (r: Result<Pattern, PatternError>)
        ensures
            r is Ok <==> regex_accepts(pattern@),
            r matches Ok(p) ==> p@ == pattern@,
    {
        match compile_regex(pattern) {
            Ok(regex) => Ok(Pattern { source: pattern.to_owned(), regex }),
            Err(_) => Err(PatternError::Invalid),
        }
    }

    /// The text the pattern was compiled from.
    pub fn as_str(&self) -> (r: &str)
        ensures
            r@ == self@,
    {
        self.source.as_str()
    }
}

/// Calls `regex::Regex::find_iter` and keeps the byte span of each match.
/// Claimed: the spans are the named result `regex_match_spans` of the pattern's
/// source and the text, and they satisfy what the crate documents of matches
/// (`spans_well_formed`).
#[verifier::external_body]
pub(crate) fn match_spans(pattern: &Pattern, text: &str) -> (r: Vec<(usize, usize)>)
    ensures
        r@ == regex_match_spans(pattern@, text@),
        spans_well_formed(r@, text.spec_bytes()),
{
    pattern.regex.find_iter(text).map(|m| (m.start(), m.end())).collect()
}

/// What `regex::Regex::captures` finds for a regex compiled from `pattern` on
/// `text`: `None` when the regex does not match, otherwise the text of the
/// capture group named `group`, or `None` when no group of that name took part
/// in the match.
pub uninterp spec fn regex_capture_group(pattern: Seq<char>, text: Seq<char>, group: Seq<char>) -> Option<Option<Seq<char>>>;

/// Calls `regex::Regex::captures` and, when it matches, `Captures::name` for
/// `group`. Claimed: the outcome is the named result `regex_capture_group`.
#[verifier::external_body]
pub(crate) fn capture_group(pattern: &Pattern, text: &str, group: &str) -> (r: Option<Option<String>>)
    ensures
        match r {
            None => regex_capture_group(pattern@, text@, group@) is None,
            Some(None) => regex_capture_group(pattern@, text@, group@) == Some(None::<Seq<char>>),
            Some(Some(g)) => regex_capture_group(pattern@, text@, group@) == Some(Some(g@)),
        },
{
    match pattern.regex.captures(text) {
        None => None,
        Some(caps) => Some(caps.name(group).map(|m| m.as_str().to_string())),
    }
}

} // verus!
