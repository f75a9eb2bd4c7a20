//! Compiled search patterns.
//!
//! A [`Pattern`] pairs a `regex::Regex` with the pattern text it was compiled
//! from. Contracts never look inside the compiled automaton: what matching
//! returns is named by the uninterpreted functions [`regex_match`] and
//! [`regex_find_spans`], both functions of the pattern text and the searched
//! text alone, so that every caller's contract can speak of the same result.

use vstd::prelude::*;

verus! {

use vstd::utf8::encode_utf8;

#[verifier::external_type_specification]
#[verifier::external_body]
pub struct ExRegex(regex::Regex);

#[verifier::external_type_specification]
#[verifier::external_body]
pub struct ExRegexError(regex::Error);

/// Whether `pattern` is a regular expression the engine accepts. The verdict
/// of `regex::Regex::new`, which uses the default builder and so depends on
/// the pattern text alone.
pub uninterp spec fn regex_compiles(pattern: Seq<char>) -> bool;

/// Whether the regular expression compiled from `pattern` matches anywhere in
/// `text`. The result of `regex::Regex::is_match`, which depends on the
/// pattern and the searched text alone.
pub uninterp spec fn regex_match(pattern: Seq<char>, text: Seq<char>) -> bool;

/// The byte-offset spans `(start, end)`, end exclusive, of the successive
/// non-overlapping matches that a find-all scan of `text` yields, in order.
/// The result of `regex::Regex::find_iter`, which depends on the pattern and
/// the searched text alone.
pub uninterp spec fn regex_find_spans(pattern: Seq<char>, text: Seq<char>) -> Seq<(int, int)>;

/// Spans as `find_iter` yields them: within the text's UTF-8 byte length,
/// each start no later than its end, and ordered without overlap.
pub open spec fn spans_wf(spans: Seq<(int, int)>, byte_len: int) -> bool {
    &&& forall|i: int|
        0 <= i < spans.len() ==> 0 <= (#[trigger] spans[i]).0 <= spans[i].1 <= byte_len
    &&& forall|i: int|
        0 <= i < spans.len() - 1 ==> (#[trigger] spans[i]).1 <= spans[i + 1].0
}

/// A compiled search pattern together with the text it was compiled from.
///
/// The `source` field is what contracts see (the view of a `Pattern` is the
/// pattern text); `compile` is the only constructor, so the automaton always
/// belongs to that text.
pub struct Pattern {
    regex: regex::Regex,
    source: String,
}

impl View for Pattern {
    type V = Seq<char>;

    closed spec fn view(&self) -> Seq<char> {
        self.source@
    }
}

/// Relies on `regex::Regex::new`: compiles the pattern, or reports an error
/// for a pattern that is not a valid regular expression (or one over the
/// default size limit); with the default builder the verdict is a function
/// of the pattern text alone, named by `regex_compiles`.
#[verifier::external_body]
fn regex_new(pattern: &str) -> (r: Result<regex::Regex, regex::Error>)
    ensures
        r is Ok <==> regex_compiles(pattern@),
{
    regex::Regex::new(pattern)
}

/// Relies on the `Display` impl of `regex::Error` for the human-readable
/// description of why a pattern did not compile.
#[verifier::external_body]
fn regex_error_message(e: &regex::Error) -> String {
    e.to_string()
}

impl Pattern {
    /// Compile `pattern`: success exactly when the engine accepts the
    /// pattern. On success the result's view is the pattern text; on failure
    /// the engine's description of the error is returned.
    pub fn compile(pattern: &str) -> (r: Result<Pattern, String>)
        ensures
            r is Ok <==> regex_compiles(pattern@),
            r matches Ok(p) ==> p@ == pattern@,
    {
        match regex_new(pattern) {
            Ok(regex) => Ok(Pattern { regex, source: pattern.to_owned() }),
            Err(e) => Err(regex_error_message(&e)),
        }
    }

    /// Relies on `regex::Regex::is_match`: true if and only if there is a
    /// match for the pattern anywhere in `text`. The automaton is the one
    /// `compile` built from this pattern's text, so the result is a function
    /// of that text and `text` alone.
    #[verifier::external_body]
    pub(crate) fn is_match(&self, text: &str) -> (r: bool)
        ensures
            r == regex_match(self@, text@),
    {
        self.regex.is_match(text)
    }

    /// Relies on `regex::Regex::find_iter`: yields the successive
    /// non-overlapping matches in `text`, as half-open byte-offset ranges
    /// within the haystack; at least one match is found exactly when
    /// `is_match` is true. The automaton is the one `compile` built from
    /// this pattern's text, so the spans are a function of that text and
    /// `text` alone.
    #[verifier::external_body]
    pub(crate) fn find_spans(&self, text: &str) -> (r: Vec<(usize, usize)>)
        ensures
            r@.map_values(|p: (usize, usize)| (p.0 as int, p.1 as int)) == regex_find_spans(
                self@,
                text@,
            ),
            spans_wf(
                r@.map_values(|p: (usize, usize)| (p.0 as int, p.1 as int)),
                encode_utf8(text@).len() as int,
            ),
            r@.len() > 0 <==> regex_match(self@, text@),
    {
        let mut v: Vec<(usize, usize)> = Vec::new();
        for m in self.regex.find_iter(text) {
            v.push((m.start(), m.end()));
        }
        v
    }
}

} // verus!
