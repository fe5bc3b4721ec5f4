//! The pattern-matching engine, as far as the rest of the crate relies on it.
//!
//! Everything in this module is a statement about the `regex` crate that the
//! verifier takes on trust. The compiled matcher is opaque; what it does is
//! described through the pattern text and options that it was compiled from.

use regex::bytes::Regex;
use regex::bytes::RegexBuilder;
use vstd::prelude::*;

verus! {

/// `regex::bytes::Regex`, a compiled matcher; nothing inside it is visible.
#[verifier::external_type_specification]
#[verifier::external_body]
pub struct ExRegex(regex::bytes::Regex);

/// `regex::Error`, the engine's account of why a pattern did not compile.
#[verifier::external_type_specification]
#[verifier::external_body]
pub struct ExRegexError(regex::Error);

/// What a matcher is compiled from: the pattern text and the three options
/// that this crate sets on the engine's builder.
pub struct Syntax {
    pub pattern: Seq<char>,
    pub case_insensitive: bool,
    pub multi_line: bool,
    pub dot_all: bool,
}

/// Whether `regex::bytes::RegexBuilder::build` accepts the pattern under the
/// given options, with every other setting of the builder left at its default.
pub uninterp spec fn engine_accepts(syntax: Syntax) -> bool;

/// The pattern text and options that a compiled matcher was built from.
pub uninterp spec fn regex_source(re: &Regex) -> Syntax;

/// The successive non-overlapping matches that `regex::bytes::Regex::find_iter`
/// yields for a matcher compiled from `syntax`, each as the pair of its start
/// and end offsets in `haystack`.
pub uninterp spec fn engine_matches(syntax: Syntax, haystack: Seq<u8>) -> Seq<(usize, usize)>;

/// The template rendered for each of the matches in `haystack` in turn, as
/// `regex::bytes::Captures::expand` renders it: `$1` and `${name}` give way to
/// what the group captured, `$$` to a dollar sign.
pub uninterp spec fn engine_expansions(
    syntax: Syntax,
    haystack: Seq<u8>,
    template: Seq<u8>,
) -> Seq<Seq<u8>>;

/// The name of each capture group of a pattern that the engine accepts, in
/// the order of the groups' numbers, as `regex::bytes::Regex::capture_names`
/// yields them; `None` stands for a group without a name.
pub uninterp spec fn engine_group_names(syntax: Syntax) -> Seq<Option<Seq<u8>>>;

/// Spans lie inside a text of `len` bytes, run left to right and do not
/// overlap: each starts no earlier than the one before it ends.
pub open spec fn well_placed(spans: Seq<(usize, usize)>, len: int) -> bool {
    &&& forall|i: int| 0 <= i < spans.len() ==> (#[trigger] spans[i]).0 <= spans[i].1 <= len
    &&& forall|i: int, j: int|
        0 <= i < j < spans.len() ==> (#[trigger] spans[i]).1 <= (#[trigger] spans[j]).0
}

/// Calls `regex::bytes::RegexBuilder::new`, sets `case_insensitive`,
/// `multi_line` and `dot_matches_new_line`, and calls `build`. The outcome is
/// a function of the four arguments; on success the matcher remembers them.
#[verifier::external_body]
pub(crate) fn compile(
    pattern: &str,
    case_insensitive: bool,
    multi_line: bool,
    dot_all: bool,
) -> (r: Result<Regex, regex::Error>)
    ensures
        r is Ok <==> engine_accepts(
            (Syntax { pattern: pattern@, case_insensitive, multi_line, dot_all }),
        ),
        r is Ok ==> regex_source(&r->Ok_0) == (Syntax {
            pattern: pattern@,
            case_insensitive,
            multi_line,
            dot_all,
        }),
{
    RegexBuilder::new(pattern)
        .case_insensitive(case_insensitive)
        .multi_line(multi_line)
        .dot_matches_new_line(dot_all)
        .build()
}

/// Calls `regex::bytes::Regex::is_match`, which is true exactly when the
/// haystack holds at least one match, that is when `find_iter` yields one.
#[verifier::external_body]
pub(crate) fn is_match(re: &Regex, haystack: &[u8]) -> (b: bool)
    ensures
        b == (engine_matches(regex_source(re), haystack@).len() > 0),
{
    re.is_match(haystack)
}

/// The byte sequences that a list of buffers holds.
pub open spec fn texts_of(buffers: Seq<Vec<u8>>) -> Seq<Seq<u8>> {
    buffers.map_values(|b: Vec<u8>| b@)
}

/// The names that a list of optional buffers holds.
pub open spec fn names_of(buffers: Seq<Option<Vec<u8>>>) -> Seq<Option<Seq<u8>>> {
    buffers.map_values(
        |n: Option<Vec<u8>>|
            match n {
                Some(b) => Some(b@),
                None => None,
            },
    )
}

/// The characters that have a meaning of their own in a pattern.
pub open spec fn is_meta_character(c: char) -> bool {
    c == '\\' || c == '.' || c == '+' || c == '*' || c == '?' || c == '(' || c == ')' || c == '|'
        || c == '[' || c == ']' || c == '{' || c == '}' || c == '^' || c == '$' || c == '#'
        || c == '&' || c == '-' || c == '~'
}

/// The text with a backslash put in front of every meta character.
pub open spec fn escaped(text: Seq<char>) -> Seq<char>
    decreases text.len(),
{
    if text.len() == 0 {
        text
    } else if is_meta_character(text.last()) {
        escaped(text.drop_last()).push('\\').push(text.last())
    } else {
        escaped(text.drop_last()).push(text.last())
    }
}

/// Calls `regex::escape`, which copies the text and puts a backslash in front
/// of each meta character.
#[verifier::external_body]
pub(crate) fn escape(text: &str) -> (r: String)
    ensures
        r@ == escaped(text@),
{
    regex::escape(text)
}

/// Calls `regex::bytes::Regex::find_iter` and collects the offsets of each
/// match. The matches lie inside the haystack, in order, without overlap.
#[verifier::external_body]
pub(crate) fn find_spans(re: &Regex, haystack: &[u8]) -> (r: Vec<(usize, usize)>)
    ensures
        r@ == engine_matches(regex_source(re), haystack@),
        well_placed(r@, haystack@.len() as int),
{
    re.find_iter(haystack).map(|m| (m.start(), m.end())).collect()
}

/// Calls `regex::bytes::Regex::captures_iter` and, for each match, takes the
/// offsets of the whole match (`Captures::get_match`) and renders the template
/// with `Captures::expand`. The matches are those that `find_iter` yields.
#[verifier::external_body]
pub(crate) fn expand_matches(re: &Regex, haystack: &[u8], template: &[u8]) -> (r: (
    Vec<(usize, usize)>,
    Vec<Vec<u8>>,
))
    ensures
        r.0@ == engine_matches(regex_source(re), haystack@),
        well_placed(r.0@, haystack@.len() as int),
        r.1@.len() == r.0@.len(),
        texts_of(r.1@) == engine_expansions(regex_source(re), haystack@, template@),
{
    let mut spans = Vec::new();
    let mut texts = Vec::new();
    for caps in re.captures_iter(haystack) {
        let whole = caps.get_match();
        let mut text = Vec::new();
        caps.expand(template, &mut text);
        spans.push((whole.start(), whole.end()));
        texts.push(text);
    }
    (spans, texts)
}

/// Calls `regex::bytes::Regex::capture_names` and collects the names as
/// bytes. There is always at least the group of the whole match.
#[verifier::external_body]
pub(crate) fn group_names(re: &Regex) -> (r: Vec<Option<Vec<u8>>>)
    ensures
        names_of(r@) == engine_group_names(regex_source(re)),
        r@.len() >= 1,
{
    re.capture_names().map(|n| n.map(|s| s.as_bytes().to_vec())).collect()
}

} // verus!
