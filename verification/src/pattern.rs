//! The calls into the `regex` crate and into `String`, with what is assumed of
//! them. Nothing in this file is proved: the contracts below are taken from
//! the documentation of the functions that the bodies call.

use vstd::prelude::*;

verus! {

/// Whether `regex::Regex::new`, with its default limits, accepts `pattern`.
pub uninterp spec fn regex_accepts(pattern: Seq<char>) -> bool;

/// The byte intervals `(start, end)` of the successive matches that
/// `regex::Regex::find_iter` yields for `pattern` in `haystack`, in order.
pub uninterp spec fn regex_spans(pattern: Seq<char>, haystack: Seq<char>) -> Seq<(usize, usize)>;

/// Whether `regex::Regex::is_match` finds `pattern` anywhere in `haystack`.
pub uninterp spec fn regex_found(pattern: Seq<char>, haystack: Seq<char>) -> bool;

/// Compiles `pattern` with `regex::Regex::new` and walks
/// `regex::Regex::find_iter` over `haystack`, keeping `Match::start` and
/// `Match::end` of each match. Assumed: the result is `None` exactly when the
/// pattern is rejected, and otherwise the matches are those that the engine
/// yields for this pattern and haystack, which depend on nothing else.
#[verifier::external_body]
pub(crate) fn find_all(pattern: &str, haystack: &str) -> (found: Option<Vec<(usize, usize)>>)
    ensures
        found is Some <==> regex_accepts(pattern@),
        found matches Some(spans) ==> spans@ == regex_spans(pattern@, haystack@),
{
    match regex::Regex::new(pattern) {
        Ok(re) => Some(re.find_iter(haystack).map(|m| (m.start(), m.end())).collect()),
        Err(_) => None,
    }
}

/// Compiles `pattern` with `regex::Regex::new` and asks
/// `regex::Regex::is_match` about `haystack`. Assumed: the result is `None`
/// exactly when the pattern is rejected, and otherwise the engine's answer for
/// this pattern and haystack, which depends on nothing else.
#[verifier::external_body]
pub(crate) fn is_match(pattern: &str, haystack: &str) -> (found: Option<bool>)
    ensures
        found is Some <==> regex_accepts(pattern@),
        found matches Some(yes) ==> yes == regex_found(pattern@, haystack@),
{
    match regex::Regex::new(pattern) {
        Ok(re) => Some(re.is_match(haystack)),
        Err(_) => None,
    }
}

/// The characters that have a meaning of their own in a pattern.
pub open spec fn is_meta_character(c: char) -> bool {
    c == '\\' || c == '.' || c == '+' || c == '*' || c == '?' || c == '(' || c == ')' || c == '|'
        || c == '[' || c == ']' || c == '{' || c == '}' || c == '^' || c == '$' || c == '#' || c
        == '&' || c == '-' || c == '~'
}

/// `text` with a backslash put before each character that has a meaning of
/// its own in a pattern.
pub open spec fn escaped(text: Seq<char>) -> Seq<char>
    decreases text.len(),
{
    if text.len() == 0 {
        Seq::empty()
    } else if is_meta_character(text.last()) {
        escaped(text.drop_last()).push('\\').push(text.last())
    } else {
        escaped(text.drop_last()).push(text.last())
    }
}

/// `regex::escape`: the pattern that matches `text` literally. Assumed: the
/// result is `text` with each meta character preceded by a backslash, as the
/// loop in `regex_syntax::escape_into` writes it.
#[verifier::external_body]
pub(crate) fn escape(text: &str) -> (quoted: String)
    ensures
        quoted@ == escaped(text@),
{
    regex::escape(text)
}

/// `String::push_str`: appends `tail` to `s`.
#[verifier::external_body]
pub(crate) fn push_str(s: &mut String, tail: &str)
    ensures
        final(s)@ == old(s)@ + tail@,
{
    s.push_str(tail)
}

} // verus!
