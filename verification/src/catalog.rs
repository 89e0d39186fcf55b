//! The fixed pattern catalog and the match streams it yields for an input.

use crate::merge::Match;
use crate::pattern::{
    escape, escaped, is_match, push_str, regex_accepts, regex_found, regex_spans,
};
use crate::scan::Scan;
use crate::text::{byte_len, on_boundary, slice};
use vstd::prelude::*;
use vstd::string::*;
use vstd::utf8::*;

verus! {

/// A single whitespace character, a dot or a hyphen.
pub const DELIMITER: &'static str = "\\s|\\.|-";

/// A run of two or more upper-case letters.
pub const LABEL: &'static str = "[[:upper:]]{2,}";

/// A run of digits: the candidates for a year.
pub const NUMBER: &'static str = "[[:digit:]]+";

/// What a run of digits has to contain to qualify as a year.
pub const YEAR: &'static str = "(19|20)[\\d]{2,2}";

/// The spellings as sequences of characters.
pub open spec fn spellings(flags: Seq<&str>) -> Seq<Seq<char>> {
    flags.map_values(|f: &str| f@)
}

/// The pattern that matches any one of the spellings literally: each one
/// escaped and in a group of its own, the groups separated by `|`.
pub open spec fn alternation(flags: Seq<Seq<char>>) -> Seq<char>
    decreases flags.len(),
{
    if flags.len() == 0 {
        Seq::empty()
    } else if flags.len() == 1 {
        "("@ + escaped(flags[0]) + ")"@
    } else {
        alternation(flags.drop_last()) + "|("@ + escaped(flags.last()) + ")"@
    }
}

/// The pattern of the flag keyword category for the given spellings.
pub fn arg_pattern(flags: &Vec<&str>) -> (pattern: String)
    ensures
        pattern@ == alternation(spellings(flags@)),
{
    let mut pattern = String::new();
    let mut i: usize = 0;
    while i < flags.len()
        invariant
            i <= flags@.len(),
            pattern@ == alternation(spellings(flags@.take(i as int))),
        decreases flags@.len() - i,
    {
        let ghost before = spellings(flags@.take(i as int));
        let ghost now = spellings(flags@.take(i + 1));
        if i == 0 {
            push_str(&mut pattern, "(");
        } else {
            push_str(&mut pattern, "|(");
        }
        let quoted = escape(flags[i]);
        push_str(&mut pattern, quoted.as_str());
        push_str(&mut pattern, ")");
        proof {
            assert(now.drop_last() =~= before);
            assert(now.last() == flags@[i as int]@);
            if i == 0 {
                assert(pattern@ =~= "("@ + escaped(now[0]) + ")"@);
            } else {
                assert(pattern@ =~= alternation(before) + "|("@ + escaped(now.last()) + ")"@);
            }
        }
        i += 1;
    }
    assert(flags@.take(i as int) =~= flags@);
    pattern
}

/// Some spelling is the empty string.
pub open spec fn has_empty(flags: Seq<Seq<char>>) -> bool {
    exists|i: int| 0 <= i < flags.len() && (#[trigger] flags[i]).len() == 0
}

/// Whether any spelling is the empty string.
pub fn has_empty_flag(flags: &Vec<&str>) -> (yes: bool)
    ensures
        yes == has_empty(spellings(flags@)),
{
    let mut i: usize = 0;
    while i < flags.len()
        invariant
            i <= flags@.len(),
            forall|k: int| 0 <= k < i ==> (#[trigger] spellings(flags@)[k]).len() != 0,
        decreases flags@.len() - i,
    {
        if flags[i].is_empty() {
            assert(spellings(flags@)[i as int].len() == 0);
            return true;
        }
        assert(spellings(flags@)[i as int] == flags@[i as int]@);
        i += 1;
    }
    false
}

/// A run of digits qualifies as a year when it is four bytes long and holds
/// the year pattern.
pub open spec fn year_text(text: Seq<char>) -> bool {
    encode_utf8(text).len() == 4 && regex_accepts(YEAR@) && regex_found(YEAR@, text)
}

/// Whether `text`, a run of digits, qualifies as a year.
pub fn is_year(text: &str) -> (yes: bool)
    ensures
        yes == year_text(text@),
{
    if byte_len(text) != 4 {
        return false;
    }
    match is_match(YEAR, text) {
        Some(found) => found,
        None => false,
    }
}

/// The interval `span` lies in `input` between character boundaries.
pub open spec fn span_inside(input: Seq<u8>, span: (usize, usize)) -> bool {
    span.0 <= span.1 && on_boundary(input, span.0 as int) && on_boundary(input, span.1 as int)
}

/// The match for a run of digits: it qualifies when its text is a year.
pub open spec fn number_run(input: Seq<u8>, span: (usize, usize)) -> Match {
    Match {
        start: span.0,
        end: span.1,
        qualifies: span_inside(input, span) && year_text(
            decode_utf8(input.subrange(span.0 as int, span.1 as int)),
        ),
    }
}

/// The year stream made of the runs of digits.
pub open spec fn number_runs(input: Seq<u8>, spans: Seq<(usize, usize)>) -> Seq<Match> {
    spans.map_values(|span: (usize, usize)| number_run(input, span))
}

/// The stream of a pattern without a qualifying predicate.
pub open spec fn plain_matches(spans: Seq<(usize, usize)>) -> Seq<Match> {
    spans.map_values(|span: (usize, usize)| Match { start: span.0, end: span.1, qualifies: true })
}

/// Turns the runs of digits found in `s` into the year stream.
pub fn qualify(s: &str, spans: &Vec<(usize, usize)>) -> (runs: Vec<Match>)
    ensures
        runs@ == number_runs(s.spec_bytes(), spans@),
{
    let len = byte_len(s);
    let mut runs: Vec<Match> = Vec::new();
    let mut i: usize = 0;
    while i < spans.len()
        invariant
            i <= spans@.len(),
            len == s.spec_bytes().len(),
            runs@ == number_runs(s.spec_bytes(), spans@.take(i as int)),
        decreases spans@.len() - i,
    {
        let (start, end) = spans[i];
        let inside = start <= end && end <= len && s.is_char_boundary(start) && s.is_char_boundary(
            end,
        );
        let qualifies = if inside {
            let text = slice(s, start, end);
            proof {
                encode_utf8_decode_utf8(text@);
            }
            is_year(text)
        } else {
            false
        };
        runs.push(Match { start, end, qualifies });
        assert(runs@ =~= number_runs(s.spec_bytes(), spans@.take(i + 1))) by {
            assert(spans@.take(i + 1) =~= spans@.take(i as int).push(spans@[i as int]));
        }
        i += 1;
    }
    assert(spans@.take(i as int) =~= spans@);
    runs
}

/// Turns the matches of a pattern without a qualifying predicate into its
/// stream.
pub fn to_matches(spans: &Vec<(usize, usize)>) -> (stream: Vec<Match>)
    ensures
        stream@ == plain_matches(spans@),
{
    let mut stream: Vec<Match> = Vec::new();
    let mut i: usize = 0;
    while i < spans.len()
        invariant
            i <= spans@.len(),
            stream@ == plain_matches(spans@.take(i as int)),
        decreases spans@.len() - i,
    {
        let (start, end) = spans[i];
        stream.push(Match { start, end, qualifies: true });
        assert(stream@ =~= plain_matches(spans@.take(i + 1))) by {
            assert(spans@.take(i + 1) =~= spans@.take(i as int).push(spans@[i as int]));
        }
        i += 1;
    }
    assert(spans@.take(i as int) =~= spans@);
    stream
}

/// Every pattern of the catalog is accepted by the pattern engine; the flag
/// keyword pattern is part of the catalog only where there are spellings.
pub open spec fn catalog_accepted(flags: Seq<Seq<char>>) -> bool {
    &&& regex_accepts(NUMBER@)
    &&& regex_accepts(YEAR@)
    &&& regex_accepts(LABEL@)
    &&& regex_accepts(DELIMITER@)
    &&& flags.len() > 0 ==> regex_accepts(alternation(flags))
}

/// The flag keyword stream: empty where the category is left out.
pub open spec fn arg_stream(text: Seq<char>, flags: Seq<Seq<char>>) -> Seq<Match> {
    if flags.len() > 0 {
        plain_matches(regex_spans(alternation(flags), text))
    } else {
        Seq::empty()
    }
}

/// The scan over `text` before its first step, with the streams that the
/// catalog yields.
pub open spec fn initial_scan(text: Seq<char>, flags: Seq<Seq<char>>) -> Scan {
    Scan::start(
        encode_utf8(text),
        number_runs(encode_utf8(text), regex_spans(NUMBER@, text)),
        plain_matches(regex_spans(LABEL@, text)),
        plain_matches(regex_spans(DELIMITER@, text)),
        arg_stream(text, flags),
    )
}

} // verus!
