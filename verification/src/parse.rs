//! The tokenizer: a forward-only scan that hands out one classified span of
//! the input per call.

use crate::catalog::{
    arg_pattern, catalog_accepted, has_empty, has_empty_flag, initial_scan, qualify, spellings,
    to_matches, DELIMITER, LABEL, NUMBER, YEAR,
};
use crate::merge::{closer, peek, Category, Match, Winner};
use crate::parse::arg::{all, flag_catalog};
use crate::pattern::{find_all, is_match};
use crate::scan::{
    concat, lemma_pieces_cover, lemma_pieces_reproduce_input, lemma_step_progress,
    lemma_stream_ok_skip, stream_ok, Piece, Scan,
};
use crate::text::{byte_len, on_boundary, slice};
use vstd::prelude::*;
use vstd::string::*;
use vstd::utf8::*;

pub mod arg;

verus! {

/// Why a tokenizer could not be built.
#[derive(Clone, Copy, Debug, PartialEq, Eq, Structural)]
pub enum ConfigurationError {
    /// A pattern of the catalog was not accepted by the pattern engine.
    InvalidPattern,
    /// A flag spelling of the catalog is the empty string.
    EmptyFlag,
    /// A match stream holds a match that is empty, leaves the input, splits a
    /// character or overlaps the one before it.
    InvalidMatch,
}

/// A classified span of the input.
#[derive(Clone, Copy, Debug, PartialEq, Eq)]
pub enum Parsed<'a> {
    Text(&'a str),
    Year(&'a str),
    Label(&'a str),
    Delimiter(&'a str),
    Arg(&'a str),
}

impl<'a> Parsed<'a> {
    pub open spec fn category(self) -> Category {
        match self {
            Parsed::Text(_) => Category::Text,
            Parsed::Year(_) => Category::Year,
            Parsed::Label(_) => Category::Label,
            Parsed::Delimiter(_) => Category::Delimiter,
            Parsed::Arg(_) => Category::Arg,
        }
    }

    pub open spec fn text(self) -> &'a str {
        match self {
            Parsed::Text(t) => t,
            Parsed::Year(t) => t,
            Parsed::Label(t) => t,
            Parsed::Delimiter(t) => t,
            Parsed::Arg(t) => t,
        }
    }

    /// The token as plain data.
    pub open spec fn piece(self) -> Piece {
        Piece { category: self.category(), bytes: self.text().spec_bytes() }
    }

    /// The token of `category` that covers `text`.
    pub fn of(category: Category, text: &'a str) -> (token: Parsed<'a>)
        ensures
            token.category() == category,
            token.text() == text,
    {
        match category {
            Category::Text => Parsed::Text(text),
            Category::Year => Parsed::Year(text),
            Category::Label => Parsed::Label(text),
            Category::Delimiter => Parsed::Delimiter(text),
            Category::Arg => Parsed::Arg(text),
        }
    }

    /// The category of the token.
    pub fn kind(&self) -> (category: Category)
        ensures
            category == self.category(),
    {
        match self {
            Parsed::Text(_) => Category::Text,
            Parsed::Year(_) => Category::Year,
            Parsed::Label(_) => Category::Label,
            Parsed::Delimiter(_) => Category::Delimiter,
            Parsed::Arg(_) => Category::Arg,
        }
    }

    /// The part of the input that the token covers.
    pub fn as_str(&self) -> (text: &'a str)
        ensures
            text == self.text(),
    {
        match self {
            Parsed::Text(t) => t,
            Parsed::Year(t) => t,
            Parsed::Label(t) => t,
            Parsed::Delimiter(t) => t,
            Parsed::Arg(t) => t,
        }
    }
}

/// The tokens as plain data, in order.
pub open spec fn pieces_of(tokens: Seq<Parsed>) -> Seq<Piece> {
    tokens.map_values(|t: Parsed| t.piece())
}

/// What building a tokenizer over `text` with the flag spellings `flags`
/// comes to: the initial scan, or the reason why there is none.
pub open spec fn outcome(text: Seq<char>, flags: Seq<Seq<char>>) -> Result<
    Scan,
    ConfigurationError,
> {
    if has_empty(flags) {
        Err(ConfigurationError::EmptyFlag)
    } else if !catalog_accepted(flags) {
        Err(ConfigurationError::InvalidPattern)
    } else if !initial_scan(text, flags).wf() {
        Err(ConfigurationError::InvalidMatch)
    } else {
        Ok(initial_scan(text, flags))
    }
}

/// What tokenizing `text` comes to: its tokens in order, or the reason why
/// no tokenizer could be built.
pub open spec fn tokenized(text: Seq<char>, flags: Seq<Seq<char>>) -> Result<
    Seq<Piece>,
    ConfigurationError,
> {
    match outcome(text, flags) {
        Ok(scan) => Ok(scan.pieces()),
        Err(e) => Err(e),
    }
}

/// Tokenizing depends on the characters of the input and of the flag
/// spellings alone: two inputs that hold the same characters, with the same
/// spellings, come to the same tokens or to the same error.
pub proof fn lemma_tokenized_deterministic(
    a: &str,
    b: &str,
    flags_a: Seq<&str>,
    flags_b: Seq<&str>,
)
    requires
        a@ == b@,
        spellings(flags_a) == spellings(flags_b),
    ensures
        tokenized(a@, spellings(flags_a)) == tokenized(b@, spellings(flags_b)),
{
}

/// Where tokenizing succeeds, the tokens, one after the other, are the bytes
/// of the input, and none of them is empty.
pub proof fn lemma_tokenized_covers(text: Seq<char>, flags: Seq<Seq<char>>)
    ensures
        tokenized(text, flags) matches Ok(pieces) ==> {
            &&& concat(pieces) == encode_utf8(text)
            &&& forall|i: int| 0 <= i < pieces.len() ==> (#[trigger] pieces[i]).bytes.len() > 0
        },
{
    if let Ok(scan) = outcome(text, flags) {
        lemma_pieces_cover(scan);
        lemma_pieces_reproduce_input(scan);
    }
}

/// The matches of one category with the position of the next unconsumed one.
struct Cursor {
    matches: Vec<Match>,
    next: usize,
}

impl Cursor {
    spec fn inv(&self) -> bool {
        self.next <= self.matches@.len()
    }

    spec fn remaining(&self) -> Seq<Match> {
        self.matches@.skip(self.next as int)
    }

    fn peek(&self) -> (head: Option<Match>)
        requires
            self.inv(),
        ensures
            head == peek(self.remaining()),
    {
        if self.next < self.matches.len() {
            Some(self.matches[self.next])
        } else {
            None
        }
    }

    fn advance(&mut self)
        requires
            old(self).inv(),
            old(self).remaining().len() > 0,
        ensures
            final(self).inv(),
            final(self).remaining() == old(self).remaining().skip(1),
    {
        proof {
            vstd::std_specs::vec::axiom_spec_len(&self.matches);
        }
        assert(self.next < self.matches@.len());
        self.next = self.next + 1;
        assert(self.matches@.skip(self.next as int) =~= old(self).matches@.skip(
            old(self).next as int,
        ).skip(1));
    }
}

struct SetMatches {
    year: Cursor,
    label: Cursor,
    delimiter: Cursor,
    arg: Cursor,
}

/// Whether every match of `stream` is a non-empty interval of `s` between
/// character boundaries that ends before the next one starts.
pub fn check_stream(stream: &Vec<Match>, s: &str) -> (ok: bool)
    ensures
        ok == stream_ok(stream@, s.spec_bytes()),
{
    let ghost input = s.spec_bytes();
    let len = byte_len(s);
    let mut i: usize = 0;
    while i < stream.len()
        invariant
            i <= stream@.len(),
            input == s.spec_bytes(),
            len == input.len(),
            stream_ok(stream@.take(i as int), input),
        decreases stream@.len() - i,
    {
        let m = stream[i];
        let inside = m.start < m.end && m.end <= len && s.is_char_boundary(m.start)
            && s.is_char_boundary(m.end);
        if !inside {
            assert(stream@[i as int] == m);
            return false;
        }
        if i > 0 && stream[i - 1].end > m.start {
            assert(stream@[i - 1].end > stream@[i as int].start);
            return false;
        }
        proof {
            let before = stream@.take(i as int);
            let now = stream@.take(i + 1);
            assert forall|a: int, b: int| 0 <= a < b < now.len() implies (#[trigger] now[a]).end <= (
            #[trigger] now[b]).start by {
                if b < i {
                    assert(now[a] == before[a] && now[b] == before[b]);
                } else if a < i - 1 {
                    assert(now[a] == before[a] && now[i - 1] == before[i - 1]);
                }
            }
            assert forall|a: int| 0 <= a < now.len() implies {
                &&& (#[trigger] now[a]).start < now[a].end
                &&& on_boundary(input, now[a].start as int)
                &&& on_boundary(input, now[a].end as int)
            } by {
                if a < i {
                    assert(now[a] == before[a]);
                }
            }
        }
        i += 1;
    }
    assert(stream@.take(i as int) =~= stream@);
    true
}

/// The tokenizer over one input string.
pub struct ReStrIterator<'a> {
    wrapped: &'a str,
    pos: usize,
    set_matches: SetMatches,
}

impl<'a> View for ReStrIterator<'a> {
    type V = Scan;

    closed spec fn view(&self) -> Scan {
        Scan {
            input: self.wrapped.spec_bytes(),
            pos: self.pos as int,
            year: self.set_matches.year.remaining(),
            label: self.set_matches.label.remaining(),
            delimiter: self.set_matches.delimiter.remaining(),
            arg: self.set_matches.arg.remaining(),
        }
    }
}

impl<'a> ReStrIterator<'a> {
    /// The scan is valid and every cursor stands inside its stream.
    pub closed spec fn wf(&self) -> bool {
        &&& self@.wf()
        &&& self.set_matches.year.inv()
        &&& self.set_matches.label.inv()
        &&& self.set_matches.delimiter.inv()
        &&& self.set_matches.arg.inv()
    }

    /// A well-formed tokenizer stands for a valid scan.
    pub proof fn lemma_wf_scan(&self)
        requires
            self.wf(),
        ensures
            self@.wf(),
    {
    }

    /// A tokenizer over `s` with the given match streams, positioned before
    /// the first token. The streams are accepted only if each of them is valid
    /// for `s`.
    pub fn from_streams(
        s: &'a str,
        year: Vec<Match>,
        label: Vec<Match>,
        delimiter: Vec<Match>,
        arg: Vec<Match>,
    ) -> (made: Result<ReStrIterator<'a>, ConfigurationError>)
        ensures
            made is Ok <==> stream_ok(year@, s.spec_bytes()) && stream_ok(label@, s.spec_bytes())
                && stream_ok(delimiter@, s.spec_bytes()) && stream_ok(arg@, s.spec_bytes()),
            made matches Ok(t) ==> t.wf() && t@ == Scan::start(
                s.spec_bytes(),
                year@,
                label@,
                delimiter@,
                arg@,
            ),
            made matches Err(e) ==> e == ConfigurationError::InvalidMatch,
    {
        if check_stream(&year, s) && check_stream(&label, s) && check_stream(&delimiter, s)
            && check_stream(&arg, s) {
            let made = ReStrIterator {
                wrapped: s,
                pos: 0,
                set_matches: SetMatches {
                    year: Cursor { matches: year, next: 0 },
                    label: Cursor { matches: label, next: 0 },
                    delimiter: Cursor { matches: delimiter, next: 0 },
                    arg: Cursor { matches: arg, next: 0 },
                },
            };
            proof {
                encode_utf8_valid_utf8(s@);
                is_char_boundary_start_end_of_seq(s.spec_bytes());
                assert(year@.skip(0) =~= year@);
                assert(label@.skip(0) =~= label@);
                assert(delimiter@.skip(0) =~= delimiter@);
                assert(arg@.skip(0) =~= arg@);
            }
            Ok(made)
        } else {
            Err(ConfigurationError::InvalidMatch)
        }
    }

    /// A tokenizer over `s` for the catalog whose flag keyword category holds
    /// the spellings `flags`; with no spellings that category is left out.
    pub fn with_flags(s: &'a str, flags: &Vec<&str>) -> (made: Result<
        ReStrIterator<'a>,
        ConfigurationError,
    >)
        ensures
            made matches Ok(t) ==> t.wf() && outcome(s@, spellings(flags@)) == Ok::<
                Scan,
                ConfigurationError,
            >(t@),
            made matches Err(e) ==> outcome(s@, spellings(flags@)) == Err::<
                Scan,
                ConfigurationError,
            >(e),
    {
        if has_empty_flag(flags) {
            return Err(ConfigurationError::EmptyFlag);
        }
        let arg = if flags.len() > 0 {
            let pattern = arg_pattern(flags);
            match find_all(pattern.as_str(), s) {
                Some(spans) => to_matches(&spans),
                None => {
                    return Err(ConfigurationError::InvalidPattern);
                },
            }
        } else {
            Vec::new()
        };
        if is_match(YEAR, "").is_none() {
            return Err(ConfigurationError::InvalidPattern);
        }
        let number = find_all(NUMBER, s);
        let label = find_all(LABEL, s);
        let delimiter = find_all(DELIMITER, s);
        match (number, label, delimiter) {
            (Some(number), Some(label), Some(delimiter)) => {
                proof {
                    encode_utf8_valid_utf8(s@);
                    is_char_boundary_start_end_of_seq(s.spec_bytes());
                }
                Self::from_streams(
                    s,
                    qualify(s, &number),
                    to_matches(&label),
                    to_matches(&delimiter),
                    arg,
                )
            },
            _ => Err(ConfigurationError::InvalidPattern),
        }
    }

    /// A tokenizer over `s` for the catalog with the built-in flag spellings.
    pub fn new(s: &'a str) -> (made: Result<ReStrIterator<'a>, ConfigurationError>)
        ensures
            made matches Ok(t) ==> t.wf() && outcome(s@, flag_catalog()) == Ok::<
                Scan,
                ConfigurationError,
            >(t@),
            made matches Err(e) ==> outcome(s@, flag_catalog()) == Err::<
                Scan,
                ConfigurationError,
            >(e),
    {
        let flags = all();
        Self::with_flags(s, &flags)
    }

    /// The byte offset up to which the input has been emitted.
    pub fn position(&self) -> (pos: usize)
        ensures
            pos == self@.pos,
    {
        self.pos
    }

    /// The input that is being tokenized.
    pub fn input(&self) -> (s: &'a str)
        ensures
            s.spec_bytes() == self@.input,
    {
        self.wrapped
    }

    /// Whether the head of `candidate` displaces the winner so far.
    fn is_closer_match(pos: usize, current: &Option<Winner>, candidate: &Cursor) -> (yes: bool)
        requires
            candidate.inv(),
        ensures
            yes == closer(pos as int, *current, peek(candidate.remaining())),
    {
        match candidate.peek() {
            None => false,
            Some(cand) => {
                cand.qualifies && cand.start >= pos && match current {
                    None => true,
                    Some(w) => w.found.start >= cand.start,
                }
            },
        }
    }

    /// The winner so far after the head of `candidate` has challenged it.
    fn challenge(pos: usize, current: Option<Winner>, category: Category, candidate: &Cursor) -> (w:
        Option<Winner>)
        requires
            candidate.inv(),
        ensures
            w == crate::merge::challenge(pos as int, current, category, candidate.remaining()),
    {
        if Self::is_closer_match(pos, &current, candidate) {
            match candidate.peek() {
                Some(found) => Some(Winner { category, found }),
                None => current,
            }
        } else {
            current
        }
    }

    /// The match that wins at the current position, if any.
    pub fn winner(&self) -> (w: Option<Winner>)
        requires
            self.wf(),
        ensures
            w == self@.winner(),
    {
        let w = Self::challenge(self.pos, None, Category::Year, &self.set_matches.year);
        let w = Self::challenge(self.pos, w, Category::Label, &self.set_matches.label);
        let w = Self::challenge(self.pos, w, Category::Delimiter, &self.set_matches.delimiter);
        Self::challenge(self.pos, w, Category::Arg, &self.set_matches.arg)
    }

    /// Emits the next token, or `None` once the input is used up.
    pub fn next(&mut self) -> (token: Option<Parsed<'a>>)
        requires
            old(self).wf(),
        ensures
            final(self).wf(),
            old(self)@.exhausted() ==> token is None && final(self)@ == old(self)@,
            !old(self)@.exhausted() ==> {
                &&& token matches Some(t)
                &&& t.piece() == old(self)@.next_piece()
                &&& final(self)@ == old(self)@.after()
                &&& old(self)@.pos < final(self)@.pos <= old(self)@.input.len()
            },
    {
        let len = byte_len(self.wrapped);
        if self.pos >= len {
            return None;
        }
        proof {
            lemma_step_progress(self@);
            is_char_boundary_start_end_of_seq(self@.input);
        }
        match self.winner() {
            Some(w) => {
                if w.found.start == self.pos {
                    let text = slice(self.wrapped, self.pos, w.found.end);
                    match w.category {
                        Category::Year => {
                            proof {
                                lemma_stream_ok_skip(self@.year, self@.input);
                            }
                            self.set_matches.year.advance();
                        },
                        Category::Label => {
                            proof {
                                lemma_stream_ok_skip(self@.label, self@.input);
                            }
                            self.set_matches.label.advance();
                        },
                        Category::Delimiter => {
                            proof {
                                lemma_stream_ok_skip(self@.delimiter, self@.input);
                            }
                            self.set_matches.delimiter.advance();
                        },
                        Category::Arg => {
                            proof {
                                lemma_stream_ok_skip(self@.arg, self@.input);
                            }
                            self.set_matches.arg.advance();
                        },
                        Category::Text => {},
                    }
                    self.pos = w.found.end;
                    Some(Parsed::of(w.category, text))
                } else {
                    let text = slice(self.wrapped, self.pos, w.found.start);
                    self.pos = w.found.start;
                    Some(Parsed::Text(text))
                }
            },
            None => {
                let text = slice(self.wrapped, self.pos, len);
                self.pos = len;
                Some(Parsed::Text(text))
            },
        }
    }

    /// Emits all tokens that are left, in order.
    pub fn collect_tokens(&mut self) -> (tokens: Vec<Parsed<'a>>)
        requires
            old(self).wf(),
        ensures
            final(self).wf(),
            final(self)@.exhausted(),
            final(self)@.input == old(self)@.input,
            final(self)@.pos == old(self)@.input.len(),
            pieces_of(tokens@) == old(self)@.pieces(),
            concat(pieces_of(tokens@)) == old(self)@.input.subrange(
                old(self)@.pos,
                old(self)@.input.len() as int,
            ),
    {
        proof {
            lemma_pieces_cover(self@);
        }
        let mut tokens: Vec<Parsed<'a>> = Vec::new();
        assert(pieces_of(tokens@) + self@.pieces() =~= old(self)@.pieces());
        loop
            invariant
                self.wf(),
                self@.input == old(self)@.input,
                pieces_of(tokens@) + self@.pieces() == old(self)@.pieces(),
            ensures
                self@.exhausted(),
                pieces_of(tokens@) == old(self)@.pieces(),
            decreases self@.input.len() - self@.pos,
        {
            let ghost before = self@;
            let ghost emitted = tokens@;
            proof {
                if !before.exhausted() {
                    lemma_step_progress(before);
                }
            }
            match self.next() {
                Some(t) => {
                    tokens.push(t);
                    assert(pieces_of(tokens@) =~= pieces_of(emitted) + seq![before.next_piece()]);
                    assert(pieces_of(tokens@) + self@.pieces() =~= pieces_of(emitted)
                        + before.pieces());
                },
                None => {
                    assert(before.pieces() =~= Seq::empty());
                    assert(pieces_of(tokens@) + before.pieces() =~= pieces_of(tokens@));
                    break ;
                },
            }
        }
        tokens
    }
}

/// Splits `s` into its tokens with the built-in catalog. The tokens, one after
/// the other, are the whole of `s`.
pub fn tokenize<'a>(s: &'a str) -> (made: Result<Vec<Parsed<'a>>, ConfigurationError>)
    ensures
        made matches Ok(tokens) ==> {
            &&& tokenized(s@, flag_catalog()) == Ok::<Seq<Piece>, ConfigurationError>(
                pieces_of(tokens@),
            )
            &&& concat(pieces_of(tokens@)) == s.spec_bytes()
        },
        made matches Err(e) ==> tokenized(s@, flag_catalog()) == Err::<
            Seq<Piece>,
            ConfigurationError,
        >(e),
{
    match ReStrIterator::new(s) {
        Ok(mut scanner) => {
            proof {
                scanner.lemma_wf_scan();
                lemma_pieces_reproduce_input(scanner@);
            }
            Ok(scanner.collect_tokens())
        },
        Err(e) => Err(e),
    }
}

} // verus!
