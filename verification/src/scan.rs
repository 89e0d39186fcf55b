//! The scan as a mathematical state: the input, the position reached and what
//! is left of each match stream, with the step that emits one token.

use crate::merge::{
    eligible, lemma_select_leftmost, peek, select, stream_of, Category, Match, Winner,
};
use crate::text::on_boundary;
use vstd::prelude::*;
use vstd::utf8::*;

verus! {

/// Every match of the stream is a non-empty interval of `input` between
/// character boundaries, and each one ends before the next one starts.
pub open spec fn stream_ok(stream: Seq<Match>, input: Seq<u8>) -> bool {
    &&& forall|i: int|
        0 <= i < stream.len() ==> {
            &&& (#[trigger] stream[i]).start < stream[i].end
            &&& on_boundary(input, stream[i].start as int)
            &&& on_boundary(input, stream[i].end as int)
        }
    &&& forall|i: int, j: int|
        0 <= i < j < stream.len() ==> (#[trigger] stream[i]).end <= (#[trigger] stream[j]).start
}

/// An emitted token as plain data: its category and the bytes it covers.
pub struct Piece {
    pub category: Category,
    pub bytes: Seq<u8>,
}

/// The state of a scan over `input`.
pub struct Scan {
    pub input: Seq<u8>,
    pub pos: int,
    pub year: Seq<Match>,
    pub label: Seq<Match>,
    pub delimiter: Seq<Match>,
    pub arg: Seq<Match>,
}

impl Scan {
    pub open spec fn wf(self) -> bool {
        &&& valid_utf8(self.input)
        &&& on_boundary(self.input, self.pos)
        &&& stream_ok(self.year, self.input)
        &&& stream_ok(self.label, self.input)
        &&& stream_ok(self.delimiter, self.input)
        &&& stream_ok(self.arg, self.input)
    }

    /// The scan before its first step.
    pub open spec fn start(
        input: Seq<u8>,
        year: Seq<Match>,
        label: Seq<Match>,
        delimiter: Seq<Match>,
        arg: Seq<Match>,
    ) -> Scan {
        Scan { input, pos: 0, year, label, delimiter, arg }
    }

    /// Nothing is left to emit.
    pub open spec fn exhausted(self) -> bool {
        self.pos == self.input.len()
    }

    pub open spec fn winner(self) -> Option<Winner> {
        select(self.pos, self.year, self.label, self.delimiter, self.arg)
    }

    /// The winner's match starts exactly at the scan position, so the next
    /// token is that match.
    pub open spec fn consumes(self) -> bool {
        self.winner() matches Some(w) && w.found.start == self.pos
    }

    /// The category of the next token: the winner's where its match starts at
    /// the scan position, text otherwise.
    pub open spec fn next_category(self) -> Category {
        if self.consumes() {
            self.winner().unwrap().category
        } else {
            Category::Text
        }
    }

    /// Where the next token ends: at the end of the winner's match where that
    /// starts at the scan position, at its start where it starts later, and at
    /// the end of the input where there is no winner.
    pub open spec fn next_end(self) -> int {
        match self.winner() {
            Some(w) => if w.found.start == self.pos {
                w.found.end as int
            } else {
                w.found.start as int
            },
            None => self.input.len() as int,
        }
    }

    /// The next token.
    pub open spec fn next_piece(self) -> Piece {
        Piece {
            category: self.next_category(),
            bytes: self.input.subrange(self.pos, self.next_end()),
        }
    }

    /// What is left of the stream of `category` after the step: without its
    /// head where the step consumed it, unchanged otherwise.
    pub open spec fn stream_after(self, category: Category, stream: Seq<Match>) -> Seq<Match> {
        if self.consumes() && self.winner().unwrap().category == category {
            stream.skip(1)
        } else {
            stream
        }
    }

    /// The scan after one step.
    pub open spec fn after(self) -> Scan {
        Scan {
            input: self.input,
            pos: self.next_end(),
            year: self.stream_after(Category::Year, self.year),
            label: self.stream_after(Category::Label, self.label),
            delimiter: self.stream_after(Category::Delimiter, self.delimiter),
            arg: self.stream_after(Category::Arg, self.arg),
        }
    }

    /// All tokens from the scan position to the end of the input, in order.
    pub open spec fn pieces(self) -> Seq<Piece>
        decreases self.input.len() - self.pos,
    {
        if self.pos < self.next_end() <= self.input.len() {
            seq![self.next_piece()] + self.after().pieces()
        } else {
            Seq::empty()
        }
    }
}

/// The bytes of the pieces, one after the other.
pub open spec fn concat(pieces: Seq<Piece>) -> Seq<u8>
    decreases pieces.len(),
{
    if pieces.len() == 0 {
        Seq::empty()
    } else {
        pieces[0].bytes + concat(pieces.skip(1))
    }
}

/// A stream stays valid when its head is dropped.
pub proof fn lemma_stream_ok_skip(stream: Seq<Match>, input: Seq<u8>)
    requires
        stream_ok(stream, input),
        stream.len() > 0,
    ensures
        stream_ok(stream.skip(1), input),
{
    let rest = stream.skip(1);
    assert forall|i: int| 0 <= i < rest.len() implies {
        &&& (#[trigger] rest[i]).start < rest[i].end
        &&& on_boundary(input, rest[i].start as int)
        &&& on_boundary(input, rest[i].end as int)
    } by {
        assert(rest[i] == stream[i + 1]);
    }
    assert forall|i: int, j: int| 0 <= i < j < rest.len() implies (#[trigger] rest[i]).end <= (
    #[trigger] rest[j]).start by {
        assert(rest[i] == stream[i + 1]);
        assert(rest[j] == stream[j + 1]);
    }
}

/// Every step makes progress: on a valid scan that is not exhausted the next
/// token is not empty and ends inside the input, and the scan after it is
/// valid again.
pub proof fn lemma_step_progress(scan: Scan)
    requires
        scan.wf(),
        !scan.exhausted(),
    ensures
        scan.pos < scan.next_end() <= scan.input.len(),
        scan.after().pos == scan.next_end(),
        scan.after().wf(),
        scan.after().input == scan.input,
        scan.next_piece().bytes.len() > 0,
{
    lemma_select_leftmost(scan.pos, scan.year, scan.label, scan.delimiter, scan.arg, Category::Text);
    match scan.winner() {
        Some(w) => {
            let s = stream_of(w.category, scan.year, scan.label, scan.delimiter, scan.arg);
            assert(s[0] == w.found);
            assert(stream_ok(s, scan.input));
            if w.found.start == scan.pos {
                lemma_stream_ok_skip(s, scan.input);
            }
        },
        None => {
            is_char_boundary_start_end_of_seq(scan.input);
        },
    }
}

/// The tokens cover the input: on a valid scan their bytes, one after the
/// other, are exactly the input from the scan position to its end, and none
/// of them is empty.
pub proof fn lemma_pieces_cover(scan: Scan)
    requires
        scan.wf(),
    ensures
        concat(scan.pieces()) == scan.input.subrange(scan.pos, scan.input.len() as int),
        forall|i: int| 0 <= i < scan.pieces().len() ==> (#[trigger] scan.pieces()[i]).bytes.len() > 0,
        scan.exhausted() <==> scan.pieces().len() == 0,
    decreases scan.input.len() - scan.pos,
{
    let rest = scan.input.subrange(scan.pos, scan.input.len() as int);
    if scan.exhausted() {
        assert(rest =~= Seq::empty());
    } else {
        lemma_step_progress(scan);
        lemma_pieces_cover(scan.after());
        let tail = scan.after().pieces();
        let all = scan.pieces();
        assert(all == seq![scan.next_piece()] + tail);
        assert(all.skip(1) =~= tail);
        assert(all[0] == scan.next_piece());
        assert(rest =~= scan.next_piece().bytes + scan.input.subrange(
            scan.next_end(),
            scan.input.len() as int,
        ));
        assert forall|i: int| 0 <= i < all.len() implies (#[trigger] all[i]).bytes.len() > 0 by {
            if i > 0 {
                assert(all[i] == tail[i - 1]);
            }
        }
    }
}

/// From the start of a valid scan the tokens reproduce the whole input.
pub proof fn lemma_pieces_reproduce_input(scan: Scan)
    requires
        scan.wf(),
        scan.pos == 0,
    ensures
        concat(scan.pieces()) == scan.input,
{
    lemma_pieces_cover(scan);
    assert(scan.input.subrange(0, scan.input.len() as int) =~= scan.input);
}

/// A token is a year only where the head of the year stream qualifies and
/// starts at the scan position; and such a head is emitted as a year unless
/// the head of a category of higher rank is eligible and starts there too.
pub proof fn lemma_year_iff_qualified(scan: Scan)
    ensures
        scan.next_category() == Category::Year ==> scan.year.len() > 0 && scan.year[0].qualifies
            && scan.year[0].start == scan.pos,
        scan.year.len() > 0 && scan.year[0].qualifies && scan.year[0].start == scan.pos && !(
        eligible(scan.pos, peek(scan.label)) && scan.label[0].start == scan.pos) && !(eligible(
            scan.pos,
            peek(scan.delimiter),
        ) && scan.delimiter[0].start == scan.pos) && !(eligible(scan.pos, peek(scan.arg))
            && scan.arg[0].start == scan.pos) ==> scan.next_category() == Category::Year,
{
}

/// The token sequence is a function of the input and the match streams: two
/// scans of equal inputs with equal streams emit the same tokens.
pub proof fn lemma_pieces_deterministic(a: Scan, b: Scan)
    requires
        a.input == b.input,
        a.pos == b.pos,
        a.year == b.year,
        a.label == b.label,
        a.delimiter == b.delimiter,
        a.arg == b.arg,
    ensures
        a.pieces() == b.pieces(),
{
}

} // verus!
