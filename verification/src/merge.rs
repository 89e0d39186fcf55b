//! Arbitration between the per-category match streams: which category's next
//! match is emitted at the current scan position.

use vstd::prelude::*;

verus! {

/// The classification a span of the input can receive.
#[derive(Clone, Copy, Debug, PartialEq, Eq, Structural)]
pub enum Category {
    Year,
    Label,
    Delimiter,
    Arg,
    Text,
}

/// One occurrence of a pattern: the half-open byte interval `[start, end)` of
/// the input, and whether it passed the qualifying predicate of its pattern
/// (always `true` for a pattern that has none).
#[derive(Clone, Copy, Debug, PartialEq, Eq)]
pub struct Match {
    pub start: usize,
    pub end: usize,
    pub qualifies: bool,
}

/// The match selected for a step, with the category whose stream it heads.
#[derive(Clone, Copy, Debug, PartialEq, Eq)]
pub struct Winner {
    pub category: Category,
    pub found: Match,
}

/// The next unconsumed match of a stream, if any.
pub open spec fn peek(stream: Seq<Match>) -> Option<Match> {
    if stream.len() > 0 {
        Some(stream[0])
    } else {
        None
    }
}

/// A peeked match can be selected at `pos` when it qualifies and does not
/// start behind `pos`.
pub open spec fn eligible(pos: int, candidate: Option<Match>) -> bool {
    candidate matches Some(c) && c.qualifies && c.start >= pos
}

/// Whether `candidate` displaces `current`: it is eligible and starts no later
/// than the current winner, if there is one.
pub open spec fn closer(pos: int, current: Option<Winner>, candidate: Option<Match>) -> bool {
    eligible(pos, candidate) && (current matches Some(w) ==> w.found.start >= candidate.unwrap().start)
}

/// The winner after the head of `stream` has challenged `current`.
pub open spec fn challenge(
    pos: int,
    current: Option<Winner>,
    category: Category,
    stream: Seq<Match>,
) -> Option<Winner> {
    if closer(pos, current, peek(stream)) {
        Some(Winner { category, found: stream[0] })
    } else {
        current
    }
}

/// The winner at `pos`: the streams challenge in the order year, label,
/// delimiter, flag keyword, each against the winner so far.
pub open spec fn select(
    pos: int,
    year: Seq<Match>,
    label: Seq<Match>,
    delimiter: Seq<Match>,
    arg: Seq<Match>,
) -> Option<Winner> {
    let w = challenge(pos, None, Category::Year, year);
    let w = challenge(pos, w, Category::Label, label);
    let w = challenge(pos, w, Category::Delimiter, delimiter);
    challenge(pos, w, Category::Arg, arg)
}

/// The rank by which ties are broken: a higher rank wins.
pub open spec fn rank(category: Category) -> int {
    match category {
        Category::Text => 0,
        Category::Year => 1,
        Category::Label => 2,
        Category::Delimiter => 3,
        Category::Arg => 4,
    }
}

/// The stream that belongs to `category` among the four; empty for text.
pub open spec fn stream_of(
    category: Category,
    year: Seq<Match>,
    label: Seq<Match>,
    delimiter: Seq<Match>,
    arg: Seq<Match>,
) -> Seq<Match> {
    match category {
        Category::Year => year,
        Category::Label => label,
        Category::Delimiter => delimiter,
        Category::Arg => arg,
        Category::Text => Seq::empty(),
    }
}

/// The selection picks the leftmost eligible head: there is no winner exactly
/// when no head is eligible; the winner is the eligible head of its own
/// category's stream; no eligible head starts before it; and an eligible head
/// that starts where it starts belongs to a category of no higher rank.
pub proof fn lemma_select_leftmost(
    pos: int,
    year: Seq<Match>,
    label: Seq<Match>,
    delimiter: Seq<Match>,
    arg: Seq<Match>,
    other: Category,
)
    ensures
        select(pos, year, label, delimiter, arg) is None <==> (forall|c: Category|
            !eligible(pos, #[trigger] peek(stream_of(c, year, label, delimiter, arg)))),
        select(pos, year, label, delimiter, arg) matches Some(w) ==> {
            &&& w.category != Category::Text
            &&& eligible(pos, peek(stream_of(w.category, year, label, delimiter, arg)))
            &&& peek(stream_of(w.category, year, label, delimiter, arg)) == Some(w.found)
            &&& eligible(pos, peek(stream_of(other, year, label, delimiter, arg))) ==> {
                let m = stream_of(other, year, label, delimiter, arg)[0];
                m.start > w.found.start || (m.start == w.found.start && rank(other) <= rank(
                    w.category,
                ))
            }
        },
{
    if select(pos, year, label, delimiter, arg) is None {
        assert forall|c: Category|
            !eligible(pos, #[trigger] peek(stream_of(c, year, label, delimiter, arg))) by {
            match c {
                Category::Year => {},
                Category::Label => {},
                Category::Delimiter => {},
                Category::Arg => {},
                Category::Text => {},
            }
        }
    } else {
        let w = select(pos, year, label, delimiter, arg).unwrap();
        assert(eligible(pos, peek(stream_of(w.category, year, label, delimiter, arg))));
    }
}

/// Where a label and a delimiter both start at the scan position and no flag
/// keyword starts there, the delimiter is selected.
pub proof fn lemma_delimiter_beats_label(
    pos: int,
    year: Seq<Match>,
    label: Seq<Match>,
    delimiter: Seq<Match>,
    arg: Seq<Match>,
)
    requires
        eligible(pos, peek(label)),
        eligible(pos, peek(delimiter)),
        label[0].start == pos,
        delimiter[0].start == pos,
        !(eligible(pos, peek(arg)) && arg[0].start == pos),
    ensures
        select(pos, year, label, delimiter, arg) == Some(
            Winner { category: Category::Delimiter, found: delimiter[0] },
        ),
{
}

/// On equal start offsets the later-checked category wins: a head that is
/// eligible and starts at the scan position is selected unless the head of a
/// category of higher rank is eligible and starts there too.
pub proof fn lemma_tie_break(
    pos: int,
    year: Seq<Match>,
    label: Seq<Match>,
    delimiter: Seq<Match>,
    arg: Seq<Match>,
    category: Category,
)
    requires
        eligible(pos, peek(stream_of(category, year, label, delimiter, arg))),
        stream_of(category, year, label, delimiter, arg)[0].start == pos,
        forall|c: Category|
            rank(c) > rank(category) ==> !(eligible(
                pos,
                #[trigger] peek(stream_of(c, year, label, delimiter, arg)),
            ) && stream_of(c, year, label, delimiter, arg)[0].start == pos),
    ensures
        select(pos, year, label, delimiter, arg) == Some(
            Winner { category, found: stream_of(category, year, label, delimiter, arg)[0] },
        ),
{
    if rank(Category::Label) > rank(category) {
        assert(!(eligible(pos, peek(stream_of(Category::Label, year, label, delimiter, arg)))
            && label[0].start == pos));
    }
    if rank(Category::Delimiter) > rank(category) {
        assert(!(eligible(pos, peek(stream_of(Category::Delimiter, year, label, delimiter, arg)))
            && delimiter[0].start == pos));
    }
    if rank(Category::Arg) > rank(category) {
        assert(!(eligible(pos, peek(stream_of(Category::Arg, year, label, delimiter, arg)))
            && arg[0].start == pos));
    }
}

} // verus!
