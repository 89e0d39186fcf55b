//! The flag spellings that the tokenizer recognizes as keywords.

use crate::text::str_eq;
use vstd::prelude::*;

verus! {

/// A flag in its short and its long spelling.
pub struct Arg<'a>(pub &'a str, pub &'a str);

impl<'a> Arg<'a> {
    /// Whether `other` is one of the two spellings.
    pub fn eq(&self, other: &str) -> (same: bool)
        ensures
            same == (self.0@ == other@ || self.1@ == other@),
    {
        str_eq(self.0, other) || str_eq(self.1, other)
    }
}

/// The flag that sets the year.
pub fn year() -> (flag: Arg<'static>)
    ensures
        flag.0@ == "-y"@,
        flag.1@ == "--year"@,
{
    Arg("-y", "--year")
}

/// The flag that sets the label.
pub fn label() -> (flag: Arg<'static>)
    ensures
        flag.0@ == "-l"@,
        flag.1@ == "--label"@,
{
    Arg("-l", "--label")
}

/// The built-in spellings, in the order in which the keyword pattern lists
/// them.
pub open spec fn flag_catalog() -> Seq<Seq<char>> {
    seq!["-y"@, "--year"@, "-l"@, "--label"@]
}

/// The built-in spellings: both forms of the year flag, then both forms of
/// the label flag.
pub fn all() -> (flags: Vec<&'static str>)
    ensures
        flags@.map_values(|f: &str| f@) == flag_catalog(),
{
    let y = year();
    let l = label();
    let mut flags: Vec<&'static str> = Vec::new();
    flags.push(y.0);
    flags.push(y.1);
    flags.push(l.0);
    flags.push(l.1);
    assert(flags@.map_values(|f: &str| f@) =~= flag_catalog());
    flags
}

} // verus!
