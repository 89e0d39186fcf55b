//! The command-line flags by which a caller says how a file is renamed: each
//! in a long and a short form, and in a primary and a modified variant.

use crate::text::str_eq;
use vstd::prelude::*;

verus! {

/// The four spellings of one flag: long primary, short primary, long
/// modified, short modified. A flag without a modified variant holds two
/// empty strings there.
#[derive(Clone, Copy, Debug)]
pub struct Args<'a>(pub &'a str, pub &'a str, pub &'a str, pub &'a str);

impl<'a> Args<'a> {
    /// The long spelling of the primary variant.
    pub fn as_long_primary(&self) -> (s: &'a str)
        ensures
            s == self.0,
    {
        self.0
    }

    /// The short spelling of the primary variant.
    pub fn as_short_primary(&self) -> (s: &'a str)
        ensures
            s == self.1,
    {
        self.1
    }

    /// The long spelling of the modified variant.
    pub fn as_long_modified(&self) -> (s: &'a str)
        ensures
            s == self.2,
    {
        self.2
    }

    /// The short spelling of the modified variant.
    pub fn as_short_modified(&self) -> (s: &'a str)
        ensures
            s == self.3,
    {
        self.3
    }

    /// Whether `s` is one of the two spellings of the modified variant.
    pub fn is_modified(&self, s: &str) -> (yes: bool)
        ensures
            yes == (self.2@ == s@ || self.3@ == s@),
    {
        str_eq(self.2, s) || str_eq(self.3, s)
    }

    /// Whether `s` is any of the four spellings.
    pub fn has_spelling(&self, s: &str) -> (yes: bool)
        ensures
            yes == (self.0@ == s@ || self.1@ == s@ || self.2@ == s@ || self.3@ == s@),
    {
        str_eq(self.0, s) || str_eq(self.1, s) || str_eq(self.2, s) || str_eq(self.3, s)
    }
}

impl<'a> PartialEq for Args<'a> {
    fn eq(&self, other: &Self) -> (same: bool) {
        str_eq(self.0, other.0) && str_eq(self.1, other.1) && str_eq(self.2, other.2) && str_eq(
            self.3,
            other.3,
        )
    }
}

impl<'a> vstd::std_specs::cmp::PartialEqSpecImpl for Args<'a> {
    open spec fn obeys_eq_spec() -> bool {
        true
    }

    open spec fn eq_spec(&self, other: &Self) -> bool {
        self.0@ == other.0@ && self.1@ == other.1@ && self.2@ == other.2@ && self.3@ == other.3@
    }
}

/// The flag for the year.
pub open spec fn year_flag() -> Args<'static> {
    Args("--year", "-y", "--Year", "-Y")
}

/// The flag for the label.
pub open spec fn label_flag() -> Args<'static> {
    Args("--label", "-l", "--Label", "-L")
}

/// The flag for the date, which has no modified variant.
pub open spec fn date_flag() -> Args<'static> {
    Args("--date", "-d", "", "")
}

/// The flag for the year.
pub fn year() -> (flag: Args<'static>)
    ensures
        flag == year_flag(),
{
    Args("--year", "-y", "--Year", "-Y")
}

/// The flag for the label.
pub fn label() -> (flag: Args<'static>)
    ensures
        flag == label_flag(),
{
    Args("--label", "-l", "--Label", "-L")
}

/// The flag for the date.
pub fn date() -> (flag: Args<'static>)
    ensures
        flag == date_flag(),
{
    Args("--date", "-d", "", "")
}

/// All flags: year, label, date.
pub fn all() -> (flags: Vec<Args<'static>>)
    ensures
        flags@ == seq![year_flag(), label_flag(), date_flag()],
{
    let mut flags: Vec<Args<'static>> = Vec::new();
    flags.push(year());
    flags.push(label());
    flags.push(date());
    assert(flags@ =~= seq![year_flag(), label_flag(), date_flag()]);
    flags
}

} // verus!
