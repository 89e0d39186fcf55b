//! Splits a file name into a gap-free sequence of classified spans: years,
//! labels, delimiters, flag keywords and plain text.

pub mod args;
pub mod catalog;
pub mod merge;
pub mod parse;
pub mod pattern;
pub mod scan;
pub mod text;
