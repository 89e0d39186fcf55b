use filename_tokens::parse::arg::{all, label, year, Arg};
use filename_tokens::args::Args;
use filename_tokens::catalog::{arg_pattern, has_empty_flag, is_year, qualify, to_matches};
use filename_tokens::merge::Match;
use filename_tokens::parse::check_stream;
use filename_tokens::text::{byte_len, bytes_eq, slice, str_eq};

#[test]
fn year_needs_four_digits_and_prefix() {
    assert!(is_year("2010"));
    assert!(is_year("1999"));
    assert!(is_year("1900"));
    assert!(is_year("2099"));
    assert!(!is_year("1776"));
    assert!(!is_year("2100"));
    assert!(!is_year("20100"));
    assert!(!is_year("12010"));
    assert!(!is_year("201"));
    assert!(!is_year(""));
}

#[test]
fn keyword_pattern_lists_each_spelling_in_a_group() {
    assert_eq!(arg_pattern(&vec![]), "");
    assert_eq!(arg_pattern(&vec!["keep"]), "(keep)");
    assert_eq!(arg_pattern(&vec!["keep", "drop"]), "(keep)|(drop)");
    assert_eq!(arg_pattern(&vec!["-y"]), "(\\-y)");
    assert_eq!(arg_pattern(&vec!["a.b", "(c)|"]), "(a\\.b)|(\\(c\\)\\|)");
    assert_eq!(arg_pattern(&all()), "(\\-y)|(\\-\\-year)|(\\-l)|(\\-\\-label)");
}

#[test]
fn built_in_spellings() {
    assert_eq!(all(), vec!["-y", "--year", "-l", "--label"]);
    assert_eq!(year().0, "-y");
    assert_eq!(year().1, "--year");
    assert_eq!(label().0, "-l");
    assert_eq!(label().1, "--label");
}

#[test]
fn flag_equals_either_spelling() {
    let flag = Arg("-y", "--year");
    assert!(flag.eq("-y"));
    assert!(flag.eq("--year"));
    assert!(!flag.eq("-l"));
    assert!(!flag.eq(""));
}

#[test]
fn empty_flag_is_found() {
    assert!(!has_empty_flag(&vec![]));
    assert!(!has_empty_flag(&vec!["-y", "--year"]));
    assert!(has_empty_flag(&vec!["-y", ""]));
    assert!(has_empty_flag(&vec![""]));
}

#[test]
fn digit_runs_become_the_year_stream() {
    let runs = qualify("a2010b123c1999", &vec![(1, 5), (6, 9), (10, 14)]);
    assert_eq!(
        runs,
        vec![
            Match { start: 1, end: 5, qualifies: true },
            Match { start: 6, end: 9, qualifies: false },
            Match { start: 10, end: 14, qualifies: true },
        ]
    );
    // an interval that is no part of the input never qualifies
    assert_eq!(
        qualify("2010", &vec![(0, 9), (3, 1)]),
        vec![
            Match { start: 0, end: 9, qualifies: false },
            Match { start: 3, end: 1, qualifies: false },
        ]
    );
}

#[test]
fn plain_spans_always_qualify() {
    assert_eq!(
        to_matches(&vec![(0, 1), (4, 6)]),
        vec![
            Match { start: 0, end: 1, qualifies: true },
            Match { start: 4, end: 6, qualifies: true },
        ]
    );
    assert_eq!(to_matches(&vec![]), vec![]);
}

#[test]
fn stream_check() {
    let m = |start, end| Match { start, end, qualifies: true };
    assert!(check_stream(&vec![], "abc"));
    assert!(check_stream(&vec![m(0, 1), m(1, 3)], "abc"));
    assert!(!check_stream(&vec![m(0, 0)], "abc"));
    assert!(!check_stream(&vec![m(0, 4)], "abc"));
    assert!(!check_stream(&vec![m(0, 2), m(1, 3)], "abc"));
    assert!(!check_stream(&vec![m(1, 2)], "\u{20ac}"));
    assert!(check_stream(&vec![m(0, 3)], "\u{20ac}"));
}

#[test]
fn slices_and_comparisons() {
    assert_eq!(slice("there2010", 5, 9), "2010");
    assert_eq!(slice("abc", 0, 0), "");
    assert_eq!(slice("abc", 3, 3), "");
    assert_eq!(slice("a\u{e9}b", 1, 3), "\u{e9}");
    assert_eq!(byte_len("a\u{e9}b"), 4);
    assert!(str_eq("abc", "abc"));
    assert!(!str_eq("abc", "abd"));
    assert!(!str_eq("abc", "ab"));
    assert!(str_eq("", ""));
    assert!(bytes_eq(&[1, 2], &[1, 2]));
    assert!(!bytes_eq(&[1, 2], &[2, 1]));
    assert!(!bytes_eq(&[], &[0]));
}

#[test]
fn flag_forms() {
    let flag = filename_tokens::args::year();
    assert_eq!(flag.as_long_primary(), "--year");
    assert_eq!(flag.as_short_primary(), "-y");
    assert_eq!(flag.as_long_modified(), "--Year");
    assert_eq!(flag.as_short_modified(), "-Y");
    let date = filename_tokens::args::date();
    assert_eq!(date.as_long_primary(), "--date");
    assert_eq!(date.as_short_primary(), "-d");
    assert_eq!(date.as_long_modified(), "");
    assert_eq!(date.as_short_modified(), "");
    let label = filename_tokens::args::label();
    assert_eq!(label.as_long_primary(), "--label");
    assert_eq!(label.as_short_modified(), "-L");
}

#[test]
fn modified_forms() {
    let flag = filename_tokens::args::year();
    assert!(flag.is_modified("--Year"));
    assert!(flag.is_modified("-Y"));
    assert!(!flag.is_modified("--year"));
    assert!(!flag.is_modified("-y"));
    assert!(!flag.is_modified(""));
    // a flag without a modified variant holds empty strings there
    assert!(filename_tokens::args::date().is_modified(""));
}

#[test]
fn flag_comparisons() {
    let flag = filename_tokens::args::year();
    assert!(flag == Args("--year", "-y", "--Year", "-Y"));
    assert!(flag != Args("--year", "-y", "--Year", "-X"));
    assert!(flag != filename_tokens::args::label());
    assert!(flag.has_spelling("--year"));
    assert!(flag.has_spelling("-y"));
    assert!(flag.has_spelling("--Year"));
    assert!(flag.has_spelling("-Y"));
    assert!(!flag.has_spelling("--label"));
    let every = filename_tokens::args::all();
    assert_eq!(every.len(), 3);
    assert!(every[0] == filename_tokens::args::year());
    assert!(every[1] == filename_tokens::args::label());
    assert!(every[2] == filename_tokens::args::date());
}
