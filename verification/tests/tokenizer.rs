use filename_tokens::merge::{Category, Match};
use filename_tokens::parse::{tokenize, ConfigurationError, Parsed, ReStrIterator};

fn at(start: usize, end: usize) -> Match {
    Match { start, end, qualifies: true }
}

fn drain<'a>(mut scanner: ReStrIterator<'a>) -> Vec<Parsed<'a>> {
    let mut out = Vec::new();
    while let Some(token) = scanner.next() {
        out.push(token);
    }
    out
}

#[test]
fn text_year_delimiter_text_label() {
    assert_eq!(
        tokenize("there2010.echoLABEL"),
        Ok(vec![
            Parsed::Text("there"),
            Parsed::Year("2010"),
            Parsed::Delimiter("."),
            Parsed::Text("echo"),
            Parsed::Label("LABEL"),
        ])
    );
}

#[test]
fn empty_input_has_no_tokens() {
    assert_eq!(tokenize(""), Ok(vec![]));
    let mut scanner = ReStrIterator::new("").unwrap();
    assert_eq!(scanner.next(), None);
    assert_eq!(scanner.next(), None);
    assert_eq!(scanner.position(), 0);
}

#[test]
fn four_digits_with_year_prefix_are_a_year() {
    assert_eq!(tokenize("1999"), Ok(vec![Parsed::Year("1999")]));
    assert_eq!(tokenize("2010"), Ok(vec![Parsed::Year("2010")]));
}

#[test]
fn five_digits_are_text() {
    assert_eq!(tokenize("12345"), Ok(vec![Parsed::Text("12345")]));
}

#[test]
fn four_digits_without_year_prefix_are_text() {
    assert_eq!(tokenize("1776"), Ok(vec![Parsed::Text("1776")]));
}

#[test]
fn single_upper_case_letters_are_text() {
    assert_eq!(
        tokenize("A-B"),
        Ok(vec![Parsed::Text("A"), Parsed::Delimiter("-"), Parsed::Text("B")])
    );
}

#[test]
fn digits_that_do_not_qualify_are_covered_by_text() {
    assert_eq!(
        tokenize("12345.AB"),
        Ok(vec![Parsed::Text("12345"), Parsed::Delimiter("."), Parsed::Label("AB")])
    );
}

#[test]
fn flag_keyword_wins_over_delimiter_at_same_offset() {
    assert_eq!(tokenize("--year"), Ok(vec![Parsed::Arg("--year")]));
    assert_eq!(tokenize("-l"), Ok(vec![Parsed::Arg("-l")]));
}

#[test]
fn match_left_behind_keeps_its_stream_waiting() {
    // The hyphen inside the keyword stays at the head of the delimiter
    // stream, so the blank after it is covered by text.
    assert_eq!(
        tokenize("-y 2010"),
        Ok(vec![Parsed::Arg("-y"), Parsed::Text(" "), Parsed::Year("2010")])
    );
}

#[test]
fn digits_left_behind_keep_the_year_stream_waiting() {
    // The run that does not qualify is never consumed, so it stays at the
    // head of the year stream and later runs are covered by text.
    assert_eq!(
        tokenize("12 2010"),
        Ok(vec![Parsed::Text("12"), Parsed::Delimiter(" "), Parsed::Text("2010")])
    );
}

#[test]
fn without_flags_the_keyword_category_is_left_out() {
    let scanner = ReStrIterator::with_flags("--year", &vec![]).unwrap();
    assert_eq!(
        drain(scanner),
        vec![Parsed::Delimiter("-"), Parsed::Delimiter("-"), Parsed::Text("year")]
    );
}

#[test]
fn custom_flags_are_recognized() {
    let scanner = ReStrIterator::with_flags("a.keep.b", &vec!["keep", "drop"]).unwrap();
    assert_eq!(
        drain(scanner),
        vec![
            Parsed::Text("a"),
            Parsed::Delimiter("."),
            Parsed::Arg("keep"),
            Parsed::Delimiter("."),
            Parsed::Text("b"),
        ]
    );
}

#[test]
fn empty_flag_is_rejected() {
    assert_eq!(
        ReStrIterator::with_flags("abc", &vec!["-y", ""]).err(),
        Some(ConfigurationError::EmptyFlag)
    );
}

#[test]
fn pattern_that_the_engine_refuses_is_rejected() {
    // a spelling so long that the compiled pattern exceeds the engine's size limit
    let long = "a".repeat(8_000_000);
    assert_eq!(
        ReStrIterator::with_flags("abc", &vec![long.as_str()]).err(),
        Some(ConfigurationError::InvalidPattern)
    );
}

#[test]
fn flags_are_matched_literally() {
    let scanner = ReStrIterator::with_flags("a(b", &vec!["("]).unwrap();
    assert_eq!(drain(scanner), vec![Parsed::Text("a"), Parsed::Arg("("), Parsed::Text("b")]);
    let scanner = ReStrIterator::with_flags("aaa*", &vec!["a*"]).unwrap();
    assert_eq!(drain(scanner), vec![Parsed::Text("aa"), Parsed::Arg("a*")]);
    let scanner = ReStrIterator::with_flags("axb a.b", &vec!["a.b"]).unwrap();
    assert_eq!(
        drain(scanner),
        vec![Parsed::Text("axb"), Parsed::Delimiter(" "), Parsed::Arg("a.b")]
    );
}

#[test]
fn delimiter_wins_over_label_at_same_offset() {
    let scanner =
        ReStrIterator::from_streams("AB", vec![], vec![at(0, 2)], vec![at(0, 1)], vec![]).unwrap();
    assert_eq!(drain(scanner), vec![Parsed::Delimiter("A"), Parsed::Text("B")]);
}

#[test]
fn label_wins_over_year_at_same_offset() {
    let scanner =
        ReStrIterator::from_streams("2010", vec![at(0, 4)], vec![at(0, 2)], vec![], vec![])
            .unwrap();
    assert_eq!(drain(scanner), vec![Parsed::Label("20"), Parsed::Text("10")]);
}

#[test]
fn flag_keyword_wins_over_all_at_same_offset() {
    let scanner = ReStrIterator::from_streams(
        "abcd",
        vec![at(0, 1)],
        vec![at(0, 2)],
        vec![at(0, 3)],
        vec![at(0, 4)],
    )
    .unwrap();
    assert_eq!(drain(scanner), vec![Parsed::Arg("abcd")]);
}

#[test]
fn earlier_start_wins_over_rank() {
    let scanner =
        ReStrIterator::from_streams("abcd", vec![at(1, 2)], vec![], vec![], vec![at(2, 4)])
            .unwrap();
    assert_eq!(
        drain(scanner),
        vec![Parsed::Text("a"), Parsed::Year("b"), Parsed::Arg("cd")]
    );
}

#[test]
fn match_that_does_not_qualify_is_never_selected() {
    let run = Match { start: 0, end: 2, qualifies: false };
    let scanner =
        ReStrIterator::from_streams("abcd", vec![run, at(2, 4)], vec![], vec![], vec![]).unwrap();
    assert_eq!(drain(scanner), vec![Parsed::Text("abcd")]);
}

#[test]
fn winner_is_reported_before_the_step() {
    let scanner = ReStrIterator::from_streams("abcd", vec![], vec![at(2, 4)], vec![], vec![])
        .unwrap();
    let w = scanner.winner().unwrap();
    assert_eq!(w.found, at(2, 4));
    assert_eq!(w.category, Category::Label);
    let none = ReStrIterator::from_streams("abcd", vec![], vec![], vec![], vec![]).unwrap();
    assert_eq!(none.winner(), None);
}

#[test]
fn invalid_streams_are_rejected() {
    let bad = Some(ConfigurationError::InvalidMatch);
    // empty match
    assert_eq!(
        ReStrIterator::from_streams("abc", vec![at(1, 1)], vec![], vec![], vec![]).err(),
        bad
    );
    // match that leaves the input
    assert_eq!(
        ReStrIterator::from_streams("abc", vec![], vec![at(2, 4)], vec![], vec![]).err(),
        bad
    );
    // match that splits a character
    assert_eq!(
        ReStrIterator::from_streams("\u{e9}", vec![], vec![], vec![at(0, 1)], vec![]).err(),
        bad
    );
    // overlapping matches
    assert_eq!(
        ReStrIterator::from_streams("abc", vec![], vec![], vec![], vec![at(0, 2), at(1, 3)]).err(),
        bad
    );
    // matches out of order
    assert_eq!(
        ReStrIterator::from_streams("abc", vec![at(2, 3), at(0, 1)], vec![], vec![], vec![]).err(),
        bad
    );
    // adjacent matches are fine
    assert!(
        ReStrIterator::from_streams("abc", vec![at(0, 1), at(1, 3)], vec![], vec![], vec![])
            .is_ok()
    );
}

#[test]
fn characters_of_several_bytes_stay_whole() {
    assert_eq!(
        tokenize("\u{e9}t\u{e9}2010"),
        Ok(vec![Parsed::Text("\u{e9}t\u{e9}"), Parsed::Year("2010")])
    );
    assert_eq!(
        tokenize("a\u{a0}b"),
        Ok(vec![Parsed::Text("a"), Parsed::Delimiter("\u{a0}"), Parsed::Text("b")])
    );
}

#[test]
fn tokens_reproduce_the_input() {
    for input in [
        "there2010.echoLABEL",
        "My Holiday - 1999.JPG",
        "--label.ABC 2020-x",
        "\u{e9}t\u{e9} 2010",
        "12345",
        "....",
        "",
    ] {
        let tokens = tokenize(input).unwrap();
        let mut joined = String::new();
        for t in &tokens {
            assert!(!t.as_str().is_empty());
            joined.push_str(t.as_str());
        }
        assert_eq!(joined, input);
    }
}

#[test]
fn tokenizing_twice_gives_the_same_tokens() {
    for input in ["there2010.echoLABEL", "--year 1999 AB.cd", ""] {
        assert_eq!(tokenize(input), tokenize(input));
    }
}

#[test]
fn position_grows_with_every_token() {
    let input = "My Holiday - 1999.JPG";
    let mut scanner = ReStrIterator::new(input).unwrap();
    assert_eq!(scanner.input(), input);
    let mut before = scanner.position();
    assert_eq!(before, 0);
    while let Some(token) = scanner.next() {
        let now = scanner.position();
        assert!(now > before);
        assert_eq!(now - before, token.as_str().len());
        before = now;
    }
    assert_eq!(before, input.len());
    assert_eq!(scanner.next(), None);
    assert_eq!(scanner.position(), input.len());
}

#[test]
fn collect_tokens_gives_what_is_left() {
    let mut scanner = ReStrIterator::new("there2010.echo").unwrap();
    assert_eq!(scanner.next(), Some(Parsed::Text("there")));
    assert_eq!(
        scanner.collect_tokens(),
        vec![Parsed::Year("2010"), Parsed::Delimiter("."), Parsed::Text("echo")]
    );
    assert_eq!(scanner.collect_tokens(), vec![]);
}

#[test]
fn mixed_file_name() {
    assert_eq!(
        tokenize("My Holiday - 1999.JPG"),
        Ok(vec![
            Parsed::Text("My"),
            Parsed::Delimiter(" "),
            Parsed::Text("Holiday"),
            Parsed::Delimiter(" "),
            Parsed::Delimiter("-"),
            Parsed::Delimiter(" "),
            Parsed::Year("1999"),
            Parsed::Delimiter("."),
            Parsed::Label("JPG"),
        ])
    );
}

#[test]
fn token_kind_and_text() {
    assert_eq!(Parsed::of(Category::Year, "2010"), Parsed::Year("2010"));
    assert_eq!(Parsed::of(Category::Text, "x"), Parsed::Text("x"));
    assert_eq!(Parsed::of(Category::Label, "AB"), Parsed::Label("AB"));
    assert_eq!(Parsed::of(Category::Delimiter, "."), Parsed::Delimiter("."));
    assert_eq!(Parsed::of(Category::Arg, "-y"), Parsed::Arg("-y"));
    assert_eq!(Parsed::Label("AB").kind(), Category::Label);
    assert_eq!(Parsed::Label("AB").as_str(), "AB");
}
