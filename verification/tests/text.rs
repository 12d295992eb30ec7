use jobsched::text::{chars_of, copy_range, find, read_number, space, split_pieces, split_words};

fn chars(text: &str) -> Vec<char> {
    text.chars().collect()
}

fn strings(parts: Vec<Vec<char>>) -> Vec<String> {
    parts.into_iter().map(|p| p.into_iter().collect()).collect()
}

#[test]
fn white_space_is_what_unicode_calls_white_space() {
    for code in 0..=0x10FFFFu32 {
        if let Some(c) = char::from_u32(code) {
            assert_eq!(space(c), c.is_whitespace(), "U+{:04X}", code);
        }
    }
    for c in [' ', '\t', '\n', '\r', '\u{b}', '\u{c}', '\u{85}', '\u{a0}', '\u{3000}'] {
        assert!(space(c));
    }
    for c in ['a', '0', '*', '\u{0}', '\u{8}', '\u{e}', '\u{1f}', '!', '\u{200b}'] {
        assert!(!space(c));
    }
}

#[test]
fn the_characters_of_a_text_are_its_characters() {
    assert_eq!(chars_of("a\u{e9}\u{1f600} z"), vec!['a', '\u{e9}', '\u{1f600}', ' ', 'z']);
    assert_eq!(chars_of(""), Vec::<char>::new());
}

#[test]
fn words_are_the_runs_between_white_space() {
    assert_eq!(strings(split_words(&chars("  one two\t\tthree\n"))), vec!["one", "two", "three"]);
    assert_eq!(strings(split_words(&chars("single"))), vec!["single"]);
    assert_eq!(split_words(&chars("")).len(), 0);
    assert_eq!(split_words(&chars(" \t \n")).len(), 0);
    assert_eq!(
        strings(split_words(&chars("a\u{a0}b\u{85}c\u{3000}d\u{2009}e"))),
        vec!["a", "b", "c", "d", "e"]
    );
}

#[test]
fn words_are_what_std_splits() {
    for text in ["  -c  'echo hi'\t--flag ", "a\u{a0}b\u{1680}c\u{205f}d", "\u{2028}x\u{2029}", ""] {
        let expected: Vec<String> = text.split_whitespace().map(|w| w.to_string()).collect();
        assert_eq!(strings(split_words(&chars(text))), expected);
    }
}

#[test]
fn pieces_keep_the_empty_ones() {
    assert_eq!(strings(split_pieces(&chars("1,2,3"), ',')), vec!["1", "2", "3"]);
    assert_eq!(strings(split_pieces(&chars(",a,,b,"), ',')), vec!["", "a", "", "b", ""]);
    assert_eq!(strings(split_pieces(&chars(""), ',')), vec![""]);
    assert_eq!(strings(split_pieces(&chars("abc"), ',')), vec!["abc"]);
}

#[test]
fn find_gives_the_first_occurrence_or_the_length() {
    assert_eq!(find(&chars("a-b-c"), '-'), 1);
    assert_eq!(find(&chars("abc"), '-'), 3);
    assert_eq!(find(&chars(""), '-'), 0);
    assert_eq!(find(&chars("-"), '-'), 0);
}

#[test]
fn copy_range_copies_the_range() {
    assert_eq!(copy_range(&chars("hello world"), 6, 11), chars("world"));
    assert_eq!(copy_range(&chars("hello"), 2, 2), Vec::<char>::new());
}

#[test]
fn numbers_are_decimal_digits_up_to_the_limit() {
    assert_eq!(read_number(&chars("0"), 0, 1), Some(0));
    assert_eq!(read_number(&chars("007"), 0, 3), Some(7));
    assert_eq!(read_number(&chars("2024"), 0, 4), Some(2024));
    assert_eq!(read_number(&chars("9999"), 0, 4), Some(9999));
    assert_eq!(read_number(&chars("10000"), 0, 5), None);
    assert_eq!(read_number(&chars("99999999999999999999999"), 0, 23), None);
    assert_eq!(read_number(&chars("00000000000000000000012"), 0, 23), Some(12));
    assert_eq!(read_number(&chars(""), 0, 0), None);
    assert_eq!(read_number(&chars("12a"), 0, 3), None);
    assert_eq!(read_number(&chars("-1"), 0, 2), None);
    assert_eq!(read_number(&chars("x12y"), 1, 3), Some(12));
    assert_eq!(read_number(&chars("\u{661}\u{662}"), 0, 2), None);
}
