use hylo_core::text::{
    char_is_digit, check_float_literal, first_non_whitespace, last_non_whitespace_end,
    parse_decimal, push_decimal, push_repeated, same_text, shift_column, string_of, to_chars,
};

fn chars(text: &str) -> Vec<char> {
    text.chars().collect()
}

#[test]
fn to_chars_gives_the_characters_in_order() {
    assert_eq!(to_chars(""), Vec::<char>::new());
    assert_eq!(to_chars("aé💡\n"), vec!['a', 'é', '💡', '\n']);
}

#[test]
fn string_of_takes_a_range_of_characters() {
    let v = chars("hello world");
    assert_eq!(string_of(&v, 0, 5), "hello");
    assert_eq!(string_of(&v, 6, 11), "world");
    assert_eq!(string_of(&v, 3, 3), "");
    assert_eq!(string_of(&v, 0, 11), "hello world");
}

#[test]
fn only_the_ten_ascii_digits_are_digits() {
    for c in '0'..='9' {
        assert!(char_is_digit(c));
    }
    for c in ['/', ':', 'a', ' ', '.', '٣', '５'] {
        assert!(!char_is_digit(c));
    }
}

#[test]
fn parse_decimal_agrees_with_the_standard_parser() {
    for text in [
        "0",
        "7",
        "42",
        "0042",
        "",
        "12a",
        "a12",
        "1.5",
        " 1",
        "١٢",
        "9223372036854775807",
        "9223372036854775808",
        "9223372036854775810",
        "18446744073709551616",
        "000000000000000000000000009223372036854775807",
        "99999999999999999999999999999999",
    ] {
        assert_eq!(parse_decimal(&chars(text)), text.parse::<i64>().ok(), "{:?}", text);
    }
}

#[test]
fn float_literal_is_digits_around_one_point() {
    for text in ["1.5", "0.25", "3.", ".5", "10.0", "123456789.987654321"] {
        assert!(check_float_literal(&chars(text)), "{:?}", text);
    }
    for text in ["", ".", "1", "12", "1.2.3", "1..2", "..", "1.a", "a.1", "-1.5", "1.5e3", " 1.5"] {
        assert!(!check_float_literal(&chars(text)), "{:?}", text);
    }
}

#[test]
fn same_text_compares_character_by_character() {
    assert!(same_text("", ""));
    assert!(same_text("true", "true"));
    assert!(!same_text("true", "True"));
    assert!(!same_text("true", "tru"));
    assert!(!same_text("tru", "true"));
    assert!(!same_text("é", "e"));
}

#[test]
fn whitespace_is_measured_from_both_ends() {
    let cases = [
        ("", 0, 0),
        ("abc", 0, 3),
        ("  abc", 2, 5),
        ("abc  ", 0, 3),
        (" \t a b \n", 3, 6),
        ("   ", 3, 0),
        ("\n", 1, 0),
        ("\u{a0}x\u{2003}", 1, 2),
    ];
    for (text, lead, end) in cases {
        let v = chars(text);
        assert_eq!(first_non_whitespace(&v), lead, "{:?}", text);
        assert_eq!(last_non_whitespace_end(&v), end, "{:?}", text);
    }
}

#[test]
fn push_repeated_adds_the_character_that_many_times() {
    let mut s = "ab".to_string();
    push_repeated(&mut s, '^', 3);
    assert_eq!(s, "ab^^^");
    push_repeated(&mut s, ' ', 0);
    assert_eq!(s, "ab^^^");
}

#[test]
fn push_decimal_writes_the_digits() {
    for n in [0usize, 1, 9, 10, 11, 99, 100, 101, 12345, 1000000, usize::MAX] {
        let mut s = "n=".to_string();
        push_decimal(&mut s, n);
        assert_eq!(s, format!("n={}", n));
    }
}

#[test]
fn shift_column_moves_left_and_stays_within_the_line() {
    assert_eq!(shift_column(8, 2, 10), 6);
    assert_eq!(shift_column(2, 2, 10), 0);
    assert_eq!(shift_column(1, 2, 10), 0);
    assert_eq!(shift_column(20, 2, 10), 10);
    assert_eq!(shift_column(5, 0, 3), 3);
    assert_eq!(shift_column(0, 0, 0), 0);
}
