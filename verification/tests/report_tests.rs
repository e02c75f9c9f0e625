use hylo_core::hylo_error::kind::ErrorKind;
use hylo_core::hylo_error::report::{Error, ErrorSourceContainer, Span};
use hylo_core::lexer::lexer::Lexer;
use hylo_core::lexer::source_code::SourceCodeContainer;

fn source(text: &str) -> SourceCodeContainer {
    SourceCodeContainer::from(text.to_string())
}

#[test]
fn kinds_have_codes_names_and_exit_codes() {
    assert_eq!(ErrorKind::SyntaxError.code(), "E0001");
    assert_eq!(ErrorKind::StringNotTerminated.code(), "E0002");
    assert_eq!(ErrorKind::SyntaxError.as_str(), "SyntaxError");
    assert_eq!(ErrorKind::StringNotTerminated.as_str(), "StringNotTerminated");
    assert_eq!(ErrorKind::SyntaxError.exit_code(), 1);
    assert_eq!(ErrorKind::StringNotTerminated.exit_code(), 1);
}

#[test]
fn new_error_has_no_message_and_no_notes() {
    let e = Error::new(ErrorKind::SyntaxError, Span { start: 3, stop: 7 }, Some("main.hy"));
    assert_eq!(e.kind, ErrorKind::SyntaxError);
    assert_eq!(e.span, Span { start: 3, stop: 7 });
    assert_eq!(e.file_name, Some("main.hy".to_string()));
    assert_eq!(e.message, "");
    assert!(e.notes.is_empty());
    let unnamed = Error::new(ErrorKind::StringNotTerminated, Span { start: 0, stop: 0 }, None);
    assert_eq!(unnamed.file_name, None);
}

#[test]
fn messages_are_joined_and_notes_are_kept_in_order() {
    let e = Error::new(ErrorKind::SyntaxError, Span { start: 0, stop: 0 }, None)
        .add_msg("first")
        .add_note("one")
        .add_msg(", second")
        .inject_msg("!")
        .add_note("two")
        .add_note("three");
    assert_eq!(e.message, "first, second!");
    assert_eq!(e.notes, vec!["one".to_string(), "two".to_string(), "three".to_string()]);
}

#[test]
fn cloned_error_equals_the_error() {
    let e = Error::new(ErrorKind::SyntaxError, Span { start: 1, stop: 2 }, Some("a.hy"))
        .add_msg("message")
        .add_note("one")
        .add_note("two");
    assert_eq!(e.clone(), e);
}

#[test]
fn excerpt_of_one_line_is_trimmed_at_both_ends() {
    let sc = source("first\n  let x = @;  \nlast");
    let excerpt = ErrorSourceContainer::from(&sc, 16, 16);
    assert_eq!(excerpt.lines, vec!["let x = @;".to_string()]);
    assert_eq!(excerpt.start, (1, 8));
    assert_eq!(excerpt.end, (2, 8));
}

#[test]
fn excerpt_that_reaches_the_last_line_has_no_line_after_it() {
    let sc = source("one\ntwo");
    let excerpt = ErrorSourceContainer::from(&sc, 4, 6);
    assert_eq!(excerpt.lines, vec!["two".to_string()]);
    assert_eq!(excerpt.start, (1, 0));
    assert_eq!(excerpt.end, (usize::MAX, 2));
}

#[test]
fn excerpt_of_several_lines_trims_each_line_in_its_way() {
    let sc = source("zero\n  one  \n  two  \n  three  \nfour");
    let excerpt = ErrorSourceContainer::from(&sc, 7, 24);
    assert_eq!(
        excerpt.lines,
        vec!["one  \n".to_string(), "two".to_string(), "  three".to_string()]
    );
    assert_eq!(excerpt.start, (1, 0));
    assert_eq!(excerpt.end, (4, 7));
}

#[test]
fn trim_of_no_lines_changes_nothing() {
    let mut excerpt = ErrorSourceContainer { lines: vec![], start: (3, 4), end: (5, 6) };
    excerpt.trim();
    assert!(excerpt.lines.is_empty());
    assert_eq!(excerpt.start, (3, 4));
    assert_eq!(excerpt.end, (5, 6));
}

#[test]
fn trim_of_a_line_of_whitespace_leaves_an_empty_line_and_column_zero() {
    let mut excerpt =
        ErrorSourceContainer { lines: vec!["  \t\n".to_string()], start: (0, 2), end: (1, 3) };
    excerpt.trim();
    assert_eq!(excerpt.lines, vec![String::new()]);
    assert_eq!(excerpt.start, (0, 0));
    assert_eq!(excerpt.end, (1, 0));
}

#[test]
fn trim_keeps_the_columns_within_the_trimmed_line() {
    let mut excerpt =
        ErrorSourceContainer { lines: vec!["  ab   \n".to_string()], start: (0, 1), end: (1, 6) };
    excerpt.trim();
    assert_eq!(excerpt.lines, vec!["ab".to_string()]);
    assert_eq!(excerpt.start, (0, 0));
    assert_eq!(excerpt.end, (1, 2));
}

#[test]
fn trim_twice_is_trim_once() {
    let cases: Vec<(Vec<&str>, (usize, usize), (usize, usize))> = vec![
        (vec!["  ab   \n"], (0, 1), (1, 6)),
        (vec!["  \t\n"], (0, 2), (1, 3)),
        (vec!["  one  \n", "  two  \n", "  three  \n"], (1, 4), (4, 21)),
        (vec!["one\n", " \n"], (0, 9), (usize::MAX, 9)),
        (vec!["   \n", "x\n"], (0, 1), (2, 0)),
        (vec![], (3, 4), (5, 6)),
    ];
    for (lines, start, end) in cases {
        let mut excerpt = ErrorSourceContainer {
            lines: lines.iter().map(|l| l.to_string()).collect(),
            start,
            end,
        };
        excerpt.trim();
        let once = (excerpt.lines.clone(), excerpt.start, excerpt.end);
        excerpt.trim();
        assert_eq!((excerpt.lines.clone(), excerpt.start, excerpt.end), once);
    }
}

#[test]
fn rendering_without_source_names_file_and_code() {
    let e = Error::new(ErrorKind::StringNotTerminated, Span { start: 0, stop: 4 }, None)
        .add_msg("the string is not terminated")
        .add_note("close it")
        .add_note("or remove it");
    assert_eq!(
        e.pretty(None),
        "❌ ERROR [E0002]: StringNotTerminated\n\
         File: <unknown> | Code: E0002\n   \
            |\n   \
            | ❗ the string is not terminated\n   \
            | 💡 close it\n   \
            | 💡 or remove it\n"
    );
}

#[test]
fn rendering_without_source_uses_the_file_name() {
    let e = Error::new(ErrorKind::SyntaxError, Span { start: 0, stop: 0 }, Some("main.hy"));
    assert_eq!(
        e.pretty(None),
        "❌ ERROR [E0001]: SyntaxError\nFile: main.hy | Code: E0001\n   |\n   | ❗ \n"
    );
}

#[test]
fn rendering_with_source_underlines_the_span() {
    let sc = source("first\n  let x = @;\nlast");
    let e = Lexer::parse(&sc, "test.hy").unwrap_err();
    assert_eq!(e.span, Span { start: 16, stop: 16 });
    assert_eq!(
        e.pretty(Some(&sc)),
        "❌ ERROR [E0001]: SyntaxError\n   \
            --> test.hy:2:11\n    \
             |\n  \
           2 | let x = @;\n    \
             |         ^ the token is invalid\n"
    );
}

#[test]
fn underline_is_as_wide_as_the_span() {
    let sc = source("let value = 1;");
    let e = Error::new(ErrorKind::SyntaxError, Span { start: 4, stop: 8 }, Some("test.hy"))
        .add_msg("unknown name")
        .add_note("declare it first");
    assert_eq!(
        e.pretty(Some(&sc)),
        "❌ ERROR [E0001]: SyntaxError\n   \
            --> test.hy:1:5\n    \
             |\n  \
           1 | let value = 1;\n    \
             |     ^^^^^ unknown name\n\
         💡 Hint: declare it first\n"
    );
}

#[test]
fn rendering_of_several_lines_underlines_below_the_first() {
    let sc = source("a\n  b  \nc");
    let e = Error::new(ErrorKind::SyntaxError, Span { start: 0, stop: 8 }, None)
        .add_msg("too long")
        .add_note("shorten it");
    assert_eq!(
        e.pretty(Some(&sc)),
        "❌ ERROR [E0001]: SyntaxError\n   \
            --> <unknown>:1:1\n    \
             |\n  \
           1 | a\n\n    \
             | ^^ too long\n  \
           2 | b\n  \
           3 | c\n\
         💡 Hint: shorten it\n"
    );
}

#[test]
fn line_numbers_are_right_aligned_to_three_columns() {
    let mut text = String::new();
    for _ in 0..1233 {
        text.push('\n');
    }
    text.push('x');
    let sc = source(&text);
    let at = |line: usize| Error::new(ErrorKind::SyntaxError, Span { start: line - 1, stop: line - 1 }, None);
    assert!(at(7).pretty(Some(&sc)).contains("\n  7 | \n"));
    assert!(at(42).pretty(Some(&sc)).contains("\n 42 | \n"));
    assert!(at(123).pretty(Some(&sc)).contains("\n123 | \n"));
    assert!(at(1234).pretty(Some(&sc)).contains("\n1234 | x\n"));
    assert!(at(1234).pretty(Some(&sc)).contains("<unknown>:1234:1\n"));
}

#[test]
fn short_rendering_joins_the_excerpt() {
    let sc = source("first\n  let x = @;\nlast");
    let e = Lexer::parse(&sc, "test.hy").unwrap_err().add_note("remove it");
    assert_eq!(
        e.prettify(&sc),
        "Error: SyntaxError\n   \
            --> test.hy:2:11\n    \
             |\n  \
           2 | let x = @;\n    \
             |         ^ the token is invalid\n\
         note: remove it\n"
    );
}

#[test]
fn short_rendering_underlines_a_wider_span() {
    let sc = source("let value = 1;");
    let e = Error::new(ErrorKind::SyntaxError, Span { start: 4, stop: 8 }, None).add_msg("m");
    assert_eq!(
        e.prettify(&sc),
        "Error: SyntaxError\n   --> <unknown>:1:5\n    |\n  1 | let value = 1;\n    |     ^^^^^ m\n"
    );
}
