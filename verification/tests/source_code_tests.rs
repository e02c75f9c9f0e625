use hylo_core::lexer::source_code::{ErrorSource, Line, Position, SourceCodeContainer};

fn source(text: &str) -> SourceCodeContainer {
    SourceCodeContainer::from(text.to_string())
}

#[test]
fn every_line_gets_a_line_feed() {
    let sc = source("ab\ncd");
    assert_eq!(sc.total_lines(), 2);
    assert_eq!(sc.total_chars(), 6);
    assert_eq!(sc.get_text(0, 5), Some("ab\ncd\n".to_string()));
}

#[test]
fn empty_source_is_one_line_of_one_line_feed() {
    let sc = source("");
    assert_eq!(sc.total_lines(), 1);
    assert_eq!(sc.total_chars(), 1);
    assert_eq!(sc.char_at(0), Some('\n'));
    assert_eq!(sc.char_at(1), None);
    assert_eq!(sc.get_line_and_column(0), (1, 1));
}

#[test]
fn source_that_ends_with_a_line_feed_has_an_empty_last_line() {
    let sc = source("a\n");
    assert_eq!(sc.total_lines(), 2);
    assert_eq!(sc.total_chars(), 3);
    assert_eq!(sc.get_text(0, 2), Some("a\n\n".to_string()));
    assert_eq!(sc.get_line_and_column(2), (2, 1));
}

#[test]
fn char_at_reads_every_offset_and_nothing_past_the_end() {
    let sc = source("ab\ncd");
    let expected = ['a', 'b', '\n', 'c', 'd', '\n'];
    for (offset, c) in expected.iter().enumerate() {
        assert_eq!(sc.char_at(offset), Some(*c));
    }
    assert_eq!(sc.char_at(6), None);
    assert_eq!(sc.char_at(usize::MAX), None);
}

#[test]
fn get_text_includes_both_ends() {
    let sc = source("hello world");
    assert_eq!(sc.get_text(0, 4), Some("hello".to_string()));
    assert_eq!(sc.get_text(6, 10), Some("world".to_string()));
    assert_eq!(sc.get_text(4, 4), Some("o".to_string()));
    assert_eq!(sc.get_text(11, 11), Some("\n".to_string()));
}

#[test]
fn get_text_crosses_lines() {
    let sc = source("ab\ncd\nef");
    assert_eq!(sc.get_text(1, 6), Some("b\ncd\ne".to_string()));
}

#[test]
fn get_text_refuses_empty_and_outside_ranges() {
    let sc = source("hello");
    assert_eq!(sc.get_text(3, 2), None);
    assert_eq!(sc.get_text(0, 6), None);
    assert_eq!(sc.get_text(6, 6), None);
    assert_eq!(sc.get_text(0, usize::MAX), None);
}

#[test]
fn whole_text_is_the_source_and_one_line_feed() {
    for text in ["a", "let a = 10;", "one\ntwo\nthree", "tail\n", "  \t "] {
        let sc = source(text);
        let total = sc.total_chars();
        assert_eq!(total, text.chars().count() + 1);
        assert_eq!(sc.get_text(0, total - 1), Some(format!("{}\n", text)));
        assert_eq!(sc.get_text(0, total - 2), Some(text.to_string()));
    }
}

#[test]
fn offsets_count_characters_not_bytes() {
    let sc = source("é=1");
    assert_eq!(sc.total_chars(), 4);
    assert_eq!(sc.char_at(0), Some('é'));
    assert_eq!(sc.char_at(1), Some('='));
    assert_eq!(sc.get_text(0, 2), Some("é=1".to_string()));
}

#[test]
fn line_and_column_are_one_based() {
    let sc = source("ab\ncd");
    assert_eq!(sc.get_line_and_column(0), (1, 1));
    assert_eq!(sc.get_line_and_column(1), (1, 2));
    assert_eq!(sc.get_line_and_column(2), (1, 3));
    assert_eq!(sc.get_line_and_column(3), (2, 1));
    assert_eq!(sc.get_line_and_column(4), (2, 2));
    assert_eq!(sc.get_line_and_column(5), (2, 3));
}

#[test]
fn line_and_column_past_the_end_is_the_line_count_and_column_zero() {
    let sc = source("ab\ncd");
    assert_eq!(sc.get_line_and_column(6), (2, 0));
    assert_eq!(sc.get_line_and_column(1000), (2, 0));
}

#[test]
fn line_never_goes_down_and_column_restarts_after_each_line_feed() {
    let text = "first\n\nthird line\n  x";
    let sc = source(text);
    let chars: Vec<char> = format!("{}\n", text).chars().collect();
    let mut previous = (1, 0);
    for offset in 0..sc.total_chars() {
        let (line, column) = sc.get_line_and_column(offset);
        assert!(line >= previous.0);
        let at_line_start = offset == 0 || chars[offset - 1] == '\n';
        assert_eq!(column == 1, at_line_start);
        if at_line_start {
            assert_eq!(line, if offset == 0 { 1 } else { previous.0 + 1 });
        } else {
            assert_eq!((line, column), (previous.0, previous.1 + 1));
        }
        previous = (line, column);
    }
    assert_eq!(previous.0, sc.total_lines());
}

#[test]
fn line_gives_each_line_with_its_offsets() {
    let sc = source("ab\n\ncd");
    let first = sc.line(0);
    assert_eq!(first.line, vec!['a', 'b', '\n']);
    assert_eq!((first.start_pos, first.end_pos), (0, 2));
    let second = sc.line(1);
    assert_eq!(second.line, vec!['\n']);
    assert_eq!((second.start_pos, second.end_pos), (3, 3));
    let third = sc.line(2);
    assert_eq!(third.line, vec!['c', 'd', '\n']);
    assert_eq!((third.start_pos, third.end_pos), (4, 6));
}

#[test]
fn line_positions_are_relative_to_the_line_start() {
    let line = Line { line: vec!['x', 'y', '\n'], start_pos: 10, end_pos: 12 };
    assert_eq!(line.get_relative_pos(10), 0);
    assert_eq!(line.get_relative_pos(12), 2);
    assert_eq!(line.get_char_relative(10), 'x');
    assert_eq!(line.get_char_relative(11), 'y');
    assert_eq!(line.get_char_relative(12), '\n');
}

#[test]
fn error_source_of_one_line_is_trimmed_and_marked() {
    let sc = source("first\n  let x = @;  \nlast");
    let es = sc.get_error_source(16, 16);
    assert_eq!(es.line, "let x = @;");
    assert_eq!((es.mark_start, es.mark_stop), (8, 8));
}

#[test]
fn error_source_joins_the_lines_that_the_span_touches() {
    let sc = source("zero\n  one\ntwo  \nthree");
    let es = sc.get_error_source(8, 12);
    assert_eq!(es.line, "one\ntwo");
    assert_eq!((es.mark_start, es.mark_stop), (1, 5));
}

#[test]
fn error_source_of_a_span_in_leading_whitespace_marks_column_zero() {
    let sc = source("    x");
    let es = sc.get_error_source(1, 2);
    assert_eq!(es.line, "x");
    assert_eq!((es.mark_start, es.mark_stop), (0, 0));
}

#[test]
fn trim_line_moves_the_marks_left() {
    let mut es = ErrorSource { line: "   abc  ".to_string(), mark_start: 4, mark_stop: 5 };
    es.trim_line();
    assert_eq!(es.line, "abc");
    assert_eq!((es.mark_start, es.mark_stop), (1, 2));
}

#[test]
fn trim_line_keeps_the_marks_within_the_text() {
    let mut es = ErrorSource { line: "  ab    ".to_string(), mark_start: 1, mark_stop: 7 };
    es.trim_line();
    assert_eq!(es.line, "ab");
    assert_eq!((es.mark_start, es.mark_stop), (0, 2));
}

#[test]
fn trim_line_leaves_a_text_of_whitespace_as_it_is() {
    let mut es = ErrorSource { line: "  \n ".to_string(), mark_start: 1, mark_stop: 9 };
    es.trim_line();
    assert_eq!(es.line, "  \n ");
    assert_eq!((es.mark_start, es.mark_stop), (1, 4));
}

#[test]
fn trim_line_twice_is_trim_line_once() {
    for (text, start, stop) in [
        ("   abc  ", 4, 5),
        ("  ab    ", 1, 7),
        ("  \n ", 1, 9),
        ("", 3, 4),
        ("x", 0, 0),
        ("\t a b \n", 0, 100),
    ] {
        let mut es = ErrorSource { line: text.to_string(), mark_start: start, mark_stop: stop };
        es.trim_line();
        let once = (es.line.clone(), es.mark_start, es.mark_stop);
        es.trim_line();
        assert_eq!((es.line.clone(), es.mark_start, es.mark_stop), once);
    }
}

#[test]
fn position_is_line_and_column() {
    let sc = source("ab\ncd");
    assert_eq!(sc.position(0), Position { line: 1, column: 1 });
    assert_eq!(sc.position(2), Position { line: 1, column: 3 });
    assert_eq!(sc.position(3), Position { line: 2, column: 1 });
    assert_eq!(sc.position(5), Position { line: 2, column: 3 });
}
