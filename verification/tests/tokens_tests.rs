use hylo_core::hylo_error::kind::ErrorKind;
use hylo_core::hylo_error::report::Span;
use hylo_core::lexer::lexer::LexerError;
use hylo_core::lexer::tokens::{Operator, Punctuation, Token, TokenContainer};
use hylo_core::parser::parser::ParseError;

const OPERATORS: [(Operator, &str, &str); 16] = [
    (Operator::Plus, "+", "Plus"),
    (Operator::Minus, "-", "Minus"),
    (Operator::Multiply, "*", "Multiply"),
    (Operator::Divide, "/", "Divide"),
    (Operator::Equals, "=", "Equals"),
    (Operator::Exclamation, "!", "Exclamation"),
    (Operator::GreaterThan, ">", "GreaterThan"),
    (Operator::LessThan, "<", "LessThan"),
    (Operator::IsEqual, "==", "IsEqual"),
    (Operator::IsNotEqual, "!=", "IsNotEqual"),
    (Operator::GreaterThanOrEqual, ">=", "GreaterThanOrEqual"),
    (Operator::LessThanOrEqual, "<=", "LessThanOrEqual"),
    (Operator::And, "&&", "And"),
    (Operator::Or, "||", "Or"),
    (Operator::Dot, ".", "Dot"),
    (Operator::Arrow, "->", "Arrow"),
];

const PUNCTUATION: [(Punctuation, char, &str); 8] = [
    (Punctuation::Semicolon, ';', "Semicolon"),
    (Punctuation::Comma, ',', "Comma"),
    (Punctuation::LParen, '(', "LParen"),
    (Punctuation::RParen, ')', "RParen"),
    (Punctuation::LBrace, '{', "LBrace"),
    (Punctuation::RBrace, '}', "RBrace"),
    (Punctuation::LBracket, '[', "LBracket"),
    (Punctuation::RBracket, ']', "RBracket"),
];

#[test]
fn operators_have_symbols_and_names() {
    for (op, symbol, name) in OPERATORS {
        assert_eq!(op.as_symbol(), symbol);
        assert_eq!(op.name(), name);
        assert_eq!(format!("{:?}", op), name);
    }
}

#[test]
fn operators_are_found_by_their_symbols() {
    for (op, symbol, _) in OPERATORS {
        assert_eq!(Operator::from_symbol(symbol), Some(op));
    }
}

#[test]
fn other_symbols_are_no_operators() {
    for symbol in ["", "&", "|", "=-", "--", "++", "=>", "<>", "===", "a", "..", "- ", "+=", "!!"] {
        assert_eq!(Operator::from_symbol(symbol), None, "{:?}", symbol);
    }
}

#[test]
fn punctuation_marks_have_symbols_and_names() {
    for (mark, c, name) in PUNCTUATION {
        assert_eq!(mark.as_symbol(), c.to_string());
        assert_eq!(mark.name(), name);
        assert_eq!(format!("{:?}", mark), name);
        assert_eq!(Punctuation::from_char(c), Some(mark));
    }
}

#[test]
fn other_characters_are_no_punctuation() {
    for c in ['a', '1', ' ', '.', ':', '+', '<', '"', '\n'] {
        assert_eq!(Punctuation::from_char(c), None);
    }
}

#[test]
fn same_compares_kind_and_content() {
    let tokens = vec![
        Token::Int(1),
        Token::Int(2),
        Token::Float("1".to_string()),
        Token::String("1".to_string()),
        Token::Word("1".to_string()),
        Token::Word("true".to_string()),
        Token::Boolean(true),
        Token::Boolean(false),
        Token::Operator(Operator::Plus),
        Token::Operator(Operator::Minus),
        Token::Punctuation(Punctuation::Comma),
        Token::Punctuation(Punctuation::Semicolon),
    ];
    for (i, a) in tokens.iter().enumerate() {
        for (j, b) in tokens.iter().enumerate() {
            assert_eq!(a.same(b), i == j);
            assert_eq!(a.same(b), a == b);
        }
    }
}

#[test]
fn cloned_tokens_equal_the_tokens() {
    let container = TokenContainer {
        token: Token::String("text".to_string()),
        span: Span { start: 3, stop: 8 },
    };
    assert_eq!(container.clone(), container);
    assert_eq!(Token::Float("1.5".to_string()).clone(), Token::Float("1.5".to_string()));
    assert_eq!(Token::Int(-4).clone(), Token::Int(-4));
}

#[test]
fn tokenizer_failures_are_reported_with_kind_message_and_span() {
    let cases = [
        (
            LexerError::StringNotTerminated { start: 1, stop: 9 },
            ErrorKind::StringNotTerminated,
            "the string is not terminated",
        ),
        (LexerError::InvalidInteger { start: 1, stop: 9 }, ErrorKind::SyntaxError, "integer is not valid"),
        (LexerError::InvalidFloat { start: 1, stop: 9 }, ErrorKind::SyntaxError, "float is not valid"),
        (
            LexerError::InvalidOperator { start: 1, stop: 9 },
            ErrorKind::SyntaxError,
            "the operator is invalid",
        ),
        (LexerError::InvalidToken { start: 1, stop: 9 }, ErrorKind::SyntaxError, "the token is invalid"),
    ];
    for (failure, kind, message) in cases {
        let error = failure.to_error("lib.hy");
        assert_eq!(error.kind, kind);
        assert_eq!(error.span, Span { start: 1, stop: 9 });
        assert_eq!(error.file_name, Some("lib.hy".to_string()));
        assert_eq!(error.message, message);
        assert!(error.notes.is_empty());
    }
}

#[test]
fn parser_failures_are_reported_with_kind_message_and_span() {
    let span = Span { start: 2, stop: 3 };
    let unclosed = ParseError::UnclosedCall { lparen: span }.to_error("lib.hy");
    assert_eq!(unclosed.kind, ErrorKind::SyntaxError);
    assert_eq!(unclosed.span, span);
    assert_eq!(unclosed.file_name, Some("lib.hy".to_string()));
    assert_eq!(unclosed.message, "Expected clossing ')' of the functional call");
    assert_eq!(
        unclosed.notes,
        vec!["Add a closing ')' before the end of the functional call".to_string()]
    );
    for (op, _, _) in OPERATORS {
        let error = ParseError::UnexpectedOperator { operator: op, span }.to_error("lib.hy");
        assert_eq!(error.kind, ErrorKind::SyntaxError);
        assert_eq!(error.span, span);
        assert_eq!(error.message, format!("Unexpected token: {:?}", Token::Operator(op)));
        assert!(error.notes.is_empty());
    }
    for (mark, _, _) in PUNCTUATION {
        let error = ParseError::UnexpectedPunctuation { punctuation: mark, span }.to_error("lib.hy");
        assert_eq!(error.message, format!("Unexpected token: {:?}", Token::Punctuation(mark)));
    }
}
