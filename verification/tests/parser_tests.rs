use hylo_core::hylo_error::kind::ErrorKind;
use hylo_core::hylo_error::report::{Error, Span};
use hylo_core::lexer::lexer::Lexer;
use hylo_core::lexer::source_code::SourceCodeContainer;
use hylo_core::compiler::HyloCompiler;
use hylo_core::lexer::tokens::{Operator, Punctuation, Token, TokenContainer};
use hylo_core::parser::components::{BinaryOp, Expr, Literal, UnaryOp};
use hylo_core::parser::parser::Parser;

fn parse(text: &str) -> Result<Expr, Error> {
    let source = SourceCodeContainer::from(text.to_string());
    let tokens = Lexer::parse(&source, "test.hy").expect("the text has no lexical error");
    Parser::new(tokens, "test.hy").parse_program()
}

fn at(start: usize, stop: usize) -> Span {
    Span { start, stop }
}

fn num(value: i64, start: usize, stop: usize) -> Box<Expr> {
    Box::new(Expr::Literal(Literal::Int(value, at(start, stop))))
}

fn ident(text: &str, start: usize, stop: usize) -> Box<Expr> {
    Box::new(Expr::Literal(Literal::Word(text.to_string(), at(start, stop))))
}

#[test]
fn multiplication_binds_tighter_than_addition() {
    let expected = Expr::Binary {
        left: num(1, 0, 0),
        op: BinaryOp::Add(at(2, 2)),
        right: Box::new(Expr::Binary {
            left: num(2, 4, 4),
            op: BinaryOp::Mul(at(6, 6)),
            right: num(3, 8, 8),
        }),
    };
    assert_eq!(parse("1 + 2 * 3"), Ok(expected));
}

#[test]
fn missing_closing_paren_is_a_syntax_error_with_a_note() {
    let error = parse("f(1, 2").unwrap_err();
    assert_eq!(error.kind, ErrorKind::SyntaxError);
    assert_eq!(error.span, at(1, 1));
    assert_eq!(error.notes.len(), 1);
    assert!(error.notes[0].contains("')'"));
    assert_eq!(error.file_name, Some("test.hy".to_string()));
}

#[test]
fn terms_are_left_associative() {
    let expected = Expr::Binary {
        left: Box::new(Expr::Binary {
            left: num(1, 0, 0),
            op: BinaryOp::Sub(at(2, 2)),
            right: num(2, 4, 4),
        }),
        op: BinaryOp::Sub(at(6, 6)),
        right: num(3, 8, 8),
    };
    assert_eq!(parse("1 - 2 - 3"), Ok(expected));
}

#[test]
fn factors_are_left_associative() {
    let expected = Expr::Binary {
        left: Box::new(Expr::Binary {
            left: num(8, 0, 0),
            op: BinaryOp::Div(at(2, 2)),
            right: num(4, 4, 4),
        }),
        op: BinaryOp::Mul(at(6, 6)),
        right: num(2, 8, 8),
    };
    assert_eq!(parse("8 / 4 * 2"), Ok(expected));
}

#[test]
fn unary_operators_nest_to_the_right() {
    let expected = Expr::Unary {
        op: UnaryOp::Negative(at(0, 0)),
        expr: Box::new(Expr::Unary {
            op: UnaryOp::Not(at(2, 2)),
            expr: ident("x", 3, 3),
        }),
    };
    assert_eq!(parse("- !x"), Ok(expected));
}

#[test]
fn two_minus_signs_negate_twice() {
    let expected = Expr::Unary {
        op: UnaryOp::Negative(at(0, 0)),
        expr: Box::new(Expr::Unary {
            op: UnaryOp::Negative(at(2, 2)),
            expr: ident("x", 4, 4),
        }),
    };
    assert_eq!(parse("- - x"), Ok(expected));
}

#[test]
fn double_minus_is_one_invalid_operator() {
    let source = SourceCodeContainer::from("--x".to_string());
    let error = Lexer::parse(&source, "test.hy").unwrap_err();
    assert_eq!(error.kind, ErrorKind::SyntaxError);
    assert_eq!(error.span, at(0, 1));
}

#[test]
fn call_with_two_arguments() {
    let expected = Expr::Call {
        callee: ident("f", 0, 0),
        lparen: at(1, 1),
        args: vec![*num(1, 2, 2), *num(2, 5, 5)],
        rparen: at(6, 6),
    };
    assert_eq!(parse("f(1, 2)"), Ok(expected));
}

#[test]
fn call_without_arguments_then_call_again() {
    let expected = Expr::Call {
        callee: Box::new(Expr::Call {
            callee: ident("f", 0, 0),
            lparen: at(1, 1),
            args: vec![],
            rparen: at(2, 2),
        }),
        lparen: at(3, 3),
        args: vec![*ident("a", 4, 4)],
        rparen: at(5, 5),
    };
    assert_eq!(parse("f()(a)"), Ok(expected));
}

#[test]
fn empty_input_parses_to_the_end_of_input_expression() {
    assert_eq!(parse(""), Ok(Expr::EOL));
    assert_eq!(parse("   \n  "), Ok(Expr::EOL));
}

#[test]
fn trailing_operator_takes_the_end_of_input_as_its_right_side() {
    let expected = Expr::Binary {
        left: num(1, 0, 0),
        op: BinaryOp::Add(at(2, 2)),
        right: Box::new(Expr::EOL),
    };
    assert_eq!(parse("1 +"), Ok(expected));
}

#[test]
fn operator_at_the_start_of_an_expression_is_unexpected() {
    let error = parse("* 2").unwrap_err();
    assert_eq!(error.kind, ErrorKind::SyntaxError);
    assert_eq!(error.span, at(0, 0));
    assert_eq!(error.message, "Unexpected token: Operator(Multiply)");
    assert!(error.notes.is_empty());
}

#[test]
fn punctuation_at_the_start_of_an_expression_is_unexpected() {
    let error = parse("1 + ;").unwrap_err();
    assert_eq!(error.kind, ErrorKind::SyntaxError);
    assert_eq!(error.span, at(4, 4));
    assert_eq!(error.message, "Unexpected token: Punctuation(Semicolon)");
}

#[test]
fn parser_stops_after_one_expression() {
    let source = SourceCodeContainer::from("1 2".to_string());
    let tokens = Lexer::parse(&source, "test.hy").unwrap();
    let mut parser = Parser::new(tokens, "test.hy");
    assert_eq!(parser.position(), 0);
    assert_eq!(parser.parse_program(), Ok(*num(1, 0, 0)));
    assert_eq!(parser.position(), 1);
    assert_eq!(parser.parse_program(), Ok(*num(2, 2, 2)));
    assert_eq!(parser.position(), 2);
    assert_eq!(parser.parse_program(), Ok(Expr::EOL));
    assert_eq!(parser.position(), 2);
}

fn token(token: Token, start: usize, stop: usize) -> TokenContainer {
    TokenContainer { token, span: at(start, stop) }
}

#[test]
fn member_access_takes_a_whole_expression() {
    // a . b + c
    let tokens = vec![
        token(Token::Word("a".to_string()), 0, 0),
        token(Token::Operator(Operator::Dot), 1, 1),
        token(Token::Word("b".to_string()), 2, 2),
        token(Token::Operator(Operator::Plus), 3, 3),
        token(Token::Word("c".to_string()), 4, 4),
    ];
    let expected = Expr::Member {
        obj: ident("a", 0, 0),
        dot: at(1, 1),
        member: Box::new(Expr::Binary {
            left: ident("b", 2, 2),
            op: BinaryOp::Add(at(3, 3)),
            right: ident("c", 4, 4),
        }),
    };
    let mut parser = Parser::new(tokens, "test.hy");
    assert_eq!(parser.parse_program(), Ok(expected));
    assert_eq!(parser.position(), 5);
}

#[test]
fn member_access_after_a_call() {
    // f ( ) . x
    let tokens = vec![
        token(Token::Word("f".to_string()), 0, 0),
        token(Token::Punctuation(Punctuation::LParen), 1, 1),
        token(Token::Punctuation(Punctuation::RParen), 2, 2),
        token(Token::Operator(Operator::Dot), 3, 3),
        token(Token::Word("x".to_string()), 4, 4),
    ];
    let expected = Expr::Member {
        obj: Box::new(Expr::Call {
            callee: ident("f", 0, 0),
            lparen: at(1, 1),
            args: vec![],
            rparen: at(2, 2),
        }),
        dot: at(3, 3),
        member: ident("x", 4, 4),
    };
    assert_eq!(Parser::new(tokens, "test.hy").parse_program(), Ok(expected));
}

#[test]
fn every_kind_of_literal_is_a_primary() {
    assert_eq!(parse("42"), Ok(*num(42, 0, 1)));
    assert_eq!(parse("1.5"), Ok(Expr::Literal(Literal::Float("1.5".to_string(), at(0, 2)))));
    assert_eq!(parse("'hi'"), Ok(Expr::Literal(Literal::String("hi".to_string(), at(0, 3)))));
    assert_eq!(parse("true"), Ok(Expr::Literal(Literal::Bool(true, at(0, 3)))));
    assert_eq!(parse("false"), Ok(Expr::Literal(Literal::Bool(false, at(0, 4)))));
    assert_eq!(parse("name"), Ok(*ident("name", 0, 3)));
}

#[test]
fn arguments_are_whole_expressions() {
    let expected = Expr::Call {
        callee: ident("f", 0, 0),
        lparen: at(1, 1),
        args: vec![
            Expr::Binary {
                left: num(1, 2, 2),
                op: BinaryOp::Add(at(4, 4)),
                right: num(2, 6, 6),
            },
            Expr::Call {
                callee: ident("g", 9, 9),
                lparen: at(10, 10),
                args: vec![*ident("x", 11, 11)],
                rparen: at(12, 12),
            },
        ],
        rparen: at(13, 13),
    };
    assert_eq!(parse("f(1 + 2, g(x))"), Ok(expected));
}

#[test]
fn unary_binds_tighter_than_factors_and_looser_than_calls() {
    let expected = Expr::Binary {
        left: Box::new(Expr::Unary {
            op: UnaryOp::Negative(at(0, 0)),
            expr: Box::new(Expr::Call {
                callee: ident("f", 1, 1),
                lparen: at(2, 2),
                args: vec![],
                rparen: at(3, 3),
            }),
        }),
        op: BinaryOp::Mul(at(5, 5)),
        right: Box::new(Expr::Unary { op: UnaryOp::Not(at(7, 7)), expr: ident("b", 8, 8) }),
    };
    assert_eq!(parse("-f() * !b"), Ok(expected));
}

#[test]
fn call_that_is_never_closed_fails_at_its_opening_paren() {
    for (text, lparen) in [("f(", 1), ("f(1", 1), ("f(1,", 1), ("f(1 2)", 1), ("g(f(1)", 1), ("g(1, f(2", 6)] {
        let error = parse(text).unwrap_err();
        assert_eq!(error.kind, ErrorKind::SyntaxError, "{}", text);
        assert_eq!(error.span, at(lparen, lparen), "{}", text);
        assert_eq!(error.message, "Expected clossing ')' of the functional call");
        assert_eq!(
            error.notes,
            vec!["Add a closing ')' before the end of the functional call".to_string()]
        );
    }
}

#[test]
fn failure_inside_an_argument_is_reported_as_it_is() {
    let error = parse("f(1, *)").unwrap_err();
    assert_eq!(error.span, at(5, 5));
    assert_eq!(error.message, "Unexpected token: Operator(Multiply)");
}

#[test]
fn closing_paren_without_a_call_is_unexpected() {
    let error = parse(")").unwrap_err();
    assert_eq!(error.span, at(0, 0));
    assert_eq!(error.message, "Unexpected token: Punctuation(RParen)");
}

#[test]
fn compiler_runs_both_stages() {
    let compiler = HyloCompiler::new();
    let expected = Expr::Binary {
        left: num(1, 0, 0),
        op: BinaryOp::Add(at(2, 2)),
        right: Box::new(Expr::Binary {
            left: num(2, 4, 4),
            op: BinaryOp::Mul(at(6, 6)),
            right: num(3, 8, 8),
        }),
    };
    assert_eq!(compiler.compile_stdin("1 + 2 * 3".to_string()), Ok(expected));
    assert_eq!(compiler.compile_stdin(String::new()), Ok(Expr::EOL));
}

#[test]
fn compiler_reports_failures_under_the_name_of_standard_input() {
    let compiler = HyloCompiler::new();
    let lexical = compiler.compile_stdin("print('Hello World);".to_string()).unwrap_err();
    assert_eq!(lexical.kind, ErrorKind::StringNotTerminated);
    assert_eq!(lexical.span, at(6, 20));
    assert_eq!(lexical.file_name, Some("<stdin>".to_string()));
    let syntactic = compiler.compile_stdin("f(1, 2".to_string()).unwrap_err();
    assert_eq!(syntactic.kind, ErrorKind::SyntaxError);
    assert_eq!(syntactic.span, at(1, 1));
    assert_eq!(syntactic.file_name, Some("<stdin>".to_string()));
}

/// Whether `expr` is a tree that the grammar level `level` can give
/// (0 postfix, 1 unary, 2 factor, 3 term), and every tree in it likewise.
fn binds(expr: &Expr, level: u8) -> bool {
    match expr {
        Expr::Literal(_) | Expr::EOL => true,
        Expr::Call { callee, args, .. } => binds(callee, 0) && args.iter().all(|arg| binds(arg, 3)),
        Expr::Member { obj, member, .. } => binds(obj, 0) && binds(member, 3),
        Expr::Unary { expr, .. } => level >= 1 && binds(expr, 1),
        Expr::Binary { left, op, right } => match op {
            BinaryOp::Add(_) | BinaryOp::Sub(_) => level >= 3 && binds(left, 3) && binds(right, 2),
            BinaryOp::Mul(_) | BinaryOp::Div(_) => level >= 2 && binds(left, 2) && binds(right, 1),
            _ => false,
        },
    }
}

#[test]
fn parsed_trees_follow_precedence_and_group_to_the_left() {
    for text in [
        "1 + 2 * 3",
        "1 * 2 + 3",
        "1 - 2 - 3 - 4",
        "8 / 4 / 2 * 3",
        "- a * - b + ! c / d",
        "f(1 + 2, -x * y)(z) - g() * 2",
        "a + b * c - d / e + f",
        "1 +",
        "",
    ] {
        let tree = parse(text).unwrap();
        assert!(binds(&tree, 3), "{}", text);
    }
    let not_a_parse = Expr::Binary {
        left: num(1, 0, 0),
        op: BinaryOp::Mul(at(1, 1)),
        right: Box::new(Expr::Binary {
            left: num(2, 2, 2),
            op: BinaryOp::Add(at(3, 3)),
            right: num(3, 4, 4),
        }),
    };
    assert!(!binds(&not_a_parse, 3));
}
