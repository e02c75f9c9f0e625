//! The expression parser: recursive descent over the tokens, one grammar
//! level per function, from the loosest binding to the tightest.
//!
//! ```text
//! primary   := Int | Float | String | Boolean | Word
//! postfix   := primary ( '(' (expr (',' expr)*)? ')' | '.' expr )*
//! unary     := ('-' | '!') unary | postfix
//! factor    := unary (('*' | '/') unary)*
//! term      := factor (('+' | '-') factor)*
//! expr      := term
//! ```
//!
//! What the parser answers is defined on the views of the tokens, by
//! [`parse_expr_spec`] and the functions under it; the executable functions
//! are proved to compute it.
use vstd::prelude::*;
use vstd::string::StringExecFns;
use crate::hylo_error::kind::ErrorKind;
use crate::hylo_error::report::{Error, ErrorView, Span};
use crate::lexer::tokens::{
    token_views, Operator, Punctuation, Token, TokenContainer, TokenContainerView, TokenView,
};
use super::components::{BinaryOp, Expr, ExprView, Literal, LiteralView, UnaryOp, expr_views};

verus! {

/// Why the parser stopped.
#[derive(Debug, Clone, Copy, PartialEq, Eq, Structural)]
pub enum ParseError {
    /// The argument list opened at `lparen` is not closed.
    UnclosedCall { lparen: Span },
    /// An operator stands where an expression must start.
    UnexpectedOperator { operator: Operator, span: Span },
    /// A punctuation mark stands where an expression must start.
    UnexpectedPunctuation { punctuation: Punctuation, span: Span },
}

impl ParseError {
    /// The diagnostic that reports this failure for the file `file_name`.
    pub open spec fn report(self, file_name: Seq<char>) -> ErrorView {
        match self {
            ParseError::UnclosedCall { lparen } => ErrorView::new(
                ErrorKind::SyntaxError,
                lparen,
                Some(file_name),
            ).add_msg("Expected clossing ')' of the functional call"@).add_note(
                "Add a closing ')' before the end of the functional call"@,
            ),
            ParseError::UnexpectedOperator { operator, span } => ErrorView::new(
                ErrorKind::SyntaxError,
                span,
                Some(file_name),
            ).add_msg("Unexpected token: Operator("@ + operator.spec_name() + ")"@),
            ParseError::UnexpectedPunctuation { punctuation, span } => ErrorView::new(
                ErrorKind::SyntaxError,
                span,
                Some(file_name),
            ).add_msg("Unexpected token: Punctuation("@ + punctuation.spec_name() + ")"@),
        }
    }

    /// Builds the diagnostic that reports this failure for the file
    /// `file_name`.
    pub fn to_error(&self, file_name: &str) -> (e: Error)
        ensures
            e@ == self.report(file_name@),
    {
        match *self {
            ParseError::UnclosedCall { lparen } => Error::new(
                ErrorKind::SyntaxError,
                lparen,
                Some(file_name),
            ).add_msg("Expected clossing ')' of the functional call").add_note(
                "Add a closing ')' before the end of the functional call",
            ),
            ParseError::UnexpectedOperator { operator, span } => {
                let mut message = String::from_str("Unexpected token: Operator(");
                message.append(operator.name());
                message.append(")");
                Error::new(ErrorKind::SyntaxError, span, Some(file_name)).add_msg(
                    message.as_str(),
                )
            },
            ParseError::UnexpectedPunctuation { punctuation, span } => {
                let mut message = String::from_str("Unexpected token: Punctuation(");
                message.append(punctuation.name());
                message.append(")");
                Error::new(ErrorKind::SyntaxError, span, Some(file_name)).add_msg(
                    message.as_str(),
                )
            },
        }
    }
}

/// An expression and the offset of the first token after it.
pub type Parsed = Result<(ExprView, int), ParseError>;

/// The token at `pos`, if there is one.
pub open spec fn token_at(tokens: Seq<TokenContainerView>, pos: int) -> Option<TokenView> {
    if 0 <= pos < tokens.len() {
        Some(tokens[pos].token)
    } else {
        None
    }
}

/// `next` where it lies at or after `floor` and not after the end of the
/// tokens, as every offset that a parsing function answers does (see
/// [`lemma_parse_advances`]); else `floor`.
pub open spec fn onward(tokens: Seq<TokenContainerView>, floor: int, next: int) -> int {
    if floor <= next <= tokens.len() {
        next
    } else {
        floor
    }
}

/// The binary operator that the token `token` read at `span` writes at the
/// level of terms.
pub open spec fn term_operator(token: Option<TokenView>, span: Span) -> Option<BinaryOp> {
    match token {
        Some(TokenView::Operator(Operator::Plus)) => Some(BinaryOp::Add(span)),
        Some(TokenView::Operator(Operator::Minus)) => Some(BinaryOp::Sub(span)),
        _ => None,
    }
}

/// The binary operator that the token `token` read at `span` writes at the
/// level of factors.
pub open spec fn factor_operator(token: Option<TokenView>, span: Span) -> Option<BinaryOp> {
    match token {
        Some(TokenView::Operator(Operator::Multiply)) => Some(BinaryOp::Mul(span)),
        Some(TokenView::Operator(Operator::Divide)) => Some(BinaryOp::Div(span)),
        _ => None,
    }
}

/// The unary operator that the token `token` read at `span` writes.
pub open spec fn unary_operator(token: Option<TokenView>, span: Span) -> Option<UnaryOp> {
    match token {
        Some(TokenView::Operator(Operator::Minus)) => Some(UnaryOp::Negative(span)),
        Some(TokenView::Operator(Operator::Exclamation)) => Some(UnaryOp::Not(span)),
        _ => None,
    }
}

/// `primary`: one literal token. Where the tokens have run out, the answer
/// is `EOL` and nothing is consumed. An operator or a punctuation mark is a
/// failure.
pub open spec fn parse_primary_spec(tokens: Seq<TokenContainerView>, pos: int) -> Parsed {
    if 0 <= pos < tokens.len() {
        let span = tokens[pos].span;
        match tokens[pos].token {
            TokenView::Int(value) => Ok((ExprView::Literal(LiteralView::Int(value, span)), pos + 1)),
            TokenView::Float(text) => Ok(
                (ExprView::Literal(LiteralView::Float(text, span)), pos + 1),
            ),
            TokenView::String(text) => Ok(
                (ExprView::Literal(LiteralView::String(text, span)), pos + 1),
            ),
            TokenView::Boolean(value) => Ok(
                (ExprView::Literal(LiteralView::Bool(value, span)), pos + 1),
            ),
            TokenView::Word(text) => Ok((ExprView::Literal(LiteralView::Word(text, span)), pos + 1)),
            TokenView::Operator(operator) => Err(ParseError::UnexpectedOperator { operator, span }),
            TokenView::Punctuation(punctuation) => Err(
                ParseError::UnexpectedPunctuation { punctuation, span },
            ),
        }
    } else {
        Ok((ExprView::EOL, pos))
    }
}

/// `expr`: a term.
pub open spec fn parse_expr_spec(tokens: Seq<TokenContainerView>, pos: int) -> Parsed
    decreases tokens.len() - pos, 9int,
{
    parse_term_spec(tokens, pos)
}

/// `term`: a factor, then what [`term_rest`] reads after it.
pub open spec fn parse_term_spec(tokens: Seq<TokenContainerView>, pos: int) -> Parsed
    decreases tokens.len() - pos, 8int,
{
    match parse_factor_spec(tokens, pos) {
        Ok((left, next)) => term_rest(tokens, onward(tokens, pos, next), left),
        Err(e) => Err(e),
    }
}

/// The rest of a term whose part before `pos` is `left`: while `+` or `-`
/// follows, the factor after it becomes the right side of a new node whose
/// left side is all that was read before.
pub open spec fn term_rest(tokens: Seq<TokenContainerView>, pos: int, left: ExprView) -> Parsed
    decreases tokens.len() - pos, 7int,
{
    if 0 <= pos < tokens.len() {
        match term_operator(token_at(tokens, pos), tokens[pos].span) {
            Some(op) => match parse_factor_spec(tokens, pos + 1) {
                Ok((right, next)) => term_rest(
                    tokens,
                    onward(tokens, pos + 1, next),
                    ExprView::Binary { left: Box::new(left), op, right: Box::new(right) },
                ),
                Err(e) => Err(e),
            },
            None => Ok((left, pos)),
        }
    } else {
        Ok((left, pos))
    }
}

/// `factor`: a unary expression, then what [`factor_rest`] reads after it.
pub open spec fn parse_factor_spec(tokens: Seq<TokenContainerView>, pos: int) -> Parsed
    decreases tokens.len() - pos, 6int,
{
    match parse_unary_spec(tokens, pos) {
        Ok((left, next)) => factor_rest(tokens, onward(tokens, pos, next), left),
        Err(e) => Err(e),
    }
}

/// The rest of a factor whose part before `pos` is `left`: while `*` or `/`
/// follows, the unary expression after it becomes the right side of a new
/// node whose left side is all that was read before.
pub open spec fn factor_rest(tokens: Seq<TokenContainerView>, pos: int, left: ExprView) -> Parsed
    decreases tokens.len() - pos, 5int,
{
    if 0 <= pos < tokens.len() {
        match factor_operator(token_at(tokens, pos), tokens[pos].span) {
            Some(op) => match parse_unary_spec(tokens, pos + 1) {
                Ok((right, next)) => factor_rest(
                    tokens,
                    onward(tokens, pos + 1, next),
                    ExprView::Binary { left: Box::new(left), op, right: Box::new(right) },
                ),
                Err(e) => Err(e),
            },
            None => Ok((left, pos)),
        }
    } else {
        Ok((left, pos))
    }
}

/// `unary`: `-` or `!` before a unary expression, or a postfix expression.
pub open spec fn parse_unary_spec(tokens: Seq<TokenContainerView>, pos: int) -> Parsed
    decreases tokens.len() - pos, 4int,
{
    if 0 <= pos < tokens.len() {
        match unary_operator(token_at(tokens, pos), tokens[pos].span) {
            Some(op) => match parse_unary_spec(tokens, pos + 1) {
                Ok((operand, next)) => Ok((ExprView::Unary { op, expr: Box::new(operand) }, next)),
                Err(e) => Err(e),
            },
            None => parse_postfix_spec(tokens, pos),
        }
    } else {
        parse_postfix_spec(tokens, pos)
    }
}

/// `postfix`: a primary, then what [`postfix_rest`] reads after it.
pub open spec fn parse_postfix_spec(tokens: Seq<TokenContainerView>, pos: int) -> Parsed
    decreases tokens.len() - pos, 3int,
{
    match parse_primary_spec(tokens, pos) {
        Ok((left, next)) => postfix_rest(tokens, onward(tokens, pos, next), left),
        Err(e) => Err(e),
    }
}

/// The rest of a postfix expression whose part before `pos` is `left`. After
/// `(` come the arguments and `)`, and the call goes on as the new left side;
/// a missing `)` is a failure at the `(`. After `.` comes a whole expression,
/// and the member access goes on as the new left side.
pub open spec fn postfix_rest(tokens: Seq<TokenContainerView>, pos: int, left: ExprView) -> Parsed
    decreases tokens.len() - pos, 2int,
{
    if token_at(tokens, pos) == Some(TokenView::Punctuation(Punctuation::LParen)) {
        let lparen = tokens[pos].span;
        match call_args(tokens, pos + 1) {
            Ok((args, at)) => {
                let close = onward(tokens, pos + 1, at);
                if token_at(tokens, close) == Some(TokenView::Punctuation(Punctuation::RParen)) {
                    postfix_rest(
                        tokens,
                        close + 1,
                        ExprView::Call {
                            callee: Box::new(left),
                            lparen,
                            args,
                            rparen: tokens[close].span,
                        },
                    )
                } else {
                    Err(ParseError::UnclosedCall { lparen })
                }
            },
            Err(e) => Err(e),
        }
    } else if token_at(tokens, pos) == Some(TokenView::Operator(Operator::Dot)) {
        match parse_expr_spec(tokens, pos + 1) {
            Ok((member, next)) => postfix_rest(
                tokens,
                onward(tokens, pos + 1, next),
                ExprView::Member {
                    obj: Box::new(left),
                    dot: tokens[pos].span,
                    member: Box::new(member),
                },
            ),
            Err(e) => Err(e),
        }
    } else {
        Ok((left, pos))
    }
}

/// The arguments of a call, from the token after its `(` on, which stands at
/// `pos`: none if `)` stands there (and none past the end of the tokens),
/// else one expression and what [`more_args`] reads after it. The offset
/// answered is that of the token after the last argument.
pub open spec fn call_args(tokens: Seq<TokenContainerView>, pos: int) -> Result<
    (Seq<ExprView>, int),
    ParseError,
>
    decreases tokens.len() - pos + 1, 1int,
{
    if token_at(tokens, pos) == Some(TokenView::Punctuation(Punctuation::RParen)) || pos
        > tokens.len() {
        Ok((Seq::empty(), pos))
    } else {
        match parse_expr_spec(tokens, pos) {
            Ok((arg, next)) => more_args(tokens, onward(tokens, pos, next), seq![arg]),
            Err(e) => Err(e),
        }
    }
}

/// The rest of the arguments of a call whose arguments before `pos` are
/// `args`: as long as `,` follows, one more expression.
pub open spec fn more_args(tokens: Seq<TokenContainerView>, pos: int, args: Seq<ExprView>) -> Result<
    (Seq<ExprView>, int),
    ParseError,
>
    decreases tokens.len() - pos, 0int,
{
    if token_at(tokens, pos) == Some(TokenView::Punctuation(Punctuation::Comma)) {
        match parse_expr_spec(tokens, pos + 1) {
            Ok((arg, next)) => more_args(tokens, onward(tokens, pos + 1, next), args.push(arg)),
            Err(e) => Err(e),
        }
    } else {
        Ok((args, pos))
    }
}

/// Parsing never goes back and never goes past the end: the offset that a
/// parsing function answers lies at or after the offset it started from and
/// within the tokens, so that [`onward`] never changes it.
pub proof fn lemma_parse_advances(tokens: Seq<TokenContainerView>, pos: int)
    requires
        0 <= pos <= tokens.len(),
    ensures
        parse_expr_spec(tokens, pos) matches Ok((_, next)) ==> pos <= next <= tokens.len(),
    decreases tokens.len() - pos, 9int,
{
    lemma_term_advances(tokens, pos);
}

proof fn lemma_term_advances(tokens: Seq<TokenContainerView>, pos: int)
    requires
        0 <= pos <= tokens.len(),
    ensures
        parse_term_spec(tokens, pos) matches Ok((_, next)) ==> pos <= next <= tokens.len(),
    decreases tokens.len() - pos, 8int,
{
    lemma_factor_advances(tokens, pos);
    match parse_factor_spec(tokens, pos) {
        Ok((left, next)) => lemma_term_rest_advances(tokens, next, left),
        Err(_) => {},
    }
}

proof fn lemma_term_rest_advances(tokens: Seq<TokenContainerView>, pos: int, left: ExprView)
    requires
        0 <= pos <= tokens.len(),
    ensures
        term_rest(tokens, pos, left) matches Ok((_, next)) ==> pos <= next <= tokens.len(),
    decreases tokens.len() - pos, 7int,
{
    if pos < tokens.len() {
        match term_operator(token_at(tokens, pos), tokens[pos].span) {
            Some(op) => {
                lemma_factor_advances(tokens, pos + 1);
                match parse_factor_spec(tokens, pos + 1) {
                    Ok((right, next)) => lemma_term_rest_advances(
                        tokens,
                        next,
                        ExprView::Binary { left: Box::new(left), op, right: Box::new(right) },
                    ),
                    Err(_) => {},
                }
            },
            None => {},
        }
    }
}

proof fn lemma_factor_advances(tokens: Seq<TokenContainerView>, pos: int)
    requires
        0 <= pos <= tokens.len(),
    ensures
        parse_factor_spec(tokens, pos) matches Ok((_, next)) ==> pos <= next <= tokens.len(),
    decreases tokens.len() - pos, 6int,
{
    lemma_unary_advances(tokens, pos);
    match parse_unary_spec(tokens, pos) {
        Ok((left, next)) => lemma_factor_rest_advances(tokens, next, left),
        Err(_) => {},
    }
}

proof fn lemma_factor_rest_advances(tokens: Seq<TokenContainerView>, pos: int, left: ExprView)
    requires
        0 <= pos <= tokens.len(),
    ensures
        factor_rest(tokens, pos, left) matches Ok((_, next)) ==> pos <= next <= tokens.len(),
    decreases tokens.len() - pos, 5int,
{
    if pos < tokens.len() {
        match factor_operator(token_at(tokens, pos), tokens[pos].span) {
            Some(op) => {
                lemma_unary_advances(tokens, pos + 1);
                match parse_unary_spec(tokens, pos + 1) {
                    Ok((right, next)) => lemma_factor_rest_advances(
                        tokens,
                        next,
                        ExprView::Binary { left: Box::new(left), op, right: Box::new(right) },
                    ),
                    Err(_) => {},
                }
            },
            None => {},
        }
    }
}

proof fn lemma_unary_advances(tokens: Seq<TokenContainerView>, pos: int)
    requires
        0 <= pos <= tokens.len(),
    ensures
        parse_unary_spec(tokens, pos) matches Ok((_, next)) ==> pos <= next <= tokens.len(),
    decreases tokens.len() - pos, 4int,
{
    if pos < tokens.len() && unary_operator(token_at(tokens, pos), tokens[pos].span) is Some {
        lemma_unary_advances(tokens, pos + 1);
    } else {
        lemma_postfix_advances(tokens, pos);
    }
}

proof fn lemma_postfix_advances(tokens: Seq<TokenContainerView>, pos: int)
    requires
        0 <= pos <= tokens.len(),
    ensures
        parse_postfix_spec(tokens, pos) matches Ok((_, next)) ==> pos <= next <= tokens.len(),
    decreases tokens.len() - pos, 3int,
{
    match parse_primary_spec(tokens, pos) {
        Ok((left, next)) => lemma_postfix_rest_advances(tokens, next, left),
        Err(_) => {},
    }
}

proof fn lemma_postfix_rest_advances(tokens: Seq<TokenContainerView>, pos: int, left: ExprView)
    requires
        0 <= pos <= tokens.len(),
    ensures
        postfix_rest(tokens, pos, left) matches Ok((_, next)) ==> pos <= next <= tokens.len(),
    decreases tokens.len() - pos, 2int,
{
    if token_at(tokens, pos) == Some(TokenView::Punctuation(Punctuation::LParen)) {
        lemma_call_args_advances(tokens, pos + 1);
        match call_args(tokens, pos + 1) {
            Ok((args, at)) => {
                if token_at(tokens, at) == Some(TokenView::Punctuation(Punctuation::RParen)) {
                    lemma_postfix_rest_advances(
                        tokens,
                        at + 1,
                        ExprView::Call {
                            callee: Box::new(left),
                            lparen: tokens[pos].span,
                            args,
                            rparen: tokens[at].span,
                        },
                    );
                }
            },
            Err(_) => {},
        }
    } else if token_at(tokens, pos) == Some(TokenView::Operator(Operator::Dot)) {
        lemma_parse_advances(tokens, pos + 1);
        match parse_expr_spec(tokens, pos + 1) {
            Ok((member, next)) => lemma_postfix_rest_advances(
                tokens,
                next,
                ExprView::Member {
                    obj: Box::new(left),
                    dot: tokens[pos].span,
                    member: Box::new(member),
                },
            ),
            Err(_) => {},
        }
    }
}

proof fn lemma_call_args_advances(tokens: Seq<TokenContainerView>, pos: int)
    requires
        0 <= pos <= tokens.len(),
    ensures
        call_args(tokens, pos) matches Ok((_, next)) ==> pos <= next <= tokens.len(),
    decreases tokens.len() - pos + 1, 1int,
{
    if token_at(tokens, pos) != Some(TokenView::Punctuation(Punctuation::RParen)) {
        lemma_parse_advances(tokens, pos);
        match parse_expr_spec(tokens, pos) {
            Ok((arg, next)) => lemma_more_args_advances(tokens, next, seq![arg]),
            Err(_) => {},
        }
    }
}

proof fn lemma_more_args_advances(
    tokens: Seq<TokenContainerView>,
    pos: int,
    args: Seq<ExprView>,
)
    requires
        0 <= pos <= tokens.len(),
    ensures
        more_args(tokens, pos, args) matches Ok((_, next)) ==> pos <= next <= tokens.len(),
    decreases tokens.len() - pos, 0int,
{
    if token_at(tokens, pos) == Some(TokenView::Punctuation(Punctuation::Comma)) {
        lemma_parse_advances(tokens, pos + 1);
        match parse_expr_spec(tokens, pos + 1) {
            Ok((arg, next)) => lemma_more_args_advances(tokens, next, args.push(arg)),
            Err(_) => {},
        }
    }
}

/// The level of terms, which binds loosest. The levels are numbered from the
/// tightest up: postfix expressions, unary expressions, factors, terms.
pub open spec fn term_level() -> int {
    3
}

/// The level of factors.
pub open spec fn factor_level() -> int {
    2
}

/// The level of unary expressions.
pub open spec fn unary_level() -> int {
    1
}

/// The level of postfix expressions, which binds tightest.
pub open spec fn postfix_level() -> int {
    0
}

/// The tree `e` is one that the grammar level `level` can give, and so is
/// every tree in it at its own place: the sides of `+` and `-` are a term and
/// a factor, the sides of `*` and `/` a factor and a unary expression, the
/// operand of `-` and `!` a unary expression, a callee and the object of a
/// member access a postfix expression, an argument and a member a whole
/// expression. So `*` and `/` bind tighter than `+` and `-`, unary operators
/// tighter still, and chains of one level group to the left.
pub open spec fn binds(e: ExprView, level: int) -> bool
    decreases e,
{
    match e {
        ExprView::Literal(_) => true,
        ExprView::EOL => true,
        ExprView::Call { callee, lparen, args, rparen } => {
            &&& binds(*callee, postfix_level())
            &&& forall|i: int| 0 <= i < args.len() ==> binds(#[trigger] args[i], term_level())
        },
        ExprView::Member { obj, dot, member } => {
            &&& binds(*obj, postfix_level())
            &&& binds(*member, term_level())
        },
        ExprView::Unary { op, expr } => {
            &&& level >= unary_level()
            &&& binds(*expr, unary_level())
        },
        ExprView::Binary { left, op, right } => match op {
            BinaryOp::Add(_) | BinaryOp::Sub(_) => {
                &&& level >= term_level()
                &&& binds(*left, term_level())
                &&& binds(*right, factor_level())
            },
            BinaryOp::Mul(_) | BinaryOp::Div(_) => {
                &&& level >= factor_level()
                &&& binds(*left, factor_level())
                &&& binds(*right, unary_level())
            },
            _ => false,
        },
    }
}

/// What a tighter level can give, a looser level can give too.
pub proof fn lemma_binds_looser(e: ExprView, level: int, looser: int)
    requires
        binds(e, level),
        level <= looser,
    ensures
        binds(e, looser),
{
}

/// Precedence and grouping. Every expression that is parsed is a tree of the
/// grammar: see [`binds`].
pub proof fn lemma_parse_binds(tokens: Seq<TokenContainerView>, pos: int)
    ensures
        parse_expr_spec(tokens, pos) matches Ok((expr, _)) ==> binds(expr, term_level()),
    decreases tokens.len() - pos, 9int,
{
    lemma_term_binds(tokens, pos);
}

proof fn lemma_term_binds(tokens: Seq<TokenContainerView>, pos: int)
    ensures
        parse_term_spec(tokens, pos) matches Ok((expr, _)) ==> binds(expr, term_level()),
    decreases tokens.len() - pos, 8int,
{
    lemma_factor_binds(tokens, pos);
    match parse_factor_spec(tokens, pos) {
        Ok((left, next)) => {
            lemma_term_rest_binds(tokens, onward(tokens, pos, next), left);
        },
        Err(_) => {},
    }
}

proof fn lemma_term_rest_binds(tokens: Seq<TokenContainerView>, pos: int, left: ExprView)
    requires
        binds(left, term_level()),
    ensures
        term_rest(tokens, pos, left) matches Ok((expr, _)) ==> binds(expr, term_level()),
    decreases tokens.len() - pos, 7int,
{
    if 0 <= pos < tokens.len() {
        match term_operator(token_at(tokens, pos), tokens[pos].span) {
            Some(op) => {
                lemma_factor_binds(tokens, pos + 1);
                match parse_factor_spec(tokens, pos + 1) {
                    Ok((right, next)) => lemma_term_rest_binds(
                        tokens,
                        onward(tokens, pos + 1, next),
                        ExprView::Binary { left: Box::new(left), op, right: Box::new(right) },
                    ),
                    Err(_) => {},
                }
            },
            None => {},
        }
    }
}

proof fn lemma_factor_binds(tokens: Seq<TokenContainerView>, pos: int)
    ensures
        parse_factor_spec(tokens, pos) matches Ok((expr, _)) ==> binds(expr, factor_level()),
    decreases tokens.len() - pos, 6int,
{
    lemma_unary_binds(tokens, pos);
    match parse_unary_spec(tokens, pos) {
        Ok((left, next)) => {
            lemma_factor_rest_binds(tokens, onward(tokens, pos, next), left);
        },
        Err(_) => {},
    }
}

proof fn lemma_factor_rest_binds(tokens: Seq<TokenContainerView>, pos: int, left: ExprView)
    requires
        binds(left, factor_level()),
    ensures
        factor_rest(tokens, pos, left) matches Ok((expr, _)) ==> binds(expr, factor_level()),
    decreases tokens.len() - pos, 5int,
{
    if 0 <= pos < tokens.len() {
        match factor_operator(token_at(tokens, pos), tokens[pos].span) {
            Some(op) => {
                lemma_unary_binds(tokens, pos + 1);
                match parse_unary_spec(tokens, pos + 1) {
                    Ok((right, next)) => lemma_factor_rest_binds(
                        tokens,
                        onward(tokens, pos + 1, next),
                        ExprView::Binary { left: Box::new(left), op, right: Box::new(right) },
                    ),
                    Err(_) => {},
                }
            },
            None => {},
        }
    }
}

proof fn lemma_unary_binds(tokens: Seq<TokenContainerView>, pos: int)
    ensures
        parse_unary_spec(tokens, pos) matches Ok((expr, _)) ==> binds(expr, unary_level()),
    decreases tokens.len() - pos, 4int,
{
    if 0 <= pos < tokens.len() && unary_operator(token_at(tokens, pos), tokens[pos].span) is Some {
        lemma_unary_binds(tokens, pos + 1);
    } else {
        lemma_postfix_binds(tokens, pos);
        match parse_postfix_spec(tokens, pos) {
            Ok((expr, _)) => lemma_binds_looser(expr, postfix_level(), unary_level()),
            Err(_) => {},
        }
    }
}

proof fn lemma_postfix_binds(tokens: Seq<TokenContainerView>, pos: int)
    ensures
        parse_postfix_spec(tokens, pos) matches Ok((expr, _)) ==> binds(expr, postfix_level()),
    decreases tokens.len() - pos, 3int,
{
    match parse_primary_spec(tokens, pos) {
        Ok((left, next)) => lemma_postfix_rest_binds(tokens, onward(tokens, pos, next), left),
        Err(_) => {},
    }
}

proof fn lemma_postfix_rest_binds(tokens: Seq<TokenContainerView>, pos: int, left: ExprView)
    requires
        binds(left, postfix_level()),
    ensures
        postfix_rest(tokens, pos, left) matches Ok((expr, _)) ==> binds(expr, postfix_level()),
    decreases tokens.len() - pos, 2int,
{
    if token_at(tokens, pos) == Some(TokenView::Punctuation(Punctuation::LParen)) {
        lemma_call_args_bind(tokens, pos + 1);
        match call_args(tokens, pos + 1) {
            Ok((args, at)) => {
                let close = onward(tokens, pos + 1, at);
                if token_at(tokens, close) == Some(TokenView::Punctuation(Punctuation::RParen)) {
                    lemma_postfix_rest_binds(
                        tokens,
                        close + 1,
                        ExprView::Call {
                            callee: Box::new(left),
                            lparen: tokens[pos].span,
                            args,
                            rparen: tokens[close].span,
                        },
                    );
                }
            },
            Err(_) => {},
        }
    } else if token_at(tokens, pos) == Some(TokenView::Operator(Operator::Dot)) {
        lemma_parse_binds(tokens, pos + 1);
        match parse_expr_spec(tokens, pos + 1) {
            Ok((member, next)) => lemma_postfix_rest_binds(
                tokens,
                onward(tokens, pos + 1, next),
                ExprView::Member {
                    obj: Box::new(left),
                    dot: tokens[pos].span,
                    member: Box::new(member),
                },
            ),
            Err(_) => {},
        }
    }
}

proof fn lemma_call_args_bind(tokens: Seq<TokenContainerView>, pos: int)
    ensures
        call_args(tokens, pos) matches Ok((args, _)) ==> forall|i: int|
            0 <= i < args.len() ==> binds(#[trigger] args[i], term_level()),
    decreases tokens.len() - pos + 1, 1int,
{
    if !(token_at(tokens, pos) == Some(TokenView::Punctuation(Punctuation::RParen)) || pos
        > tokens.len()) {
        lemma_parse_binds(tokens, pos);
        match parse_expr_spec(tokens, pos) {
            Ok((arg, next)) => lemma_more_args_bind(tokens, onward(tokens, pos, next), seq![arg]),
            Err(_) => {},
        }
    }
}

proof fn lemma_more_args_bind(tokens: Seq<TokenContainerView>, pos: int, args: Seq<ExprView>)
    requires
        forall|i: int| 0 <= i < args.len() ==> binds(#[trigger] args[i], term_level()),
    ensures
        more_args(tokens, pos, args) matches Ok((all, _)) ==> forall|i: int|
            0 <= i < all.len() ==> binds(#[trigger] all[i], term_level()),
    decreases tokens.len() - pos, 0int,
{
    if token_at(tokens, pos) == Some(TokenView::Punctuation(Punctuation::Comma)) {
        lemma_parse_binds(tokens, pos + 1);
        match parse_expr_spec(tokens, pos + 1) {
            Ok((arg, next)) => {
                let longer = args.push(arg);
                lemma_more_args_bind(tokens, onward(tokens, pos + 1, next), longer);
            },
            Err(_) => {},
        }
    }
}

/// The parser: the tokens, a cursor into them, and the name of the file for
/// diagnostics.
pub struct Parser {
    token_containers: Vec<TokenContainer>,
    pos: usize,
    file_name: String,
}

/// After the call the parser holds the same tokens and file name, its cursor
/// has not gone back, and `result` is what `expected` says: the same
/// expression with the cursor at the offset given, or the report of the same
/// failure.
pub open spec fn parsed_as(
    expected: Parsed,
    before: Parser,
    after: Parser,
    result: Result<Expr, Error>,
) -> bool {
    &&& after.wf()
    &&& after.tokens() == before.tokens()
    &&& after.file() == before.file()
    &&& before.cursor() <= after.cursor()
    &&& match expected {
        Ok((expr, next)) => result matches Ok(e) && e@ == expr && after.cursor() == next,
        Err(failure) => result matches Err(e) && e@ == failure.report(before.file()),
    }
}

impl Parser {
    /// The tokens, as plain mathematical values.
    pub closed spec fn tokens(&self) -> Seq<TokenContainerView> {
        token_views(self.token_containers@)
    }

    /// The offset of the next token to read.
    pub closed spec fn cursor(&self) -> int {
        self.pos as int
    }

    /// The name of the file that diagnostics name.
    pub closed spec fn file(&self) -> Seq<char> {
        self.file_name@
    }

    /// The cursor is not past the end of the tokens.
    pub closed spec fn wf(&self) -> bool {
        self.pos <= self.token_containers@.len()
    }

    /// The number of tokens that are left to read.
    pub closed spec fn remaining(&self) -> int {
        self.token_containers@.len() - self.pos
    }

    /// A parser at the start of `token_containers`.
    pub fn new(token_containers: Vec<TokenContainer>, file_name: &str) -> (parser: Self)
        ensures
            parser.wf(),
            parser.tokens() == token_views(token_containers@),
            parser.cursor() == 0,
            parser.file() == file_name@,
    {
        Parser { token_containers, pos: 0, file_name: String::from_str(file_name) }
    }

    /// The offset of the next token to read.
    pub fn position(&self) -> (pos: usize)
        ensures
            pos == self.cursor(),
    {
        self.pos
    }

    /// Whether a token stands at `pos`.
    fn is_available(&self, pos: usize) -> (available: bool)
        ensures
            available == (pos < self.tokens().len()),
            available ==> pos < self.token_containers@.len() <= usize::MAX,
    {
        pos < self.token_containers.len()
    }

    /// The token at the cursor, if there is one.
    fn peek(&self) -> (token: Option<&Token>)
        ensures
            match token {
                Some(t) => token_at(self.tokens(), self.cursor()) == Some(t@),
                None => token_at(self.tokens(), self.cursor()) is None,
            },
    {
        if self.is_available(self.pos) {
            Some(&self.token_containers[self.pos].token)
        } else {
            None
        }
    }

    /// The token at the cursor with its span, if there is one, and the cursor
    /// moved past it.
    fn advance(&mut self) -> (container: Option<TokenContainer>)
        requires
            old(self).wf(),
        ensures
            final(self).wf(),
            final(self).tokens() == old(self).tokens(),
            final(self).file() == old(self).file(),
            match container {
                Some(c) => 0 <= old(self).cursor() < old(self).tokens().len() && c@ == old(
                    self,
                ).tokens()[old(self).cursor()] && final(self).cursor() == old(self).cursor() + 1,
                None => old(self).cursor() >= old(self).tokens().len() && final(self).cursor()
                    == old(self).cursor(),
            },
    {
        if self.is_available(self.pos) {
            let container = self.token_containers[self.pos].clone();
            self.pos += 1;
            Some(container)
        } else {
            None
        }
    }

    /// Whether the token at the cursor is `t`.
    fn check(&self, t: &Token) -> (found: bool)
        ensures
            found == (token_at(self.tokens(), self.cursor()) == Some(t@)),
    {
        match self.peek() {
            Some(c_token) => c_token.same(t),
            None => false,
        }
    }

    /// Parses one expression from the cursor on and leaves the cursor after
    /// it. With no token left the answer is `EOL`. The tree that is answered
    /// follows the precedence and the grouping of the grammar.
    pub fn parse_program(&mut self) -> (r: Result<Expr, Error>)
        requires
            old(self).wf(),
        ensures
            parsed_as(
                parse_expr_spec(old(self).tokens(), old(self).cursor()),
                *old(self),
                *final(self),
                r,
            ),
            r matches Ok(expr) ==> binds(expr@, term_level()),
    {
        proof {
            lemma_parse_binds(self.tokens(), self.cursor());
        }
        self.parse_expr()
    }

    /// Parses `expr`.
    fn parse_expr(&mut self) -> (r: Result<Expr, Error>)
        requires
            old(self).wf(),
        ensures
            parsed_as(
                parse_expr_spec(old(self).tokens(), old(self).cursor()),
                *old(self),
                *final(self),
                r,
            ),
        decreases old(self).remaining(), 9int,
    {
        self.parse_term()
    }

    /// Parses `term`: factors joined by `+` and `-`, grouped to the left.
    fn parse_term(&mut self) -> (r: Result<Expr, Error>)
        requires
            old(self).wf(),
        ensures
            parsed_as(
                parse_term_spec(old(self).tokens(), old(self).cursor()),
                *old(self),
                *final(self),
                r,
            ),
        decreases old(self).remaining(), 8int,
    {
        let ghost tokens = self.tokens();
        let ghost start = self.cursor();
        let mut expr = match self.parse_factor() {
            Ok(e) => e,
            Err(e) => {
                return Err(e);
            },
        };
        let mut more = true;
        while more
            invariant
                self.wf(),
                self.tokens() == tokens,
                self.file() == old(self).file(),
                tokens == old(self).tokens(),
                start == old(self).cursor(),
                start <= self.cursor(),
                parse_term_spec(tokens, start) == term_rest(tokens, self.cursor(), expr@),
                !more ==> term_rest(tokens, self.cursor(), expr@) == Ok::<(ExprView, int), ParseError>(
                    (expr@, self.cursor()),
                ),
            decreases self.remaining(), if more { 1int } else { 0int },
        {
            let found = match self.peek() {
                Some(Token::Operator(Operator::Plus)) => Some(true),
                Some(Token::Operator(Operator::Minus)) => Some(false),
                _ => None,
            };
            match found {
                Some(plus) => {
                    let op_container = self.advance().unwrap();
                    let op_parsed = if plus {
                        BinaryOp::Add(op_container.span)
                    } else {
                        BinaryOp::Sub(op_container.span)
                    };
                    let rhs = match self.parse_factor() {
                        Ok(e) => e,
                        Err(e) => {
                            return Err(e);
                        },
                    };
                    expr = Expr::Binary { left: Box::new(expr), op: op_parsed, right: Box::new(rhs) };
                },
                None => {
                    more = false;
                },
            }
        }
        Ok(expr)
    }

    /// Parses `factor`: unary expressions joined by `*` and `/`, grouped to
    /// the left.
    fn parse_factor(&mut self) -> (r: Result<Expr, Error>)
        requires
            old(self).wf(),
        ensures
            parsed_as(
                parse_factor_spec(old(self).tokens(), old(self).cursor()),
                *old(self),
                *final(self),
                r,
            ),
        decreases old(self).remaining(), 6int,
    {
        let ghost tokens = self.tokens();
        let ghost start = self.cursor();
        let mut expr = match self.parse_unary() {
            Ok(e) => e,
            Err(e) => {
                return Err(e);
            },
        };
        let mut more = true;
        while more
            invariant
                self.wf(),
                self.tokens() == tokens,
                self.file() == old(self).file(),
                tokens == old(self).tokens(),
                start == old(self).cursor(),
                start <= self.cursor(),
                parse_factor_spec(tokens, start) == factor_rest(tokens, self.cursor(), expr@),
                !more ==> factor_rest(tokens, self.cursor(), expr@) == Ok::<
                    (ExprView, int),
                    ParseError,
                >((expr@, self.cursor())),
            decreases self.remaining(), if more { 1int } else { 0int },
        {
            let found = match self.peek() {
                Some(Token::Operator(Operator::Multiply)) => Some(true),
                Some(Token::Operator(Operator::Divide)) => Some(false),
                _ => None,
            };
            match found {
                Some(multiply) => {
                    let op_container = self.advance().unwrap();
                    let op_parsed = if multiply {
                        BinaryOp::Mul(op_container.span)
                    } else {
                        BinaryOp::Div(op_container.span)
                    };
                    let rhs = match self.parse_unary() {
                        Ok(e) => e,
                        Err(e) => {
                            return Err(e);
                        },
                    };
                    expr = Expr::Binary { left: Box::new(expr), op: op_parsed, right: Box::new(rhs) };
                },
                None => {
                    more = false;
                },
            }
        }
        Ok(expr)
    }

    /// Parses `unary`: any number of `-` and `!` before a postfix expression.
    fn parse_unary(&mut self) -> (r: Result<Expr, Error>)
        requires
            old(self).wf(),
        ensures
            parsed_as(
                parse_unary_spec(old(self).tokens(), old(self).cursor()),
                *old(self),
                *final(self),
                r,
            ),
        decreases old(self).remaining(), 4int,
    {
        let found = match self.peek() {
            Some(Token::Operator(Operator::Minus)) => Some(true),
            Some(Token::Operator(Operator::Exclamation)) => Some(false),
            _ => None,
        };
        match found {
            Some(minus) => {
                let op_container = self.advance().unwrap();
                let op_parsed = if minus {
                    UnaryOp::Negative(op_container.span)
                } else {
                    UnaryOp::Not(op_container.span)
                };
                match self.parse_unary() {
                    Ok(expr) => Ok(Expr::Unary { op: op_parsed, expr: Box::new(expr) }),
                    Err(e) => Err(e),
                }
            },
            None => self.parse_postfix(),
        }
    }

    /// Parses `primary`: one literal token, or `EOL` where no token is left.
    fn parse_primary(&mut self) -> (r: Result<Expr, Error>)
        requires
            old(self).wf(),
        ensures
            parsed_as(
                parse_primary_spec(old(self).tokens(), old(self).cursor()),
                *old(self),
                *final(self),
                r,
            ),
    {
        match self.advance() {
            Some(token_con) => {
                let span = token_con.span;
                match token_con.token {
                    Token::Int(value) => Ok(Expr::Literal(Literal::Int(value, span))),
                    Token::Float(value) => Ok(Expr::Literal(Literal::Float(value, span))),
                    Token::String(value) => Ok(Expr::Literal(Literal::String(value, span))),
                    Token::Boolean(value) => Ok(Expr::Literal(Literal::Bool(value, span))),
                    Token::Word(value) => Ok(Expr::Literal(Literal::Word(value, span))),
                    Token::Operator(operator) => Err(
                        ParseError::UnexpectedOperator { operator, span }.to_error(
                            self.file_name.as_str(),
                        ),
                    ),
                    Token::Punctuation(punctuation) => Err(
                        ParseError::UnexpectedPunctuation { punctuation, span }.to_error(
                            self.file_name.as_str(),
                        ),
                    ),
                }
            },
            None => Ok(Expr::EOL),
        }
    }

    /// Parses `postfix`: a primary, then calls and member accesses from left
    /// to right.
    fn parse_postfix(&mut self) -> (r: Result<Expr, Error>)
        requires
            old(self).wf(),
        ensures
            parsed_as(
                parse_postfix_spec(old(self).tokens(), old(self).cursor()),
                *old(self),
                *final(self),
                r,
            ),
        decreases old(self).remaining(), 3int,
    {
        let ghost tokens = self.tokens();
        let ghost start = self.cursor();
        let mut expr = match self.parse_primary() {
            Ok(e) => e,
            Err(e) => {
                return Err(e);
            },
        };
        let mut more = true;
        while more
            invariant
                self.wf(),
                self.tokens() == tokens,
                self.file() == old(self).file(),
                tokens == old(self).tokens(),
                start == old(self).cursor(),
                start <= self.cursor(),
                parse_postfix_spec(tokens, start) == postfix_rest(tokens, self.cursor(), expr@),
                !more ==> postfix_rest(tokens, self.cursor(), expr@) == Ok::<
                    (ExprView, int),
                    ParseError,
                >((expr@, self.cursor())),
            decreases self.remaining(), if more { 1int } else { 0int },
        {
            if self.check(&Token::Punctuation(Punctuation::LParen)) {
                let ghost open = self.cursor();
                let ghost callee = expr@;
                let lparen_span = self.advance().unwrap().span;
                let mut args: Vec<Expr> = Vec::new();
                proof {
                    assert(expr_views(args@) =~= Seq::empty());
                }
                if !self.check(&Token::Punctuation(Punctuation::RParen)) {
                    let first = match self.parse_expr() {
                        Ok(e) => e,
                        Err(e) => {
                            return Err(e);
                        },
                    };
                    proof {
                        assert(expr_views(args@.push(first)) =~= seq![first@]);
                    }
                    args.push(first);
                    let mut more_args_follow = true;
                    while more_args_follow
                        invariant
                            self.wf(),
                            self.tokens() == tokens,
                            self.file() == old(self).file(),
                            tokens == old(self).tokens(),
                            start == old(self).cursor(),
                            start <= open < self.cursor(),
                            token_at(tokens, open) == Some(
                                TokenView::Punctuation(Punctuation::LParen),
                            ),
                            parse_postfix_spec(tokens, start) == postfix_rest(tokens, open, callee),
                            call_args(tokens, open + 1) == more_args(
                                tokens,
                                self.cursor(),
                                expr_views(args@),
                            ),
                            !more_args_follow ==> more_args(tokens, self.cursor(), expr_views(args@))
                                == Ok::<(Seq<ExprView>, int), ParseError>(
                                (expr_views(args@), self.cursor()),
                            ),
                        decreases self.remaining(), if more_args_follow { 1int } else { 0int },
                    {
                        if self.check(&Token::Punctuation(Punctuation::Comma)) {
                            self.advance();
                            let arg = match self.parse_expr() {
                                Ok(e) => e,
                                Err(e) => {
                                    return Err(e);
                                },
                            };
                            proof {
                                assert(expr_views(args@.push(arg)) =~= expr_views(args@).push(arg@));
                            }
                            args.push(arg);
                        } else {
                            more_args_follow = false;
                        }
                    }
                }
                if !self.check(&Token::Punctuation(Punctuation::RParen)) {
                    return Err(
                        ParseError::UnclosedCall { lparen: lparen_span }.to_error(
                            self.file_name.as_str(),
                        ),
                    );
                }
                let rparen_span = self.advance().unwrap().span;
                expr =
                Expr::Call {
                    callee: Box::new(expr),
                    lparen: lparen_span,
                    args: args,
                    rparen: rparen_span,
                };
                proof {
                    lemma_call_view(expr);
                }
            } else if self.check(&Token::Operator(Operator::Dot)) {
                let dot_span = self.advance().unwrap().span;
                let member = match self.parse_expr() {
                    Ok(e) => e,
                    Err(e) => {
                        return Err(e);
                    },
                };
                expr = Expr::Member { obj: Box::new(expr), dot: dot_span, member: Box::new(member) };
            } else {
                more = false;
            }
        }
        Ok(expr)
    }
}

/// The view of a call holds the views of its arguments.
pub proof fn lemma_call_view(e: Expr)
    ensures
        e matches Expr::Call { callee, lparen, args, rparen } ==> e@ == (ExprView::Call {
            callee: Box::new((*callee)@),
            lparen,
            args: expr_views(args@),
            rparen,
        }),
{
    match e {
        Expr::Call { callee, lparen, args, rparen } => {
            match e@ {
                ExprView::Call { args: views, .. } => {
                    assert(views =~= expr_views(args@));
                },
                _ => {},
            }
        },
        _ => {},
    }
}

} // verus!
