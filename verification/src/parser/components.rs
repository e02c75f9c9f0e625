//! The expression tree. Every leaf and every operator keeps the span of the
//! token it was read from.
use vstd::prelude::*;
use crate::hylo_error::report::Span;

verus! {

/// A literal. A float holds the text of its literal.
#[derive(Debug, PartialEq, Eq)]
pub enum Literal {
    Int(i64, Span),
    Float(String, Span),
    String(String, Span),
    Bool(bool, Span),
    Word(String, Span),
}

/// What a [`Literal`] holds, as plain mathematical values.
pub enum LiteralView {
    Int(i64, Span),
    Float(Seq<char>, Span),
    String(Seq<char>, Span),
    Bool(bool, Span),
    Word(Seq<char>, Span),
}

impl View for Literal {
    type V = LiteralView;

    open spec fn view(&self) -> LiteralView {
        match self {
            Literal::Int(v, span) => LiteralView::Int(*v, *span),
            Literal::Float(text, span) => LiteralView::Float(text@, *span),
            Literal::String(text, span) => LiteralView::String(text@, *span),
            Literal::Bool(b, span) => LiteralView::Bool(*b, *span),
            Literal::Word(text, span) => LiteralView::Word(text@, *span),
        }
    }
}

/// A unary operator, with the span of its token.
#[derive(Debug, Clone, Copy, PartialEq, Eq, Structural)]
pub enum UnaryOp {
    Not(Span),
    Negative(Span),
}

/// A binary operator, with the span of its token.
#[derive(Debug, Clone, Copy, PartialEq, Eq, Structural)]
pub enum BinaryOp {
    Add(Span),
    Sub(Span),
    Mul(Span),
    Div(Span),
    Greater(Span),
    Less(Span),
    GreaterEqual(Span),
    LessEqual(Span),
    IsEqual(Span),
    IsNotEqual(Span),
    And(Span),
    Or(Span),
    Dot(Span),
}

/// An expression. `EOL` stands for the expression that was asked for where
/// the tokens had run out.
#[derive(Debug, PartialEq, Eq)]
#[allow(inconsistent_fields)]
pub enum Expr {
    Literal(Literal),
    Unary { op: UnaryOp, expr: Box<Expr> },
    Binary { left: Box<Expr>, op: BinaryOp, right: Box<Expr> },
    Call { callee: Box<Expr>, lparen: Span, args: Vec<Expr>, rparen: Span },
    Member { obj: Box<Expr>, dot: Span, member: Box<Expr> },
    EOL,
}

/// What an [`Expr`] holds, as plain mathematical values.
#[allow(inconsistent_fields)]
pub enum ExprView {
    Literal(LiteralView),
    Unary { op: UnaryOp, expr: Box<ExprView> },
    Binary { left: Box<ExprView>, op: BinaryOp, right: Box<ExprView> },
    Call { callee: Box<ExprView>, lparen: Span, args: Seq<ExprView>, rparen: Span },
    Member { obj: Box<ExprView>, dot: Span, member: Box<ExprView> },
    EOL,
}

impl Expr {
    /// The expression as plain mathematical values.
    pub open spec fn as_view(self) -> ExprView
        decreases self,
    {
        match self {
            Expr::Literal(literal) => ExprView::Literal(literal@),
            Expr::Unary { op, expr } => ExprView::Unary { op, expr: Box::new((*expr).as_view()) },
            Expr::Binary { left, op, right } => ExprView::Binary {
                left: Box::new((*left).as_view()),
                op,
                right: Box::new((*right).as_view()),
            },
            Expr::Call { callee, lparen, args, rparen } => ExprView::Call {
                callee: Box::new((*callee).as_view()),
                lparen,
                args: Seq::new(
                    args@.len(),
                    |i: int|
                        if 0 <= i < args@.len() {
                            args[i].as_view()
                        } else {
                            ExprView::EOL
                        },
                ),
                rparen,
            },
            Expr::Member { obj, dot, member } => ExprView::Member {
                obj: Box::new((*obj).as_view()),
                dot,
                member: Box::new((*member).as_view()),
            },
            Expr::EOL => ExprView::EOL,
        }
    }
}

impl View for Expr {
    type V = ExprView;

    open spec fn view(&self) -> ExprView {
        self.as_view()
    }
}

/// The views of the expressions of `exprs`, in order.
pub open spec fn expr_views(exprs: Seq<Expr>) -> Seq<ExprView> {
    Seq::new(
        exprs.len(),
        |i: int|
            if 0 <= i < exprs.len() {
                exprs[i].as_view()
            } else {
                ExprView::EOL
            },
    )
}

} // verus!
