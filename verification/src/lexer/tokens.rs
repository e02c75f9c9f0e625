//! The tokens of the language and the tables of its operators and
//! punctuation marks.
use vstd::prelude::*;
use crate::hylo_error::report::Span;
use crate::text::{same_text, to_chars};

verus! {

/// The operators of the language.
#[derive(Debug, PartialEq, Eq, Clone, Copy, Structural)]
pub enum Operator {
    Plus,
    Minus,
    Multiply,
    Divide,
    Equals,
    Exclamation,
    GreaterThan,
    LessThan,
    IsEqual,
    IsNotEqual,
    GreaterThanOrEqual,
    LessThanOrEqual,
    And,
    Or,
    Dot,
    Arrow,
}

impl Operator {
    /// The spelling of each operator.
    pub open spec fn spec_symbol(&self) -> Seq<char> {
        match self {
            Operator::Plus => seq!['+'],
            Operator::Minus => seq!['-'],
            Operator::Multiply => seq!['*'],
            Operator::Divide => seq!['/'],
            Operator::Equals => seq!['='],
            Operator::Exclamation => seq!['!'],
            Operator::GreaterThan => seq!['>'],
            Operator::LessThan => seq!['<'],
            Operator::IsEqual => seq!['=', '='],
            Operator::IsNotEqual => seq!['!', '='],
            Operator::GreaterThanOrEqual => seq!['>', '='],
            Operator::LessThanOrEqual => seq!['<', '='],
            Operator::And => seq!['&', '&'],
            Operator::Or => seq!['|', '|'],
            Operator::Dot => seq!['.'],
            Operator::Arrow => seq!['-', '>'],
        }
    }

    /// The operator that the one character `a` spells, if there is one.
    pub open spec fn of_one(a: char) -> Option<Operator> {
        if a == '+' {
            Some(Operator::Plus)
        } else if a == '-' {
            Some(Operator::Minus)
        } else if a == '*' {
            Some(Operator::Multiply)
        } else if a == '/' {
            Some(Operator::Divide)
        } else if a == '=' {
            Some(Operator::Equals)
        } else if a == '!' {
            Some(Operator::Exclamation)
        } else if a == '>' {
            Some(Operator::GreaterThan)
        } else if a == '<' {
            Some(Operator::LessThan)
        } else if a == '.' {
            Some(Operator::Dot)
        } else {
            None
        }
    }

    /// The operator that the two characters `a` and `b` spell, if there is
    /// one.
    pub open spec fn of_two(a: char, b: char) -> Option<Operator> {
        if a == '=' && b == '=' {
            Some(Operator::IsEqual)
        } else if a == '!' && b == '=' {
            Some(Operator::IsNotEqual)
        } else if a == '>' && b == '=' {
            Some(Operator::GreaterThanOrEqual)
        } else if a == '<' && b == '=' {
            Some(Operator::LessThanOrEqual)
        } else if a == '&' && b == '&' {
            Some(Operator::And)
        } else if a == '|' && b == '|' {
            Some(Operator::Or)
        } else if a == '-' && b == '>' {
            Some(Operator::Arrow)
        } else {
            None
        }
    }

    /// The operator that is spelled `symbol`, if there is one.
    pub open spec fn spec_from_symbol(symbol: Seq<char>) -> Option<Operator> {
        if symbol.len() == 1 {
            Operator::of_one(symbol[0])
        } else if symbol.len() == 2 {
            Operator::of_two(symbol[0], symbol[1])
        } else {
            None
        }
    }

    /// The name of each operator, as its variant is written.
    pub open spec fn spec_name(&self) -> Seq<char> {
        match self {
            Operator::Plus => "Plus"@,
            Operator::Minus => "Minus"@,
            Operator::Multiply => "Multiply"@,
            Operator::Divide => "Divide"@,
            Operator::Equals => "Equals"@,
            Operator::Exclamation => "Exclamation"@,
            Operator::GreaterThan => "GreaterThan"@,
            Operator::LessThan => "LessThan"@,
            Operator::IsEqual => "IsEqual"@,
            Operator::IsNotEqual => "IsNotEqual"@,
            Operator::GreaterThanOrEqual => "GreaterThanOrEqual"@,
            Operator::LessThanOrEqual => "LessThanOrEqual"@,
            Operator::And => "And"@,
            Operator::Or => "Or"@,
            Operator::Dot => "Dot"@,
            Operator::Arrow => "Arrow"@,
        }
    }

    /// The table of operators reads both ways: a text is resolved to an
    /// operator exactly if it is the spelling of that operator.
    pub proof fn lemma_symbol_resolves(symbol: Seq<char>, op: Operator)
        ensures
            Operator::spec_from_symbol(symbol) == Some(op) <==> symbol == op.spec_symbol(),
    {
        let spelling = op.spec_symbol();
        if Operator::spec_from_symbol(symbol) == Some(op) {
            assert(symbol =~= spelling);
        }
    }

    /// The spelling of the operator.
    pub fn as_symbol(&self) -> (s: &'static str)
        ensures
            s@ == self.spec_symbol(),
    {
        proof {
            reveal_strlit("+");
            reveal_strlit("-");
            reveal_strlit("*");
            reveal_strlit("/");
            reveal_strlit("=");
            reveal_strlit("!");
            reveal_strlit(">");
            reveal_strlit("<");
            reveal_strlit("==");
            reveal_strlit("!=");
            reveal_strlit(">=");
            reveal_strlit("<=");
            reveal_strlit("&&");
            reveal_strlit("||");
            reveal_strlit(".");
            reveal_strlit("->");
        }
        match self {
            Operator::Plus => "+",
            Operator::Minus => "-",
            Operator::Multiply => "*",
            Operator::Divide => "/",
            Operator::Equals => "=",
            Operator::Exclamation => "!",
            Operator::GreaterThan => ">",
            Operator::LessThan => "<",
            Operator::IsEqual => "==",
            Operator::IsNotEqual => "!=",
            Operator::GreaterThanOrEqual => ">=",
            Operator::LessThanOrEqual => "<=",
            Operator::And => "&&",
            Operator::Or => "||",
            Operator::Dot => ".",
            Operator::Arrow => "->",
        }
    }

    /// The name of the operator.
    pub fn name(&self) -> (s: &'static str)
        ensures
            s@ == self.spec_name(),
    {
        match self {
            Operator::Plus => "Plus",
            Operator::Minus => "Minus",
            Operator::Multiply => "Multiply",
            Operator::Divide => "Divide",
            Operator::Equals => "Equals",
            Operator::Exclamation => "Exclamation",
            Operator::GreaterThan => "GreaterThan",
            Operator::LessThan => "LessThan",
            Operator::IsEqual => "IsEqual",
            Operator::IsNotEqual => "IsNotEqual",
            Operator::GreaterThanOrEqual => "GreaterThanOrEqual",
            Operator::LessThanOrEqual => "LessThanOrEqual",
            Operator::And => "And",
            Operator::Or => "Or",
            Operator::Dot => "Dot",
            Operator::Arrow => "Arrow",
        }
    }

    /// Looks `symbol` up in the table of operators.
    pub fn from_symbol(symbol: &str) -> (op: Option<Operator>)
        ensures
            op == Operator::spec_from_symbol(symbol@),
    {
        let chars = to_chars(symbol);
        if chars.len() == 1 {
            let a = chars[0];
            if a == '+' {
                Some(Operator::Plus)
            } else if a == '-' {
                Some(Operator::Minus)
            } else if a == '*' {
                Some(Operator::Multiply)
            } else if a == '/' {
                Some(Operator::Divide)
            } else if a == '=' {
                Some(Operator::Equals)
            } else if a == '!' {
                Some(Operator::Exclamation)
            } else if a == '>' {
                Some(Operator::GreaterThan)
            } else if a == '<' {
                Some(Operator::LessThan)
            } else if a == '.' {
                Some(Operator::Dot)
            } else {
                None
            }
        } else if chars.len() == 2 {
            let a = chars[0];
            let b = chars[1];
            if a == '=' && b == '=' {
                Some(Operator::IsEqual)
            } else if a == '!' && b == '=' {
                Some(Operator::IsNotEqual)
            } else if a == '>' && b == '=' {
                Some(Operator::GreaterThanOrEqual)
            } else if a == '<' && b == '=' {
                Some(Operator::LessThanOrEqual)
            } else if a == '&' && b == '&' {
                Some(Operator::And)
            } else if a == '|' && b == '|' {
                Some(Operator::Or)
            } else if a == '-' && b == '>' {
                Some(Operator::Arrow)
            } else {
                None
            }
        } else {
            None
        }
    }
}

/// The punctuation marks of the language.
#[derive(Debug, PartialEq, Eq, Clone, Copy, Structural)]
pub enum Punctuation {
    Semicolon,
    Comma,
    LParen,
    RParen,
    LBrace,
    RBrace,
    LBracket,
    RBracket,
}

impl Punctuation {
    /// The character of each punctuation mark.
    pub open spec fn spec_char(&self) -> char {
        match self {
            Punctuation::Semicolon => ';',
            Punctuation::Comma => ',',
            Punctuation::LParen => '(',
            Punctuation::RParen => ')',
            Punctuation::LBrace => '{',
            Punctuation::RBrace => '}',
            Punctuation::LBracket => '[',
            Punctuation::RBracket => ']',
        }
    }

    /// The punctuation mark that `c` is, if it is one.
    pub open spec fn spec_from_char(c: char) -> Option<Punctuation> {
        if c == ';' {
            Some(Punctuation::Semicolon)
        } else if c == ',' {
            Some(Punctuation::Comma)
        } else if c == '(' {
            Some(Punctuation::LParen)
        } else if c == ')' {
            Some(Punctuation::RParen)
        } else if c == '{' {
            Some(Punctuation::LBrace)
        } else if c == '}' {
            Some(Punctuation::RBrace)
        } else if c == '[' {
            Some(Punctuation::LBracket)
        } else if c == ']' {
            Some(Punctuation::RBracket)
        } else {
            None
        }
    }

    /// The name of each punctuation mark, as its variant is written.
    pub open spec fn spec_name(&self) -> Seq<char> {
        match self {
            Punctuation::Semicolon => "Semicolon"@,
            Punctuation::Comma => "Comma"@,
            Punctuation::LParen => "LParen"@,
            Punctuation::RParen => "RParen"@,
            Punctuation::LBrace => "LBrace"@,
            Punctuation::RBrace => "RBrace"@,
            Punctuation::LBracket => "LBracket"@,
            Punctuation::RBracket => "RBracket"@,
        }
    }

    /// A character is a punctuation mark exactly if it is the character of
    /// that mark.
    pub proof fn lemma_char_resolves(c: char, p: Punctuation)
        ensures
            Punctuation::spec_from_char(c) == Some(p) <==> p.spec_char() == c,
    {
    }

    /// The punctuation mark as a text of one character.
    pub fn as_symbol(&self) -> (s: &'static str)
        ensures
            s@ == seq![self.spec_char()],
    {
        proof {
            reveal_strlit(";");
            reveal_strlit(",");
            reveal_strlit("(");
            reveal_strlit(")");
            reveal_strlit("{");
            reveal_strlit("}");
            reveal_strlit("[");
            reveal_strlit("]");
        }
        match self {
            Punctuation::Semicolon => ";",
            Punctuation::Comma => ",",
            Punctuation::LParen => "(",
            Punctuation::RParen => ")",
            Punctuation::LBrace => "{",
            Punctuation::RBrace => "}",
            Punctuation::LBracket => "[",
            Punctuation::RBracket => "]",
        }
    }

    /// The name of the punctuation mark.
    pub fn name(&self) -> (s: &'static str)
        ensures
            s@ == self.spec_name(),
    {
        match self {
            Punctuation::Semicolon => "Semicolon",
            Punctuation::Comma => "Comma",
            Punctuation::LParen => "LParen",
            Punctuation::RParen => "RParen",
            Punctuation::LBrace => "LBrace",
            Punctuation::RBrace => "RBrace",
            Punctuation::LBracket => "LBracket",
            Punctuation::RBracket => "RBracket",
        }
    }

    /// The punctuation mark that `c` is, if it is one.
    pub fn from_char(c: char) -> (p: Option<Punctuation>)
        ensures
            p == Punctuation::spec_from_char(c),
    {
        if c == ';' {
            Some(Punctuation::Semicolon)
        } else if c == ',' {
            Some(Punctuation::Comma)
        } else if c == '(' {
            Some(Punctuation::LParen)
        } else if c == ')' {
            Some(Punctuation::RParen)
        } else if c == '{' {
            Some(Punctuation::LBrace)
        } else if c == '}' {
            Some(Punctuation::RBrace)
        } else if c == '[' {
            Some(Punctuation::LBracket)
        } else if c == ']' {
            Some(Punctuation::RBracket)
        } else {
            None
        }
    }
}

/// A token. A float holds the text of its literal, which is made of decimal
/// digits around one decimal point.
#[derive(Debug, PartialEq, Eq)]
pub enum Token {
    Int(i64),
    Float(String),
    String(String),
    Boolean(bool),
    Word(String),
    Operator(Operator),
    Punctuation(Punctuation),
}

/// What a [`Token`] holds, as plain mathematical values.
pub enum TokenView {
    Int(i64),
    Float(Seq<char>),
    String(Seq<char>),
    Boolean(bool),
    Word(Seq<char>),
    Operator(Operator),
    Punctuation(Punctuation),
}

impl View for Token {
    type V = TokenView;

    open spec fn view(&self) -> TokenView {
        match self {
            Token::Int(v) => TokenView::Int(*v),
            Token::Float(text) => TokenView::Float(text@),
            Token::String(text) => TokenView::String(text@),
            Token::Boolean(b) => TokenView::Boolean(*b),
            Token::Word(text) => TokenView::Word(text@),
            Token::Operator(op) => TokenView::Operator(*op),
            Token::Punctuation(p) => TokenView::Punctuation(*p),
        }
    }
}

impl Token {
    /// Whether the two tokens are the same token.
    pub fn same(&self, other: &Token) -> (same: bool)
        ensures
            same == (self@ == other@),
    {
        match (self, other) {
            (Token::Int(a), Token::Int(b)) => *a == *b,
            (Token::Float(a), Token::Float(b)) => same_text(a.as_str(), b.as_str()),
            (Token::String(a), Token::String(b)) => same_text(a.as_str(), b.as_str()),
            (Token::Boolean(a), Token::Boolean(b)) => *a == *b,
            (Token::Word(a), Token::Word(b)) => same_text(a.as_str(), b.as_str()),
            (Token::Operator(a), Token::Operator(b)) => *a == *b,
            (Token::Punctuation(a), Token::Punctuation(b)) => *a == *b,
            _ => false,
        }
    }
}

impl Clone for Token {
    fn clone(&self) -> (t: Self)
        ensures
            t@ == self@,
    {
        match self {
            Token::Int(v) => Token::Int(*v),
            Token::Float(text) => Token::Float(text.clone()),
            Token::String(text) => Token::String(text.clone()),
            Token::Boolean(b) => Token::Boolean(*b),
            Token::Word(text) => Token::Word(text.clone()),
            Token::Operator(op) => Token::Operator(*op),
            Token::Punctuation(p) => Token::Punctuation(*p),
        }
    }
}

/// A token with the place in the source text that it was read from.
#[derive(Debug, PartialEq, Eq)]
pub struct TokenContainer {
    pub token: Token,
    pub span: Span,
}

/// What a [`TokenContainer`] holds, as plain mathematical values.
pub struct TokenContainerView {
    pub token: TokenView,
    pub span: Span,
}

impl View for TokenContainer {
    type V = TokenContainerView;

    open spec fn view(&self) -> TokenContainerView {
        TokenContainerView { token: self.token@, span: self.span }
    }
}

impl Clone for TokenContainer {
    fn clone(&self) -> (t: Self)
        ensures
            t@ == self@,
    {
        TokenContainer { token: self.token.clone(), span: self.span }
    }
}

/// The views of the tokens of `tokens`, in order.
pub open spec fn token_views(tokens: Seq<TokenContainer>) -> Seq<TokenContainerView> {
    tokens.map_values(|t: TokenContainer| t@)
}

} // verus!
