//! The tokenizer: one pass over the source text with a single cursor.
//!
//! What the tokenizer answers is defined on the text alone, by [`tokenize`];
//! the executable functions are proved to compute it.
use vstd::prelude::*;
use crate::hylo_error::kind::ErrorKind;
use crate::hylo_error::report::{Error, ErrorView, Span};
use crate::text::{
    alphabetic, alphanumeric, char_is_digit, check_float_literal, is_digit, parsed_decimal,
    is_float_literal, lemma_run_end, lemma_run_end_is, parse_decimal, run_end, same_text,
    to_chars, whitespace,
};
use super::source_code::{text_between, SourceCodeContainer};
use super::tokens::{
    token_views, Operator, Punctuation, Token, TokenContainer, TokenContainerView, TokenView,
};

verus! {

/// Why the tokenizer stopped, with the offsets of the text it stopped on.
#[derive(Debug, Clone, Copy, PartialEq, Eq, Structural)]
pub enum LexerError {
    StringNotTerminated { start: usize, stop: usize },
    InvalidInteger { start: usize, stop: usize },
    InvalidFloat { start: usize, stop: usize },
    InvalidOperator { start: usize, stop: usize },
    InvalidToken { start: usize, stop: usize },
}

impl LexerError {
    /// The diagnostic that reports this failure for the file `file_name`.
    pub open spec fn report(self, file_name: Seq<char>) -> ErrorView {
        match self {
            LexerError::StringNotTerminated { start, stop } => ErrorView::new(
                ErrorKind::StringNotTerminated,
                Span { start, stop },
                Some(file_name),
            ).add_msg("the string is not terminated"@),
            LexerError::InvalidInteger { start, stop } => ErrorView::new(
                ErrorKind::SyntaxError,
                Span { start, stop },
                Some(file_name),
            ).add_msg("integer is not valid"@),
            LexerError::InvalidFloat { start, stop } => ErrorView::new(
                ErrorKind::SyntaxError,
                Span { start, stop },
                Some(file_name),
            ).add_msg("float is not valid"@),
            LexerError::InvalidOperator { start, stop } => ErrorView::new(
                ErrorKind::SyntaxError,
                Span { start, stop },
                Some(file_name),
            ).add_msg("the operator is invalid"@),
            LexerError::InvalidToken { start, stop } => ErrorView::new(
                ErrorKind::SyntaxError,
                Span { start, stop },
                Some(file_name),
            ).add_msg("the token is invalid"@),
        }
    }

    /// Builds the diagnostic that reports this failure for the file
    /// `file_name`.
    pub fn to_error(&self, file_name: &str) -> (e: Error)
        ensures
            e@ == self.report(file_name@),
    {
        match *self {
            LexerError::StringNotTerminated { start, stop } => Error::new(
                ErrorKind::StringNotTerminated,
                Span { start, stop },
                Some(file_name),
            ).add_msg("the string is not terminated"),
            LexerError::InvalidInteger { start, stop } => Error::new(
                ErrorKind::SyntaxError,
                Span { start, stop },
                Some(file_name),
            ).add_msg("integer is not valid"),
            LexerError::InvalidFloat { start, stop } => Error::new(
                ErrorKind::SyntaxError,
                Span { start, stop },
                Some(file_name),
            ).add_msg("float is not valid"),
            LexerError::InvalidOperator { start, stop } => Error::new(
                ErrorKind::SyntaxError,
                Span { start, stop },
                Some(file_name),
            ).add_msg("the operator is invalid"),
            LexerError::InvalidToken { start, stop } => Error::new(
                ErrorKind::SyntaxError,
                Span { start, stop },
                Some(file_name),
            ).add_msg("the token is invalid"),
        }
    }
}

/// A character that may go on a word.
pub open spec fn is_word_char(c: char) -> bool {
    alphanumeric(c) || c == '_'
}

/// A character that may go on a number.
pub open spec fn is_number_char(c: char) -> bool {
    is_digit(c) || c == '.'
}

/// A character that may start an operator.
pub open spec fn is_operator_start(c: char) -> bool {
    c == '+' || c == '-' || c == '*' || c == '/' || c == '>' || c == '<' || c == '=' || c == '&'
        || c == '!' || c == '|'
}

/// The first offset at or after `from` at which `c` stands, or the length of
/// `t` if it stands at none.
pub open spec fn find_char(t: Seq<char>, from: int, c: char) -> int {
    run_end(t, from, all_but(c))
}

/// The class of all characters but `c`.
pub open spec fn all_but(c: char) -> spec_fn(char) -> bool {
    |x: char| x != c
}

/// The class of the characters that may go on a word.
pub open spec fn word_chars() -> spec_fn(char) -> bool {
    |c: char| is_word_char(c)
}

/// The class of the characters that may go on a number.
pub open spec fn number_chars() -> spec_fn(char) -> bool {
    |c: char| is_number_char(c)
}

/// A token and the offset right after it.
pub type Scanned = Result<(TokenContainerView, int), LexerError>;

/// The token with the span `[start, stop]`.
pub open spec fn spanned(token: TokenView, start: int, stop: int) -> TokenContainerView {
    TokenContainerView { token, span: Span { start: start as usize, stop: stop as usize } }
}

/// The string literal whose opening quote stands at `pos`. It ends at the
/// next occurrence of the same quote character. Without one, the failure
/// spans from the opening quote to the first line feed after it.
pub open spec fn scan_string(t: Seq<char>, pos: int) -> Scanned {
    let close = find_char(t, pos + 1, t[pos]);
    if close < t.len() {
        Ok((spanned(TokenView::String(t.subrange(pos + 1, close)), pos, close), close + 1))
    } else {
        Err(
            LexerError::StringNotTerminated {
                start: pos as usize,
                stop: find_char(t, pos + 1, '\n') as usize,
            },
        )
    }
}

/// The word that starts at `pos`: the character there and the longest run of
/// word characters after it. The words `true` and `false` are booleans.
pub open spec fn scan_word(t: Seq<char>, pos: int) -> Scanned {
    let end = run_end(t, pos + 1, word_chars());
    let text = t.subrange(pos, end);
    let token = if text == "true"@ {
        TokenView::Boolean(true)
    } else if text == "false"@ {
        TokenView::Boolean(false)
    } else {
        TokenView::Word(text)
    };
    Ok((spanned(token, pos, end - 1), end))
}

/// The number that starts at `pos`: the longest run of digits and points. With
/// a point in it, it is a float if it is a float literal; without one, it is
/// the integer that its digits write, if that fits an `i64`.
pub open spec fn scan_number(t: Seq<char>, pos: int) -> Scanned {
    let end = run_end(t, pos, number_chars());
    let text = t.subrange(pos, end);
    if text.contains('.') {
        if is_float_literal(text) {
            Ok((spanned(TokenView::Float(text), pos, end - 1), end))
        } else {
            Err(LexerError::InvalidFloat { start: pos as usize, stop: (end - 1) as usize })
        }
    } else {
        match parsed_decimal(text) {
            Some(value) => Ok((spanned(TokenView::Int(value), pos, end - 1), end)),
            None => Err(
                LexerError::InvalidInteger { start: pos as usize, stop: (end - 1) as usize },
            ),
        }
    }
}

/// The number of characters of the operator that is tried at `pos`: two if
/// the character after `pos` may start an operator too, else one.
pub open spec fn operator_width(t: Seq<char>, pos: int) -> int {
    if pos + 1 < t.len() && is_operator_start(t[pos + 1]) {
        2
    } else {
        1
    }
}

/// The operator that starts at `pos`: the one or two characters tried must
/// be the spelling of an operator.
pub open spec fn scan_operator(t: Seq<char>, pos: int) -> Scanned {
    let width = operator_width(t, pos);
    match Operator::spec_from_symbol(t.subrange(pos, pos + width)) {
        Some(op) => Ok((spanned(TokenView::Operator(op), pos, pos + width - 1), pos + width)),
        None => Err(
            LexerError::InvalidOperator { start: pos as usize, stop: (pos + width - 1) as usize },
        ),
    }
}

/// What a character starts.
#[derive(Debug, Clone, Copy, PartialEq, Eq, Structural)]
pub enum Start {
    /// Nothing: the character is skipped.
    Whitespace,
    /// The punctuation mark that the character is.
    Punctuation(Punctuation),
    /// A string literal.
    Quote,
    /// A word.
    Word,
    /// A number.
    Number,
    /// An operator.
    Operator,
    /// No token.
    Invalid,
}

/// What the character `c` starts, where `blank` says whether it is
/// whitespace and `letter` whether it is alphabetic. The classes are tried
/// in this order: whitespace, punctuation marks, the two quotes, letters and
/// `_`, digits, the characters that start an operator.
pub open spec fn start_of(c: char, blank: bool, letter: bool) -> Start {
    if blank {
        Start::Whitespace
    } else {
        match Punctuation::spec_from_char(c) {
            Some(p) => Start::Punctuation(p),
            None => if c == '"' || c == '\'' {
                Start::Quote
            } else if letter || c == '_' {
                Start::Word
            } else if is_digit(c) {
                Start::Number
            } else if is_operator_start(c) {
                Start::Operator
            } else {
                Start::Invalid
            },
        }
    }
}

/// What the character `c` starts.
pub open spec fn char_start(c: char) -> Start {
    start_of(c, whitespace(c), alphabetic(c))
}

/// The token that starts at `pos`, where a character other than whitespace
/// stands.
pub open spec fn scan_token(t: Seq<char>, pos: int) -> Scanned {
    match char_start(t[pos]) {
        Start::Punctuation(p) => Ok((spanned(TokenView::Punctuation(p), pos, pos), pos + 1)),
        Start::Quote => scan_string(t, pos),
        Start::Word => scan_word(t, pos),
        Start::Number => scan_number(t, pos),
        Start::Operator => scan_operator(t, pos),
        Start::Whitespace | Start::Invalid => Err(
            LexerError::InvalidToken { start: pos as usize, stop: pos as usize },
        ),
    }
}

/// `tokens` before what `rest` holds, or the failure that `rest` is.
pub open spec fn after(
    tokens: Seq<TokenContainerView>,
    rest: Result<Seq<TokenContainerView>, LexerError>,
) -> Result<Seq<TokenContainerView>, LexerError> {
    match rest {
        Ok(more) => Ok(tokens + more),
        Err(e) => Err(e),
    }
}

/// The tokens of `t` from offset `pos` on, or the first failure.
pub open spec fn lex_from(t: Seq<char>, pos: int) -> Result<Seq<TokenContainerView>, LexerError>
    decreases t.len() - pos,
{
    if pos < 0 || pos >= t.len() {
        Ok(Seq::empty())
    } else if char_start(t[pos]) == Start::Whitespace {
        lex_from(t, pos + 1)
    } else {
        match scan_token(t, pos) {
            Ok((token, next)) => {
                proof {
                    lemma_scan_token_bounds(t, pos);
                }
                after(seq![token], lex_from(t, next))
            },
            Err(e) => Err(e),
        }
    }
}

/// The tokens of the text `t`, or the first failure.
pub open spec fn tokenize(t: Seq<char>) -> Result<Seq<TokenContainerView>, LexerError> {
    lex_from(t, 0)
}

/// A token that is read at `pos` ends after `pos` and within the text.
pub proof fn lemma_scan_token_bounds(t: Seq<char>, pos: int)
    requires
        0 <= pos < t.len(),
    ensures
        scan_token(t, pos) matches Ok((token, next)) ==> pos < next <= t.len(),
{
    let c = t[pos];
    lemma_run_end(t, pos + 1, all_but(c));
    lemma_run_end(t, pos + 1, word_chars());
    lemma_run_end(t, pos, number_chars());
}

/// A token that is read at `pos` spans from `pos` to the offset before the
/// one at which reading goes on.
pub proof fn lemma_scan_token_span(t: Seq<char>, pos: int)
    requires
        0 <= pos < t.len() <= usize::MAX,
    ensures
        scan_token(t, pos) matches Ok((token, next)) ==> token.span.start == pos && token.span.stop
            == next - 1,
{
    lemma_scan_token_bounds(t, pos);
}

/// `result`, with the cursor at `end_pos`, is what `expected` says: the same
/// token and the cursor right after it, or the same failure.
pub open spec fn scanned_as(
    expected: Scanned,
    result: Result<TokenContainer, LexerError>,
    end_pos: usize,
) -> bool {
    match expected {
        Ok((token, next)) => result matches Ok(tc) && tc@ == token && end_pos == next,
        Err(e) => result matches Err(err) && err == e,
    }
}

/// Decides [`is_operator_start`].
pub fn char_is_operator_start(c: char) -> (b: bool)
    ensures
        b == is_operator_start(c),
{
    c == '+' || c == '-' || c == '*' || c == '/' || c == '>' || c == '<' || c == '=' || c == '&'
        || c == '!' || c == '|'
}

/// Decides [`start_of`].
pub fn classify(c: char, blank: bool, letter: bool) -> (start: Start)
    ensures
        start == start_of(c, blank, letter),
{
    if blank {
        return Start::Whitespace;
    }
    match Punctuation::from_char(c) {
        Some(p) => Start::Punctuation(p),
        None => {
            if c == '"' || c == '\'' {
                Start::Quote
            } else if letter || c == '_' {
                Start::Word
            } else if char_is_digit(c) {
                Start::Number
            } else if char_is_operator_start(c) {
                Start::Operator
            } else {
                Start::Invalid
            }
        },
    }
}

/// The tokenizer. It holds no state: the cursor lives in [`Lexer::parse`].
pub struct Lexer;

impl Lexer {
    /// Reads all the tokens of `source_code`, or stops at the first failure
    /// and reports it for the file `file_name`. The tokens that are read lose
    /// nothing of the text: their spans tile it with only whitespace between
    /// them, and each token fits the text of its span.
    pub fn parse(source_code: &SourceCodeContainer, file_name: &str) -> (r: Result<
        Vec<TokenContainer>,
        Error,
    >)
        ensures
            match tokenize(source_code@) {
                Ok(tokens) => r matches Ok(v) && token_views(v@) == tokens,
                Err(e) => r matches Err(err) && err@ == e.report(file_name@),
            },
            r matches Ok(v) ==> {
                &&& spans_tile(source_code@, token_views(v@), 0)
                &&& rebuilt(source_code@, token_views(v@), 0) == source_code@
                &&& forall|i: int|
                    0 <= i < v@.len() ==> token_fits(source_code@, #[trigger] token_views(v@)[i])
            },
    {
        let ghost t = source_code@;
        let total = source_code.total_chars();
        let mut generated_tokens: Vec<TokenContainer> = Vec::new();
        let mut pos: usize = 0;
        while pos < total
            invariant
                t == source_code@,
                pos <= total == t.len(),
                tokenize(t) == after(token_views(generated_tokens@), lex_from(t, pos as int)),
            decreases total - pos,
        {
            let c_char = source_code.char_at(pos).unwrap();
            let ghost start = pos;
            let scanned = match classify(c_char, c_char.is_whitespace(), c_char.is_alphabetic()) {
                Start::Whitespace => {
                    pos += 1;
                    continue ;
                },
                Start::Punctuation(p) => {
                    pos += 1;
                    Ok(
                        TokenContainer {
                            token: Token::Punctuation(p),
                            span: Span { start: pos - 1, stop: pos - 1 },
                        },
                    )
                },
                Start::Quote => Self::handle_string(source_code, &mut pos),
                Start::Word => Ok(Self::handle_word(source_code, &mut pos)),
                Start::Number => Self::handle_number(source_code, &mut pos),
                Start::Operator => Self::handle_operator(source_code, &mut pos),
                Start::Invalid => Err(LexerError::InvalidToken { start: pos, stop: pos }),
            };
            match scanned {
                Ok(token_container) => {
                    proof {
                        lemma_scan_token_bounds(t, start as int);
                        let before = token_views(generated_tokens@);
                        assert(token_views(generated_tokens@.push(token_container)) =~= before.push(
                            token_container@,
                        ));
                        match lex_from(t, pos as int) {
                            Ok(more) => {
                                assert(before + (seq![token_container@] + more) =~= before.push(
                                    token_container@,
                                ) + more);
                            },
                            Err(_) => {},
                        }
                    }
                    generated_tokens.push(token_container);
                },
                Err(e) => {
                    return Err(e.to_error(file_name));
                },
            }
        }
        proof {
            lemma_tokens_rebuild_text(t);
            lemma_tokens_fit_text(t);
        }
        Ok(generated_tokens)
    }

    /// Reads the string literal whose opening quote stands at the cursor.
    fn handle_string(source_code: &SourceCodeContainer, pos: &mut usize) -> (r: Result<
        TokenContainer,
        LexerError,
    >)
        requires
            *old(pos) < source_code@.len(),
        ensures
            scanned_as(scan_string(source_code@, *old(pos) as int), r, *final(pos)),
    {
        let ghost t = source_code@;
        let total = source_code.total_chars();
        let start_pos = *pos;
        let start_sym = source_code.char_at(*pos).unwrap();
        *pos += 1;
        let mut string_terminated = false;
        let mut first_line_end_pos: Option<usize> = None;
        while *pos < total && !string_terminated
            invariant
                t == source_code@,
                start_pos < *pos <= total == t.len(),
                t[start_pos as int] == start_sym,
                forall|i: int| start_pos < i < *pos ==> t[i] != start_sym,
                string_terminated ==> *pos < total && t[*pos as int] == start_sym,
                match first_line_end_pos {
                    Some(n) => start_pos < n < *pos && t[n as int] == '\n' && forall|i: int|
                        start_pos < i < n ==> t[i] != '\n',
                    None => forall|i: int| start_pos < i < *pos ==> t[i] != '\n',
                },
            decreases total - *pos, if string_terminated { 0int } else { 1int },
        {
            let c_char = source_code.char_at(*pos).unwrap();
            if c_char == start_sym {
                string_terminated = true;
            } else {
                if first_line_end_pos.is_none() && c_char == '\n' {
                    first_line_end_pos = Some(*pos);
                }
                *pos += 1;
            }
        }
        proof {
            lemma_find_char(t, start_pos + 1, *pos as int, start_sym);
        }
        if !string_terminated {
            let stop = match first_line_end_pos {
                Some(n) => {
                    proof {
                        lemma_find_char(t, start_pos + 1, n as int, '\n');
                    }
                    n
                },
                None => {
                    *pos
                },
            };
            return Err(LexerError::StringNotTerminated { start: start_pos, stop });
        }
        let string_data = if start_pos + 1 < *pos {
            source_code.get_text(start_pos + 1, *pos - 1).unwrap()
        } else {
            String::new()
        };
        proof {
            assert(string_data@ =~= t.subrange(start_pos + 1, *pos as int));
        }
        let t_container = TokenContainer {
            token: Token::String(string_data),
            span: Span { start: start_pos, stop: *pos },
        };
        *pos += 1;
        Ok(t_container)
    }

    /// Reads the word that starts at the cursor.
    fn handle_word(source_code: &SourceCodeContainer, pos: &mut usize) -> (r: TokenContainer)
        requires
            *old(pos) < source_code@.len(),
        ensures
            scanned_as(
                scan_word(source_code@, *old(pos) as int),
                Ok::<TokenContainer, LexerError>(r),
                *final(pos),
            ),
    {
        let ghost t = source_code@;
        let total = source_code.total_chars();
        let start_pos = *pos;
        *pos += 1;
        let mut in_word = true;
        while *pos < total && in_word
            invariant
                t == source_code@,
                start_pos < *pos <= total == t.len(),
                forall|i: int| start_pos < i < *pos ==> is_word_char(#[trigger] t[i]),
                !in_word ==> *pos < total && !is_word_char(t[*pos as int]),
            decreases total - *pos, if in_word { 1int } else { 0int },
        {
            let c_char = source_code.char_at(*pos).unwrap();
            if !c_char.is_alphanumeric() && c_char != '_' {
                in_word = false;
            } else {
                *pos += 1;
            }
        }
        proof {
            lemma_run_end_is(t, start_pos + 1, *pos as int, word_chars());
        }
        let word = source_code.get_text(start_pos, *pos - 1).unwrap();
        let token = if same_text(word.as_str(), "true") {
            Token::Boolean(true)
        } else if same_text(word.as_str(), "false") {
            Token::Boolean(false)
        } else {
            Token::Word(word)
        };
        TokenContainer { token: token, span: Span { start: start_pos, stop: *pos - 1 } }
    }

    /// Reads the number that starts at the cursor.
    fn handle_number(source_code: &SourceCodeContainer, pos: &mut usize) -> (r: Result<
        TokenContainer,
        LexerError,
    >)
        requires
            *old(pos) < source_code@.len(),
            is_digit(source_code@[*old(pos) as int]),
        ensures
            scanned_as(scan_number(source_code@, *old(pos) as int), r, *final(pos)),
    {
        let ghost t = source_code@;
        let total = source_code.total_chars();
        let start_pos = *pos;
        let mut is_float = false;
        let mut in_number = true;
        while *pos < total && in_number
            invariant
                t == source_code@,
                start_pos <= *pos <= total == t.len(),
                is_digit(t[start_pos as int]),
                in_number || *pos > start_pos,
                forall|i: int| start_pos <= i < *pos ==> is_number_char(#[trigger] t[i]),
                !in_number ==> *pos < total && !is_number_char(t[*pos as int]),
                is_float <==> exists|i: int| start_pos <= i < *pos && t[i] == '.',
            decreases total - *pos, if in_number { 1int } else { 0int },
        {
            let c_char = source_code.char_at(*pos).unwrap();
            if !(char_is_digit(c_char) || c_char == '.') {
                in_number = false;
            } else {
                if c_char == '.' {
                    is_float = true;
                }
                *pos += 1;
            }
        }
        proof {
            lemma_run_end_is(t, start_pos as int, *pos as int, number_chars());
        }
        let number_str = source_code.get_text(start_pos, *pos - 1).unwrap();
        let digits = to_chars(number_str.as_str());
        let ghost text = t.subrange(start_pos as int, *pos as int);
        proof {
            if is_float {
                let i = choose|i: int| start_pos <= i < *pos && t[i] == '.';
                assert(text[i - start_pos] == '.');
            }
        }
        if is_float {
            if check_float_literal(&digits) {
                Ok(
                    TokenContainer {
                        token: Token::Float(number_str),
                        span: Span { start: start_pos, stop: *pos - 1 },
                    },
                )
            } else {
                Err(LexerError::InvalidFloat { start: start_pos, stop: *pos - 1 })
            }
        } else {
            match parse_decimal(&digits) {
                Some(value) => Ok(
                    TokenContainer {
                        token: Token::Int(value),
                        span: Span { start: start_pos, stop: *pos - 1 },
                    },
                ),
                None => Err(LexerError::InvalidInteger { start: start_pos, stop: *pos - 1 }),
            }
        }
    }

    /// Reads the operator that starts at the cursor.
    fn handle_operator(source_code: &SourceCodeContainer, pos: &mut usize) -> (r: Result<
        TokenContainer,
        LexerError,
    >)
        requires
            *old(pos) < source_code@.len(),
        ensures
            scanned_as(scan_operator(source_code@, *old(pos) as int), r, *final(pos)),
    {
        proof {
            use_type_invariant(source_code);
            source_code.lemma_text_shape();
        }
        let start_pos = *pos;
        let wide = match source_code.char_at(start_pos + 1) {
            Some(next_char) => char_is_operator_start(next_char),
            None => false,
        };
        let stop_pos = if wide {
            start_pos + 1
        } else {
            start_pos
        };
        let symbol = source_code.get_text(start_pos, stop_pos).unwrap();
        *pos = stop_pos + 1;
        match Operator::from_symbol(symbol.as_str()) {
            Some(op) => Ok(
                TokenContainer {
                    token: Token::Operator(op),
                    span: Span { start: start_pos, stop: stop_pos },
                },
            ),
            None => Err(LexerError::InvalidOperator { start: start_pos, stop: stop_pos }),
        }
    }
}

/// If no character of `t[from..to]` is `c`, and `c` stands at `to` or `to` is
/// the end of the text, then `to` is where `c` is first found from `from` on.
pub proof fn lemma_find_char(t: Seq<char>, from: int, to: int, c: char)
    requires
        0 <= from <= to <= t.len(),
        forall|i: int| from <= i < to ==> t[i] != c,
        to < t.len() ==> t[to] == c,
    ensures
        find_char(t, from, c) == to,
{
    lemma_run_end_is(t, from, to, all_but(c));
}

/// Every character of `s` is whitespace.
pub open spec fn all_whitespace(s: Seq<char>) -> bool {
    forall|i: int| 0 <= i < s.len() ==> whitespace(#[trigger] s[i])
}

/// From offset `from` on, the spans of `tokens` follow one another in the
/// text `t` without overlap, each within the text, and all that lies before,
/// between and after them is whitespace.
pub open spec fn spans_tile(t: Seq<char>, tokens: Seq<TokenContainerView>, from: int) -> bool
    decreases tokens.len(),
{
    if tokens.len() == 0 {
        from <= t.len() && all_whitespace(t.subrange(from, t.len() as int))
    } else {
        let span = tokens[0].span;
        &&& from <= span.start <= span.stop < t.len()
        &&& all_whitespace(t.subrange(from, span.start as int))
        &&& spans_tile(t, tokens.drop_first(), span.stop + 1)
    }
}

/// What [`SourceCodeContainer::get_text`] gives for the span of a token.
pub open spec fn span_text(t: Seq<char>, span: Span) -> Seq<char> {
    match text_between(t, span.start as int, span.stop as int) {
        Some(text) => text,
        None => Seq::empty(),
    }
}

/// The text put together again from offset `from` on: before each token the
/// characters that were skipped, then the text of its span, and after the
/// last token the characters that were skipped at the end.
pub open spec fn rebuilt(t: Seq<char>, tokens: Seq<TokenContainerView>, from: int) -> Seq<char>
    decreases tokens.len(),
{
    if tokens.len() == 0 {
        t.subrange(from, t.len() as int)
    } else {
        let span = tokens[0].span;
        t.subrange(from, span.start as int) + span_text(t, span) + rebuilt(
            t,
            tokens.drop_first(),
            span.stop + 1,
        )
    }
}

/// Tokenizing from `pos` on loses nothing: the spans of the tokens tile the
/// rest of the text with only whitespace between them, and the rest of the
/// text is put together again from them.
pub proof fn lemma_lex_from_tiles(t: Seq<char>, pos: int)
    requires
        0 <= pos <= t.len() <= usize::MAX,
        lex_from(t, pos) is Ok,
    ensures
        spans_tile(t, lex_from(t, pos)->Ok_0, pos),
        rebuilt(t, lex_from(t, pos)->Ok_0, pos) == t.subrange(pos, t.len() as int),
    decreases t.len() - pos,
{
    if pos < t.len() && char_start(t[pos]) == Start::Whitespace {
        lemma_lex_from_tiles(t, pos + 1);
        assert(seq![t[pos]] + t.subrange(pos + 1, t.len() as int) =~= t.subrange(
            pos,
            t.len() as int,
        ));
    } else if pos < t.len() {
        lemma_scan_token_span(t, pos);
        lemma_scan_token_bounds(t, pos);
        let next = scan_token(t, pos)->Ok_0.1;
        lemma_lex_from_tiles(t, next);
        assert(lex_from(t, pos)->Ok_0.drop_first() =~= lex_from(t, next)->Ok_0);
    }
}

/// Tokenizing loses nothing. When a text is tokenized without failure, the
/// spans of its tokens follow one another without overlap, only whitespace
/// lies outside them, and the characters of the spans with the skipped
/// whitespace between them are the text again.
pub proof fn lemma_tokens_rebuild_text(t: Seq<char>)
    requires
        t.len() <= usize::MAX,
        tokenize(t) is Ok,
    ensures
        spans_tile(t, tokenize(t)->Ok_0, 0),
        rebuilt(t, tokenize(t)->Ok_0, 0) == t,
{
    lemma_lex_from_tiles(t, 0);
}

/// The token says what the text of its span writes. A word or a float is that
/// text and a boolean is the word that it is; an integer is the value of its
/// digits; a string is what stands between two equal quotes, without that
/// quote in it; an operator or a punctuation mark is spelled by that text.
pub open spec fn token_fits(t: Seq<char>, token: TokenContainerView) -> bool {
    let text = span_text(t, token.span);
    match token.token {
        TokenView::Int(value) => parsed_decimal(text) == Some(value),
        TokenView::Float(literal) => literal == text && is_float_literal(text),
        TokenView::String(content) => {
            &&& text.len() >= 2
            &&& text[0] == '"' || text[0] == '\''
            &&& text[text.len() - 1] == text[0]
            &&& content == text.subrange(1, text.len() - 1)
            &&& forall|i: int| 0 <= i < content.len() ==> content[i] != text[0]
        },
        TokenView::Boolean(value) => text == if value {
            "true"@
        } else {
            "false"@
        },
        TokenView::Word(name) => {
            &&& name == text
            &&& name != "true"@
            &&& name != "false"@
            &&& name.len() >= 1
            &&& char_start(name[0]) == Start::Word
            &&& forall|i: int| 1 <= i < name.len() ==> is_word_char(#[trigger] name[i])
        },
        TokenView::Operator(op) => text == op.spec_symbol(),
        TokenView::Punctuation(p) => text == seq![p.spec_char()],
    }
}

/// The token that is read at `pos` fits the text.
pub proof fn lemma_scan_token_fits(t: Seq<char>, pos: int)
    requires
        0 <= pos < t.len() <= usize::MAX,
        char_start(t[pos]) != Start::Whitespace,
    ensures
        scan_token(t, pos) matches Ok((token, _)) ==> token_fits(t, token),
{
    lemma_scan_token_bounds(t, pos);
    match scan_token(t, pos) {
        Ok((token, next)) => {
            let text = span_text(t, token.span);
            match char_start(t[pos]) {
                Start::Quote => {
                    lemma_run_end(t, pos + 1, all_but(t[pos]));
                    let content = t.subrange(pos + 1, next - 1);
                    assert(text.subrange(1, text.len() - 1) =~= content);
                },
                Start::Word => {
                    lemma_run_end(t, pos + 1, word_chars());
                },
                Start::Operator => {
                    let op = token.token->Operator_0;
                    Operator::lemma_symbol_resolves(text, op);
                },
                Start::Punctuation(p) => {
                    assert(text =~= seq![p.spec_char()]);
                },
                _ => {},
            }
        },
        Err(_) => {},
    }
}

/// Every token that is read from `pos` on fits the text.
pub proof fn lemma_lex_from_fits(t: Seq<char>, pos: int)
    requires
        0 <= pos <= t.len() <= usize::MAX,
        lex_from(t, pos) is Ok,
    ensures
        forall|i: int|
            0 <= i < lex_from(t, pos)->Ok_0.len() ==> token_fits(
                t,
                #[trigger] lex_from(t, pos)->Ok_0[i],
            ),
    decreases t.len() - pos,
{
    if pos < t.len() && char_start(t[pos]) == Start::Whitespace {
        lemma_lex_from_fits(t, pos + 1);
    } else if pos < t.len() {
        lemma_scan_token_bounds(t, pos);
        lemma_scan_token_fits(t, pos);
        lemma_lex_from_fits(t, scan_token(t, pos)->Ok_0.1);
    }
}

/// Tokens say what the text says. When a text is tokenized without failure,
/// every token fits the text of its span.
pub proof fn lemma_tokens_fit_text(t: Seq<char>)
    requires
        t.len() <= usize::MAX,
        tokenize(t) is Ok,
    ensures
        forall|i: int|
            0 <= i < tokenize(t)->Ok_0.len() ==> token_fits(t, #[trigger] tokenize(t)->Ok_0[i]),
{
    lemma_lex_from_fits(t, 0);
}

} // verus!
