//! The pipeline from source text to expression tree.
use vstd::prelude::*;
use crate::hylo_error::report::{Error, ErrorView};
use crate::lexer::lexer::{tokenize, Lexer};
use crate::lexer::source_code::SourceCodeContainer;
use crate::parser::components::{Expr, ExprView};
use crate::parser::parser::{parse_expr_spec, Parser};

verus! {

/// The name that diagnostics give to text that comes from no file.
pub open spec fn stdin_label() -> Seq<char> {
    "<stdin>"@
}

/// What compiling the text `text` gives: the expression that its tokens
/// start with, or the report of the first failure of the tokenizer or of the
/// parser.
pub open spec fn compiled(text: Seq<char>) -> Result<ExprView, ErrorView> {
    match tokenize(text.push('\n')) {
        Ok(tokens) => match parse_expr_spec(tokens, 0) {
            Ok((expr, _)) => Ok(expr),
            Err(failure) => Err(failure.report(stdin_label())),
        },
        Err(failure) => Err(failure.report(stdin_label())),
    }
}

/// The front end as one unit: tokenizer and parser in a row.
pub struct HyloCompiler;

impl HyloCompiler {
    /// A compiler; it holds no state.
    pub fn new() -> Self {
        HyloCompiler {  }
    }

    /// Tokenizes and parses `source_code`, which is reported under the name
    /// `<stdin>`.
    pub fn compile_stdin(&self, source_code: String) -> (r: Result<Expr, Error>)
        ensures
            match compiled(source_code@) {
                Ok(expr) => r matches Ok(e) && e@ == expr,
                Err(error) => r matches Err(e) && e@ == error,
            },
    {
        let source_code = SourceCodeContainer::from(source_code);
        let tokens = match Lexer::parse(&source_code, "<stdin>") {
            Ok(t) => t,
            Err(e) => {
                return Err(e);
            },
        };
        let mut parser = Parser::new(tokens, "<stdin>");
        parser.parse_program()
    }
}

} // verus!
