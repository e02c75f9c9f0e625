//! Source text and its tokens.
pub mod source_code;
pub mod tokens;
pub mod lexer;
