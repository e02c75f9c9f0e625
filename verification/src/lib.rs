//! Front end of the Hylo scripting language: source-text indexing, the
//! tokenizer, the diagnostic model and the expression parser.
//!
//! Every function here carries a contract over the mathematical view of its
//! arguments, and every contract is proved.
pub mod text;
pub mod hylo_error;
pub mod lexer;
pub mod parser;
pub mod compiler;
