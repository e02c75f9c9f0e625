//! The expression tree and the parser that builds it.
pub mod components;
pub mod parser;
