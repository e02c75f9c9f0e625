//! Diagnostics: the kinds of error, the error value and its rendering.
pub mod kind;
pub mod report;
