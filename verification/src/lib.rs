//! A small engine for building tokenizers out of ordered, composable
//! matching rules, together with a diagnostic renderer that turns spans
//! into caret-annotated source excerpts.

pub mod span;
pub mod source;
pub mod token;
pub mod cursor;
pub mod lexer;
pub mod error;
