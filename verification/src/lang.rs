//! The language front end: token representation and the tokenizer.

pub mod lexer;
pub mod scan;
pub mod spacing;
pub mod stream;
pub mod token;
