//! Lexical front end of a small interpreted language: source text in, typed
//! tokens out, with every scanning rule stated as a contract and proved.

pub mod lang;
