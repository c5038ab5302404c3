//! Lexical analysis: tokens and the lexers producing them.

pub mod token;
pub mod lexer;
pub mod lexer_impl;
