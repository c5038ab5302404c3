//! A small compiler for a C-like language targeting RV32IM: lexer, ast, linear intermediate
//! representation, optimizer and symbol tables, with their behaviour stated and proved in Verus.

pub mod text;
pub mod lexer;
pub mod ast;
pub mod lirgen;
pub mod optimizer;
pub mod parser;
pub mod backend;
