//! Abstract syntax tree of the language and the types its nodes carry.

pub mod type_wrapper;
pub mod ast_impl;
