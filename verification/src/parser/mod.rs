//! Name resolution: scopes of declared symbols and suggestions for unknown ones.

pub mod similar;
pub mod resolution;
pub mod symbol_table;
pub mod parser;
pub mod precedence;
