//! Generation of the linear intermediate representation.

pub mod irnode;
pub mod lirgen;
pub mod ssa;
pub mod caches;
pub mod lirgen_impl;
pub mod list_ssa;
pub mod operand_order;
