//! Optimisation of the linear intermediate representation.

pub mod optimizer;
pub mod optimizer_impl;
pub mod fixpoint;
