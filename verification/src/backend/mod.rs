//! The RV32IM back end.

pub mod riscv_isa;
pub mod codegen_riscv;
pub mod semantics;
