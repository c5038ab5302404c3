//! A second entry point to the optimizer: the same passes behind the same interface.

use vstd::prelude::*;
use crate::lirgen::irnode::IrNode;
use crate::optimizer::optimizer::{is_program, optimized};

verus! {

/// The optimizer of the intermediate representation, for an optimisation level.
#[derive(Clone, Copy, Debug, PartialEq, Eq, Structural, PartialOrd, Ord)]
pub struct Optimizer {
    opt: u32,
}

impl Default for Optimizer {
    /// An optimizer for level 0.
    fn default() -> (r: Optimizer)
        ensures
            r.level() == 0,
    {
        Optimizer { opt: 0 }
    }
}

impl Optimizer {
    /// The optimisation level the optimizer was made for.
    pub closed spec fn level(self) -> u32 {
        self.opt
    }

    /// An optimizer for the optimisation level `opt`.
    pub fn new(opt: u32) -> (r: Optimizer)
        ensures
            r.level() == opt,
    {
        Optimizer { opt }
    }

    /// Runs dead code removal and control flow removal until control flow removal finds nothing
    /// to remove. Functions named `init` are left as they are.
    pub fn optimize(&mut self, ir: IrNode) -> (r: IrNode)
        requires
            is_program(ir@),
        ensures
            r@ == optimized(ir@),
            *final(self) == *old(self),
    {
        let mut passes = crate::optimizer::optimizer::Optimizer::new(self.opt);
        passes.optimize(ir)
    }
}

} // verus!
