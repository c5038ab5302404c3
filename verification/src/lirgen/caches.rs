//! The scoping of the caches: a constant loaded inside a branch or a loop is not reused after
//! it, and a store through a pointer forgets every variable value.

use vstd::prelude::*;
use crate::ast::ast_impl::{AstModel, WrapperModel};
use crate::lexer::token::{Operator, TkModel};
use crate::lirgen::irnode::IrModel;
use crate::ast::type_wrapper::TypeWrapper;
use crate::lirgen::lirgen::{
    lin, lin_binary, lin_branch_condition, lin_for, lin_if, lin_while, selector_offset, selector_sum,
    st_add_constant, st_erase, st_fresh_label, st_get_constant, LirState, LinOut,
};

verus! {

/// A `while` loop forgets the constants loaded inside it: after the loop, the registers known to
/// hold constants are those known before it.
pub proof fn lemma_while_forgets_constants(s: LirState, w: WrapperModel, ga: bool, brk: u32, cont: u32)
    requires
        w.node is WhileNode,
    ensures
        lin(s, w, ga, brk, cont) matches Some((s2, _, _)) ==> s2.constants == s.constants,
{
    assert(lin(s, w, ga, brk, cont) == lin_while(s, w, ga));
}

/// The outcome of the initialisation of a `for` loop, linearised after the loop's four labels
/// are taken.
pub open spec fn for_init_state(s: LirState, w: WrapperModel, ga: bool) -> LinOut {
    match w.node {
        AstModel::ForNode(e1, _, _, _) => match st_fresh_label(s) {
            Some((s1, _)) => match st_fresh_label(s1) {
                Some((s2, _)) => match st_fresh_label(s2) {
                    Some((s3, _)) => match st_fresh_label(s3) {
                        Some((s4, _)) => lin(s4, *e1, ga, 0, 0),
                        None => None,
                    },
                    None => None,
                },
                None => None,
            },
            None => None,
        },
        _ => None,
    }
}

/// A `for` loop forgets the constants loaded in its condition, body and step: after the loop,
/// the registers known to hold constants are those known after its initialisation.
pub proof fn lemma_for_forgets_constants(s: LirState, w: WrapperModel, ga: bool, brk: u32, cont: u32)
    requires
        w.node is ForNode,
    ensures
        lin(s, w, ga, brk, cont) matches Some((s2, _, _)) ==> s2.constants == for_init_state(s, w, ga).unwrap().0.constants,
{
    assert(lin(s, w, ga, brk, cont) == lin_for(s, w, ga));
}

/// The state after the test of a conditional.
pub open spec fn if_test_state(s: LirState, w: WrapperModel) -> Option<(LirState, Seq<IrModel>)> {
    match w.node {
        AstModel::IfNode(expr, _, else_body) => match st_fresh_label(s) {
            Some((s1, l_end)) => {
                let labels = if !(else_body.node is NullNode) {
                    st_fresh_label(s1)
                } else {
                    Some((s1, l_end))
                };
                match labels {
                    Some((s2, l_else)) => lin_branch_condition(s2, *expr, l_else),
                    None => None,
                }
            },
            None => None,
        },
        _ => None,
    }
}

/// A conditional forgets the constants loaded in its branches: after it, the registers known to
/// hold constants are those known after its test.
pub proof fn lemma_if_forgets_constants(s: LirState, w: WrapperModel, ga: bool, brk: u32, cont: u32)
    requires
        w.node is IfNode,
    ensures
        lin(s, w, ga, brk, cont) matches Some((s2, _, _)) ==> s2.constants == if_test_state(s, w).unwrap().0.constants,
{
    assert(lin(s, w, ga, brk, cont) == lin_if(s, w, ga, brk, cont));
}

/// An assignment through anything but a variable's name may change any variable: after it, no
/// variable value is known.
pub proof fn lemma_indirect_store_forgets_values(s: LirState, w: WrapperModel, ga: bool, brk: u32, cont: u32)
    requires
        w.node matches AstModel::BinaryNode(tk, e1, _) && tk.tk == TkModel::Operator(Operator::Assign) && !(
        e1.node is PrimaryNode),
    ensures
        lin(s, w, ga, brk, cont) matches Some((s2, _, _)) ==> s2.values == Map::<Seq<char>, u32>::empty(),
{
    assert(lin(s, w, ga, brk, cont) == lin_binary(s, w, ga));
}

/// At level 0 no constant is reused; from level 1, a constant just recorded in a register is
/// found in that register, recording another constant does not change where a constant is found,
/// and once the registers are erased no constant is found.
pub proof fn lemma_constant_cache(s: LirState, r: u32, v: u32, c: u32)
    ensures
        s.opt == 0 ==> st_get_constant(s, c) is None,
        s.opt > 0 ==> st_get_constant(st_add_constant(s, r, v), v) == Some(r),
        c != v ==> st_get_constant(st_add_constant(s, r, v), c) == st_get_constant(s, c),
        st_get_constant(st_erase(s), c) is None,
{
}

/// Computing the offset of an element records in the cache of operations only the shift it
/// emits: the new entry, if any, is the operation of the last node of the list.
pub proof fn lemma_offset_cache_entry(s: LirState, list: Seq<IrModel>, tt: TypeWrapper, index: u32, size: u32)
    ensures
        selector_offset(s, list, tt, index, size) matches Some((s2, l2, _)) ==> (s2.binaries == s.binaries || (
        s2.binaries.len() == s.binaries.len() + 1 && s2.binaries.drop_last() == s.binaries && l2.len() > 0
            && l2.last() == IrModel::Binary(
            s2.binaries.last().0,
            tt,
            s2.binaries.last().1,
            s2.binaries.last().2,
            s2.binaries.last().3,
        ))),
{
    if let Some((s2, l2, _)) = selector_offset(s, list, tt, index, size) {
        if s2.binaries != s.binaries {
            assert(s2.binaries.drop_last() =~= s.binaries);
        }
    }
}

/// Computing the address of an element records in the cache of operations only the sum it
/// emits, as the sum it is.
pub proof fn lemma_sum_cache_entry(s: LirState, list: Seq<IrModel>, tt: TypeWrapper, base: u32, offset: u32)
    ensures
        selector_sum(s, list, tt, base, offset) matches Some((s2, l2, _)) ==> (s2.binaries == s.binaries || (
        s2.binaries.len() == s.binaries.len() + 1 && s2.binaries.drop_last() == s.binaries && l2.len() > 0
            && s2.binaries.last().0 == Operator::Plus && l2.last() == IrModel::Binary(
            s2.binaries.last().0,
            tt,
            s2.binaries.last().1,
            s2.binaries.last().2,
            s2.binaries.last().3,
        ))),
{
    if let Some((s2, l2, _)) = selector_sum(s, list, tt, base, offset) {
        if s2.binaries != s.binaries {
            assert(s2.binaries.drop_last() =~= s.binaries);
        }
    }
}

} // verus!
