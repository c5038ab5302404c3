//! The order of the operands of the operations the generator emits: the code for `e1 op e2`
//! computes `e1 op e2`, its first source holding the value of `e1` and its second that of `e2`.

use vstd::prelude::*;
use crate::ast::ast_impl::{AstModel, WrapperModel};
use crate::lexer::token::{Operator, TkModel};
use crate::lirgen::irnode::IrModel;
use crate::lirgen::lirgen::{find_binary, is_commutative, lin, lin_binary, ComputedBinary, LirState};
use crate::lirgen::lirgen_impl::{clin, clin_binary, CacheState};

verus! {

/// Whether the operations recorded in `bs` give register `r` as holding `x op y`, or `y op x`
/// when `op` is commutative.
pub open spec fn records(bs: Seq<ComputedBinary>, r: u32, op: Operator, x: u32, y: u32) -> bool {
    exists|k: int|
        0 <= k < bs.len() && (bs[k] == (op, r, x, y) || (is_commutative(op) && bs[k] == (op, r, y, x)))
}

/// An operation found among the recorded ones is recorded with its operands in order, or swapped
/// for a commutative operator.
pub proof fn lemma_found_operation_recorded(bs: Seq<ComputedBinary>, x: u32, y: u32, op: Operator)
    ensures
        find_binary(bs, x, y, op) matches Some(d) ==> records(bs, d, op, x, y),
    decreases bs.len(),
{
    if bs.len() > 0 {
        lemma_found_operation_recorded(bs.drop_first(), x, y, op);
        if let Some(d) = find_binary(bs, x, y, op) {
            let e = bs[0];
            if !(e.0 == op && e.2 == x && e.3 == y) && !(is_commutative(op) && e.0 == op && e.3 == x && e.2 == y) {
                let k = choose|k: int|
                    0 <= k < bs.drop_first().len() && (bs.drop_first()[k] == (op, d, x, y) || (is_commutative(op)
                        && bs.drop_first()[k] == (op, d, y, x)));
                assert(bs[k + 1] == bs.drop_first()[k]);
            } else {
                assert(bs[0] == (op, d, x, y) || (is_commutative(op) && bs[0] == (op, d, y, x)));
            }
        }
    }
}

/// The code of `e1 op e2`, for an operator other than `=`: the code of `e1`, then that of `e2`,
/// then one operation whose first source is the register holding `e1` and whose second is the
/// register holding `e2`, into a fresh register recorded as holding `e1 op e2`; or, with caches
/// on, no code and a register already recorded as holding `e1 op e2`.
pub proof fn lemma_binary_operands_in_order(s: LirState, w: WrapperModel, ga: bool, brk: u32, cont: u32)
    requires
        w.node matches AstModel::BinaryNode(tok, _, _) && tok.tk != TkModel::Operator(Operator::Assign),
    ensures
        lin(s, w, ga, brk, cont) matches Some((s3, l, r)) ==> (w.node matches AstModel::BinaryNode(tok, e1, e2)
            && (tok.tk matches TkModel::Operator(op) && (lin(s, *e1, ga, 0, 0) matches Some((s1, l1, r1)) && (lin(
            s1,
            *e2,
            ga,
            0,
            0,
        ) matches Some((s2, l2, r2)) && ((l == l1 + l2 + seq![IrModel::Binary(op, w.type_ref, r, r1, r2)]
            && r == s2.reg + 1 && s3.binaries == s2.binaries.push((op, r, r1, r2))) || (s2.opt > 0 && l.len()
            == 0 && records(s2.binaries, r, op, r1, r2))))))),
{
    assert(lin(s, w, ga, brk, cont) == lin_binary(s, w, ga));
    if let AstModel::BinaryNode(tok, e1, e2) = w.node {
        if let TkModel::Operator(op) = tok.tk {
            if let Some((s1, l1, r1)) = lin(s, *e1, ga, 0, 0) {
                if let Some((s2, l2, r2)) = lin(s1, *e2, ga, 0, 0) {
                    lemma_found_operation_recorded(s2.binaries, r1, r2, op);
                }
            }
        }
    }
}

/// The same order in the generator that keeps its caches as lists: the code of `e1 op e2` ends
/// with one operation whose first source holds `e1` and whose second holds `e2`, or reuses a
/// register recorded as holding `e1 op e2`.
pub proof fn lemma_cached_binary_operands_in_order(s: CacheState, w: WrapperModel, ga: bool, brk: u32, cont: u32)
    requires
        w.node matches AstModel::BinaryNode(tok, _, _) && tok.tk != TkModel::Operator(Operator::Assign),
    ensures
        clin(s, w, ga, brk, cont) matches Some((s3, l, r)) ==> (w.node matches AstModel::BinaryNode(tok, e1, e2)
            && (tok.tk matches TkModel::Operator(op) && (clin(s, *e1, ga, brk, cont) matches Some((s1, l1, r1))
            && (clin(s1, *e2, ga, brk, cont) matches Some((s2, l2, r2)) && ((l == l1 + l2 + seq![
            IrModel::Binary(op, w.type_ref, r, r1, r2)] && r == s2.reg + 1 && s3.binaries == s2.binaries.push(
            (op, r, r1, r2),
        )) || (l.len() == 0 && records(s2.binaries, r, op, r1, r2))))))),
{
    assert(clin(s, w, ga, brk, cont) == clin_binary(s, w, ga, brk, cont));
    if let AstModel::BinaryNode(tok, e1, e2) = w.node {
        if let TkModel::Operator(op) = tok.tk {
            if let Some((s1, l1, r1)) = clin(s, *e1, ga, brk, cont) {
                if let Some((s2, l2, r2)) = clin(s1, *e2, ga, brk, cont) {
                    lemma_found_operation_recorded(s2.binaries, r1, r2, op);
                }
            }
        }
    }
}

/// The code of `e1 = e2`: the code of the address of `e1`, then that of the value of `e2`, then
/// a store of the register holding the value into the register holding the address; the result
/// is the address when an address is asked for, else the value.
pub proof fn lemma_assignment_stores_value_at_address(s: LirState, w: WrapperModel, ga: bool, brk: u32, cont: u32)
    requires
        w.node matches AstModel::BinaryNode(tok, _, _) && tok.tk == TkModel::Operator(Operator::Assign),
    ensures
        lin(s, w, ga, brk, cont) matches Some((s3, l, r)) ==> (w.node matches AstModel::BinaryNode(_, e1, e2)
            && (lin(s, *e1, true, 0, 0) matches Some((s1, l1, r1)) && (lin(s1, *e2, ga, 0, 0) matches Some(
            (s2, l2, r2),
        ) && l == l1 + l2 + seq![IrModel::Store(w.type_ref, r1, r2)] && r == (if ga {
            r1
        } else {
            r2
        })))),
{
    assert(lin(s, w, ga, brk, cont) == lin_binary(s, w, ga));
}

/// The same in the generator that keeps its caches as lists.
pub proof fn lemma_cached_assignment_stores_value_at_address(
    s: CacheState,
    w: WrapperModel,
    ga: bool,
    brk: u32,
    cont: u32,
)
    requires
        w.node matches AstModel::BinaryNode(tok, _, _) && tok.tk == TkModel::Operator(Operator::Assign),
    ensures
        clin(s, w, ga, brk, cont) matches Some((s3, l, r)) ==> (w.node matches AstModel::BinaryNode(_, e1, e2)
            && (clin(s, *e1, true, brk, cont) matches Some((s1, l1, r1)) && (clin(s1, *e2, ga, brk, cont) matches Some(
            (s2, l2, r2),
        ) && l == l1 + l2 + seq![IrModel::Store(w.type_ref, r1, r2)] && r == (if ga {
            r1
        } else {
            r2
        })))),
{
    assert(clin(s, w, ga, brk, cont) == clin_binary(s, w, ga, brk, cont));
}

} // verus!
