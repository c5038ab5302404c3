//! A second generator of the intermediate representation, with caches always on, kept as lists
//! searched from their first entry, and a branch or loop forgetting the constants and variable
//! values it recorded.

use vstd::prelude::*;
use crate::ast::ast_impl::{lemma_wrapper_model, AstModel, AstNode, AstNodeWrapper, WrapperModel};
use crate::ast::type_wrapper::{default_type, is_sized, type_size, TypeWrapper};
use crate::lexer::token::{Keyword, Operator, Tk, TkModel, Token};
use crate::lirgen::irnode::{
    compare_of_token, ir_list_model, opposite_of, CompareType,
    IrModel, IrNode,
};
use crate::lirgen::lirgen::{
    append_nodes, find_binary, init_tail, named_entries, pointer_to, push_node, string_seq, ComputedBinary,
};
use crate::text::strs_match;

pub use crate::lirgen::lirgen::LirgenResult;

verus! {

/// The state of the generator as a mathematical value: the counters, the caches as lists, and
/// what a branch or loop being linearised must forget when it ends.
#[verifier::ext_equal]
pub struct CacheState {
    pub reg: u32,
    pub label: u32,
    pub pointers: Seq<(Seq<char>, u32)>,
    pub values: Seq<(Seq<char>, u32)>,
    pub constants: Seq<(u32, u32)>,
    pub binaries: Seq<ComputedBinary>,
    pub is_global: bool,
    pub to_invalidate: bool,
    pub inv_vars: Seq<Seq<char>>,
    pub inv_consts: Seq<u32>,
}

/// The outcome of linearising a node: the new state, the instructions and the register holding
/// the result; `None` when the generator would stop.
pub type CacheOut = Option<(CacheState, Seq<IrModel>, u32)>;

/// The position of the first entry named `k`, from position `i` on.
pub open spec fn first_named_index(es: Seq<(Seq<char>, u32)>, k: Seq<char>, i: int) -> Option<int>
    decreases es.len() - i,
{
    if i < 0 || i >= es.len() {
        None
    } else if es[i].0 == k {
        Some(i)
    } else {
        first_named_index(es, k, i + 1)
    }
}

/// The register of the first entry named `k`.
pub open spec fn first_named(es: Seq<(Seq<char>, u32)>, k: Seq<char>) -> Option<u32> {
    match first_named_index(es, k, 0) {
        Some(j) => Some(es[j].1),
        None => None,
    }
}

/// The position of the first entry for the constant `c`, from position `i` on.
pub open spec fn first_const_index(es: Seq<(u32, u32)>, c: u32, i: int) -> Option<int>
    decreases es.len() - i,
{
    if i < 0 || i >= es.len() {
        None
    } else if es[i].0 == c {
        Some(i)
    } else {
        first_const_index(es, c, i + 1)
    }
}

/// The register of the first entry for the constant `c`.
pub open spec fn first_const(es: Seq<(u32, u32)>, c: u32) -> Option<u32> {
    match first_const_index(es, c, 0) {
        Some(j) => Some(es[j].1),
        None => None,
    }
}

/// The list without its first entry named `k`, if any.
pub open spec fn drop_first_named(es: Seq<(Seq<char>, u32)>, k: Seq<char>) -> Seq<(Seq<char>, u32)> {
    match first_named_index(es, k, 0) {
        Some(j) => es.remove(j),
        None => es,
    }
}

/// The list without its first entry for the constant `c`, if any.
pub open spec fn drop_first_const(es: Seq<(u32, u32)>, c: u32) -> Seq<(u32, u32)> {
    match first_const_index(es, c, 0) {
        Some(j) => es.remove(j),
        None => es,
    }
}

/// The values after dropping the first entry of each of the first `n` names of `keys`, in order.
pub open spec fn drop_names(es: Seq<(Seq<char>, u32)>, keys: Seq<Seq<char>>, n: int) -> Seq<(Seq<char>, u32)>
    decreases n,
{
    if n <= 0 {
        es
    } else {
        drop_first_named(drop_names(es, keys, n - 1), keys[n - 1])
    }
}

/// The constants after dropping the first entry of each of the first `n` constants of `keys`,
/// in order.
pub open spec fn drop_consts(es: Seq<(u32, u32)>, keys: Seq<u32>, n: int) -> Seq<(u32, u32)>
    decreases n,
{
    if n <= 0 {
        es
    } else {
        drop_first_const(drop_consts(es, keys, n - 1), keys[n - 1])
    }
}

/// The state after taking a fresh register, and that register.
pub open spec fn cs_fresh_reg(s: CacheState) -> Option<(CacheState, u32)> {
    if s.reg < u32::MAX {
        Some((CacheState { reg: (s.reg + 1) as u32, ..s }, (s.reg + 1) as u32))
    } else {
        None
    }
}

/// The state after taking a fresh label, and that label.
pub open spec fn cs_fresh_label(s: CacheState) -> Option<(CacheState, u32)> {
    if s.label < u32::MAX {
        Some((CacheState { label: (s.label + 1) as u32, ..s }, (s.label + 1) as u32))
    } else {
        None
    }
}

/// Records that register `r` holds the constant `v`; inside a branch or loop the constant is to
/// be forgotten at its end.
pub open spec fn cs_add_constant(s: CacheState, r: u32, v: u32) -> CacheState {
    CacheState {
        inv_consts: if s.to_invalidate {
            s.inv_consts.push(v)
        } else {
            s.inv_consts
        },
        constants: s.constants.push((v, r)),
        ..s
    }
}

/// Records that register `r` holds the value of variable `id`; inside a branch or loop the value
/// is to be forgotten at its end.
pub open spec fn cs_add_variable(s: CacheState, id: Seq<char>, r: u32) -> CacheState {
    CacheState {
        inv_vars: if s.to_invalidate {
            s.inv_vars.push(id)
        } else {
            s.inv_vars
        },
        values: s.values.push((id, r)),
        ..s
    }
}

/// Records that register `r` holds the address of variable `id`.
pub open spec fn cs_add_pointer(s: CacheState, id: Seq<char>, r: u32) -> CacheState {
    CacheState { pointers: s.pointers.push((id, r)), ..s }
}

/// Forgets every variable value.
pub open spec fn cs_clear_values(s: CacheState) -> CacheState {
    CacheState { values: Seq::empty(), ..s }
}

/// Forgets everything about registers and labels, as at the end of a function.
pub open spec fn cs_erase(s: CacheState) -> CacheState {
    CacheState {
        reg: 0,
        label: 0,
        pointers: Seq::empty(),
        values: Seq::empty(),
        constants: Seq::empty(),
        binaries: Seq::empty(),
        ..s
    }
}

/// At the end of a branch or loop: the first entry of each constant and variable recorded in it
/// is dropped.
pub open spec fn cs_invalidate(s: CacheState) -> CacheState {
    CacheState {
        constants: drop_consts(s.constants, s.inv_consts, s.inv_consts.len() as int),
        values: drop_names(s.values, s.inv_vars, s.inv_vars.len() as int),
        ..s
    }
}

/// After an assignment to variable `id` of the value in `r`: the first entry for `id` is
/// updated, or one is added; the variable is to be forgotten at the end of a branch or loop.
pub open spec fn cs_assign(s: CacheState, id: Seq<char>, r: u32) -> CacheState {
    let s1 = match first_named_index(s.values, id, 0) {
        Some(j) => CacheState { values: s.values.update(j, (id, r)), ..s },
        None => cs_add_variable(s, id, r),
    };
    CacheState { inv_vars: s1.inv_vars.push(id), ..s1 }
}

/// The identifier a token kind names, if it is one.
pub open spec fn ident_of(t: TkModel) -> Option<Seq<char>> {
    match t {
        TkModel::Identifier(s) => Some(s),
        _ => None,
    }
}

/// The instructions that jump to `label` when `expr` is false: the opposite comparison when
/// `expr` compares, else a test of its value.
pub open spec fn clin_condition(s: CacheState, expr: WrapperModel, label: u32, ga: bool, brk: u32, cont: u32) -> Option<
    (CacheState, Seq<IrModel>),
>
    decreases expr, 2nat,
{
    let compare = match expr.node {
        AstModel::BinaryNode(tk, _, _) => compare_of_token(tk.tk),
        _ => None,
    };
    if compare is Some {
        match expr.node {
            AstModel::BinaryNode(_, e1, e2) => match clin(s, *e1, ga, brk, cont) {
                Some((s1, l1, r1)) => match clin(s1, *e2, ga, brk, cont) {
                    Some((s2, l2, r2)) => Some(
                        (
                            s2,
                            l1 + l2 + seq![
                                IrModel::Branch(opposite_of(compare.unwrap()), e1.type_ref, r1, r2, label),
                            ],
                        ),
                    ),
                    None => None,
                },
                None => None,
            },
            _ => None,
        }
    } else {
        match clin(s, expr, ga, brk, cont) {
            Some((s1, l1, r1)) => Some((s1, l1 + seq![IrModel::Branch(CompareType::NS, expr.type_ref, r1, 0, label)])),
            None => None,
        }
    }
}

/// Linearises a node; `ga` asks for the address of an lvalue rather than its value, `brk` and
/// `cont` are the labels of the enclosing loop.
pub open spec fn clin(s: CacheState, w: WrapperModel, ga: bool, brk: u32, cont: u32) -> CacheOut
    decreases w, 1nat,
{
    match w.node {
        AstModel::DeclarationList(..) => clin_declaration_list(s, w, ga, brk, cont),
        AstModel::VarDeclNode(..) => clin_var_decl(s, w, ga, brk, cont),
        AstModel::PrimaryNode(..) => clin_primary(s, w, ga),
        AstModel::JumpNode(..) => clin_jump(s, w, ga, brk, cont),
        AstModel::CompoundNode(list) => match clin_statements(s, list, ga, brk, cont) {
            Some((s1, l1)) => Some((s1, l1, 0)),
            None => None,
        },
        AstModel::FuncDeclNode(..) => clin_func_decl(s, w, ga, brk, cont),
        AstModel::BinaryNode(..) => clin_binary(s, w, ga, brk, cont),
        AstModel::CastNode(..) => clin_cast(s, w, ga, brk, cont),
        AstModel::ExprStatementNode(e) => clin(s, *e, ga, brk, cont),
        AstModel::ArrayDeclNode(..) => clin_array_decl(s, w, ga, brk, cont),
        AstModel::ProcedureNode(..) => clin_procedure(s, w, ga, brk, cont),
        AstModel::PrefixNode(..) => clin_prefix(s, w, ga, brk, cont),
        AstModel::SelectorNode(..) => clin_selector(s, w, ga, brk, cont),
        AstModel::IfNode(..) => clin_if(s, w, ga, brk, cont),
        AstModel::WhileNode(..) => clin_while(s, w, ga, brk, cont),
        AstModel::ForNode(..) => clin_for(s, w, ga, brk, cont),
        _ => None,
    }
}

/// Linearises an indexing: the base address and the index, the offset as the index shifted by
/// the element size, the sum, and the load of the element unless `ga`.
pub open spec fn clin_selector(s: CacheState, w: WrapperModel, ga: bool, brk: u32, cont: u32) -> CacheOut
    decreases w, 0nat,
{
    match w.node {
        AstModel::SelectorNode(left, right) => match clin(s, *left, true, brk, cont) {
            Some((s1, l1, rl)) => match clin(s1, *right, false, brk, cont) {
                Some((s2, l2, rr)) => match pointer_to(w.type_ref) {
                    Some(tt) => if !is_sized(w.type_ref) {
                        None
                    } else {
                        let size = type_size(w.type_ref);
                        let constant: Option<(CacheState, Seq<IrModel>, u32)> = match first_const(s2.constants, size) {
                            Some(c) => Some((s2, Seq::empty(), c)),
                            None => match cs_fresh_reg(s2) {
                                Some((s3, r)) => Some(
                                    (cs_add_constant(s3, r, size), seq![IrModel::MovC(tt, r, size)], r),
                                ),
                                None => None,
                            },
                        };
                        match constant {
                            Some((s4, lc, cr)) => match cs_fresh_reg(s4) {
                                Some((s5, o)) => match cs_fresh_reg(s5) {
                                    Some((s6, sum)) => {
                                        let list = l1 + l2 + lc + seq![
                                            IrModel::Binary(Operator::LShift, tt, o, rr, cr),
                                            IrModel::Binary(Operator::Plus, tt, sum, rl, o),
                                        ];
                                        if ga {
                                            Some((s6, list, sum))
                                        } else {
                                            match cs_fresh_reg(s6) {
                                                Some((s7, r)) => Some(
                                                    (s7, list.push(IrModel::LoadR(w.type_ref, r, sum)), r),
                                                ),
                                                None => None,
                                            }
                                        }
                                    },
                                    None => None,
                                },
                                None => None,
                            },
                            None => None,
                        }
                    },
                    None => None,
                },
                None => None,
            },
            None => None,
        },
        _ => None,
    }
}

/// Linearises a prefix operation: `!`, `+`, `-` and `~` compute, `*` loads the pointer and then,
/// unless `ga`, the value it points to, `&` takes the address.
pub open spec fn clin_prefix(s: CacheState, w: WrapperModel, ga: bool, brk: u32, cont: u32) -> CacheOut
    decreases w, 0nat,
{
    match w.node {
        AstModel::PrefixNode(token, expr) => match token.tk {
            TkModel::Operator(op) => if op == Operator::Not || op == Operator::Plus || op == Operator::Minus || op
                == Operator::Complement {
                match clin(s, *expr, false, brk, cont) {
                    Some((s1, l1, r1)) => match cs_fresh_reg(s1) {
                        Some((s2, r)) => Some((s2, l1.push(IrModel::Unary(w.type_ref, op, r, r1)), r)),
                        None => None,
                    },
                    None => None,
                }
            } else if op == Operator::Asterisk {
                match clin(s, *expr, true, brk, cont) {
                    Some((s1, l1, r1)) => match cs_fresh_reg(s1) {
                        Some((s2, r)) => match pointer_to(w.type_ref) {
                            Some(tt) => {
                                let l2 = l1.push(IrModel::LoadR(tt, r, r1));
                                if ga {
                                    Some((s2, l2, r))
                                } else {
                                    match cs_fresh_reg(s2) {
                                        Some((s3, v)) => Some((s3, l2.push(IrModel::LoadR(w.type_ref, v, r)), v)),
                                        None => None,
                                    }
                                }
                            },
                            None => None,
                        },
                        None => None,
                    },
                    None => None,
                }
            } else if op == Operator::AndOp {
                clin(s, *expr, true, brk, cont)
            } else {
                None
            },
            _ => None,
        },
        _ => None,
    }
}

/// Linearises an array declaration: its length, then the allocation of its elements.
pub open spec fn clin_array_decl(s: CacheState, w: WrapperModel, ga: bool, brk: u32, cont: u32) -> CacheOut
    decreases w, 0nat,
{
    match w.node {
        AstModel::ArrayDeclNode(tt, name, expression) => match clin(s, *expression, ga, brk, cont) {
            Some((s1, l1, init)) => match cs_fresh_reg(s1) {
                Some((s2, r)) => match ident_of(name.tk) {
                    Some(id) => Some(
                        (
                            cs_add_pointer(s2, id, r),
                            l1.push(IrModel::Alloc(tt.type_ref, r, 0, s2.is_global, init, true, id)),
                            r,
                        ),
                    ),
                    None => None,
                },
                None => None,
            },
            None => None,
        },
        _ => None,
    }
}

/// The state at the start of a loop: caches of the loop opened, variable values forgotten.
pub open spec fn cs_open_loop(s: CacheState, reset_vars: bool) -> CacheState {
    CacheState {
        to_invalidate: true,
        inv_vars: if reset_vars {
            Seq::empty()
        } else {
            s.inv_vars
        },
        inv_consts: if reset_vars {
            s.inv_consts
        } else {
            Seq::empty()
        },
        values: Seq::empty(),
        ..s
    }
}

/// Linearises a `for` loop: its initialisation, the condition, the body, the step and the jump
/// back; at its end what it recorded is forgotten.
pub open spec fn clin_for(s: CacheState, w: WrapperModel, ga: bool, brk: u32, cont: u32) -> CacheOut
    decreases w, 0nat,
{
    match w.node {
        AstModel::ForNode(e1, e2, e3, body) => match cs_fresh_label(s) {
            Some((s1, l_for)) => match cs_fresh_label(s1) {
                Some((s2, l_start)) => match cs_fresh_label(s2) {
                    Some((s3, l_next)) => match cs_fresh_label(s3) {
                        Some((s4, l_end)) => match clin(s4, *e1, ga, brk, cont) {
                            Some((s5, list1, _)) => {
                                let s6 = cs_open_loop(s5, true);
                                match clin_condition(s6, *e2, l_end, ga, brk, cont) {
                                    Some((s7, bc)) => match clin(s7, *body, ga, l_end, l_next) {
                                        Some((s8, lb, _)) => match clin(s8, *e3, ga, brk, cont) {
                                            Some((s9, l3, _)) => Some(
                                                (
                                                    CacheState {
                                                        to_invalidate: s5.to_invalidate,
                                                        inv_consts: s5.inv_consts,
                                                        ..cs_invalidate(s9)
                                                    },
                                                    seq![IrModel::Label(l_for)] + list1 + seq![
                                                        IrModel::Label(l_start),
                                                    ] + bc + lb + seq![IrModel::Label(l_next)] + l3 + seq![
                                                        IrModel::Branch(CompareType::Always, w.type_ref, 0, 0, l_start),
                                                        IrModel::Label(l_end),
                                                    ],
                                                    0,
                                                ),
                                            ),
                                            None => None,
                                        },
                                        None => None,
                                    },
                                    None => None,
                                }
                            },
                            None => None,
                        },
                        None => None,
                    },
                    None => None,
                },
                None => None,
            },
            None => None,
        },
        _ => None,
    }
}

/// Linearises a `while` loop: the condition, the body and the jump back; at its end what it
/// recorded is forgotten.
pub open spec fn clin_while(s: CacheState, w: WrapperModel, ga: bool, brk: u32, cont: u32) -> CacheOut
    decreases w, 0nat,
{
    match w.node {
        AstModel::WhileNode(expr, body) => {
            let s0 = cs_open_loop(s, false);
            match cs_fresh_label(s0) {
                Some((s1, l_while)) => match cs_fresh_label(s1) {
                    Some((s2, l_end)) => match clin_condition(s2, *expr, l_end, ga, brk, cont) {
                        Some((s3, bc)) => match clin(s3, *body, ga, l_end, l_while) {
                            Some((s4, lb, _)) => Some(
                                (
                                    CacheState {
                                        to_invalidate: s.to_invalidate,
                                        inv_consts: s.inv_consts,
                                        ..cs_invalidate(s4)
                                    },
                                    seq![IrModel::Label(l_while)] + bc + lb + seq![
                                        IrModel::Branch(CompareType::Always, w.type_ref, 0, 0, l_while),
                                        IrModel::Label(l_end),
                                    ],
                                    0,
                                ),
                            ),
                            None => None,
                        },
                        None => None,
                    },
                    None => None,
                },
                None => None,
            }
        },
        _ => None,
    }
}

/// A block of a conditional: opened with nothing to forget yet, and at its end what it recorded
/// is forgotten and the enclosing block's lists come back.
pub open spec fn cs_block_open(s: CacheState) -> CacheState {
    CacheState { to_invalidate: true, inv_vars: Seq::empty(), inv_consts: Seq::empty(), ..s }
}

/// Closes a block opened from state `outer`.
pub open spec fn cs_block_close(s: CacheState, outer: CacheState) -> CacheState {
    CacheState {
        to_invalidate: outer.to_invalidate,
        inv_vars: outer.inv_vars,
        inv_consts: outer.inv_consts,
        ..cs_invalidate(s)
    }
}

/// Linearises a conditional: the test, a label, the then block, and the else block when there
/// is one.
pub open spec fn clin_if(s: CacheState, w: WrapperModel, ga: bool, brk: u32, cont: u32) -> CacheOut
    decreases w, 0nat,
{
    match w.node {
        AstModel::IfNode(expr, body, else_body) => match cs_fresh_label(s) {
            Some((s1, l_next)) => match cs_fresh_label(s1) {
                Some((s2, l_end)) => {
                    let has_else = !(else_body.node is NullNode);
                    let labels: Option<(CacheState, u32)> = if has_else {
                        cs_fresh_label(s2)
                    } else {
                        Some((s2, l_end))
                    };
                    match labels {
                        Some((s3, l_else)) => match clin_condition(s3, *expr, l_else, ga, brk, cont) {
                            Some((s4, bc)) => match clin(cs_block_open(s4), *body, ga, brk, cont) {
                                Some((s5, lb, _)) => {
                                    let s6 = cs_block_close(s5, s4);
                                    if has_else {
                                        match clin(cs_block_open(s6), *else_body, ga, brk, cont) {
                                            Some((s7, le, _)) => Some(
                                                (
                                                    cs_block_close(s7, s6),
                                                    bc + seq![IrModel::Label(l_next)] + lb + seq![
                                                        IrModel::Branch(CompareType::Always, expr.type_ref, 0, 0, l_end),
                                                        IrModel::Label(l_else),
                                                    ] + le + seq![IrModel::Label(l_end)],
                                                    0,
                                                ),
                                            ),
                                            None => None,
                                        }
                                    } else {
                                        Some((s6, bc + seq![IrModel::Label(l_next)] + lb + seq![IrModel::Label(l_end)], 0))
                                    }
                                },
                                None => None,
                            },
                            None => None,
                        },
                        None => None,
                    }
                },
                None => None,
            },
            None => None,
        },
        _ => None,
    }
}

/// Linearises the arguments of a call, in order.
pub open spec fn clin_arguments(s: CacheState, ws: Seq<WrapperModel>, ga: bool, brk: u32, cont: u32) -> Option<
    (CacheState, Seq<IrModel>, Seq<u32>),
>
    decreases ws, 2nat,
{
    if ws.len() == 0 {
        Some((s, Seq::empty(), Seq::empty()))
    } else {
        match clin(s, ws[0], ga, brk, cont) {
            Some((s1, l1, r1)) => match clin_arguments(s1, ws.drop_first(), ga, brk, cont) {
                Some((s2, l2, rs)) => Some((s2, l1 + l2, seq![r1] + rs)),
                None => None,
            },
            None => None,
        }
    }
}

/// Linearises a call: the arguments, then the call into a fresh register.
pub open spec fn clin_procedure(s: CacheState, w: WrapperModel, ga: bool, brk: u32, cont: u32) -> CacheOut
    decreases w, 0nat,
{
    match w.node {
        AstModel::ProcedureNode(primary, params) => match primary.node {
            AstModel::PrimaryNode(tk) => match ident_of(tk.tk) {
                Some(id) => match clin_arguments(s, params, ga, brk, cont) {
                    Some((s1, l1, regs)) => match cs_fresh_reg(s1) {
                        Some((s2, r)) => Some((s2, l1.push(IrModel::Call(id, w.type_ref, regs, r)), r)),
                        None => None,
                    },
                    None => None,
                },
                None => None,
            },
            _ => None,
        },
        _ => None,
    }
}

/// Linearises `return`, `continue` and `break`.
pub open spec fn clin_jump(s: CacheState, w: WrapperModel, ga: bool, brk: u32, cont: u32) -> CacheOut
    decreases w, 0nat,
{
    match w.node {
        AstModel::JumpNode(token, expr) => match token.tk {
            TkModel::Keyword(Keyword::Return) => if !(expr.node is NullNode) {
                match clin(s, *expr, ga, brk, cont) {
                    Some((s1, l1, r1)) => Some((s1, l1.push(IrModel::Return(expr.type_ref, r1)), 0)),
                    None => None,
                }
            } else {
                Some((s, seq![IrModel::Return(expr.type_ref, 0)], 0))
            },
            TkModel::Keyword(Keyword::Continue) => Some(
                (s, seq![IrModel::Branch(CompareType::Always, w.type_ref, 0, 0, cont)], 0),
            ),
            TkModel::Keyword(Keyword::Break) => Some(
                (s, seq![IrModel::Branch(CompareType::Always, w.type_ref, 0, 0, brk)], 0),
            ),
            _ => None,
        },
        _ => None,
    }
}

/// Linearises the statements of a block, in order.
pub open spec fn clin_statements(s: CacheState, ws: Seq<WrapperModel>, ga: bool, brk: u32, cont: u32) -> Option<
    (CacheState, Seq<IrModel>),
>
    decreases ws, 2nat,
{
    if ws.len() == 0 {
        Some((s, Seq::empty()))
    } else {
        match clin(s, ws[0], ga, brk, cont) {
            Some((s1, l1, _)) => match clin_statements(s1, ws.drop_first(), ga, brk, cont) {
                Some((s2, l2)) => Some((s2, l1 + l2)),
                None => None,
            },
            None => None,
        }
    }
}

/// Linearises the function declarations of a list, forgetting every register after each.
pub open spec fn clin_functions(s: CacheState, ws: Seq<WrapperModel>, ga: bool, brk: u32, cont: u32) -> Option<
    (CacheState, Seq<IrModel>),
>
    decreases ws, 2nat,
{
    if ws.len() == 0 {
        Some((s, Seq::empty()))
    } else if ws[0].node is FuncDeclNode {
        match clin(s, ws[0], ga, brk, cont) {
            Some((s1, l1, _)) => match clin_functions(cs_erase(s1), ws.drop_first(), ga, brk, cont) {
                Some((s2, l2)) => Some((s2, l1 + l2)),
                None => None,
            },
            None => None,
        }
    } else {
        clin_functions(s, ws.drop_first(), ga, brk, cont)
    }
}

/// Linearises the global declarations of a list, skipping the functions.
pub open spec fn clin_globals(s: CacheState, ws: Seq<WrapperModel>, ga: bool, brk: u32, cont: u32) -> Option<
    (CacheState, Seq<IrModel>),
>
    decreases ws, 2nat,
{
    if ws.len() == 0 {
        Some((s, Seq::empty()))
    } else if ws[0].node is FuncDeclNode {
        clin_globals(s, ws.drop_first(), ga, brk, cont)
    } else {
        match clin(CacheState { is_global: true, ..s }, ws[0], ga, brk, cont) {
            Some((s1, l1, _)) => match clin_globals(CacheState { is_global: true, ..s1 }, ws.drop_first(), ga, brk, cont) {
                Some((s2, l2)) => Some((s2, l1 + l2)),
                None => None,
            },
            None => None,
        }
    }
}

/// Linearises a program: the `init` function, holding the global declarations and the call to
/// `main`, followed by every function.
pub open spec fn clin_declaration_list(s: CacheState, w: WrapperModel, ga: bool, brk: u32, cont: u32) -> CacheOut
    decreases w, 0nat,
{
    match w.node {
        AstModel::DeclarationList(list) => match clin_functions(s, list, ga, brk, cont) {
            Some((s1, funcs)) => match clin_globals(s1, list, ga, brk, cont) {
                Some((s2, globals)) => Some(
                    (
                        s2,
                        seq![IrModel::FunctionDeclaration("init"@, default_type(), Seq::empty(), globals + init_tail())]
                            + funcs,
                        0,
                    ),
                ),
                None => None,
            },
            None => None,
        },
        _ => None,
    }
}

/// Linearises a variable declaration: its initial value if any, whose register then holds the
/// variable's value, and its allocation.
pub open spec fn clin_var_decl(s: CacheState, w: WrapperModel, ga: bool, brk: u32, cont: u32) -> CacheOut
    decreases w, 0nat,
{
    match w.node {
        AstModel::VarDeclNode(tt, name, expression) => match ident_of(name.tk) {
            Some(id) => {
                let init: CacheOut = if !(expression.node is NullNode) {
                    match clin(s, *expression, ga, brk, cont) {
                        Some((s1, l1, r1)) => Some((cs_add_variable(s1, id, r1), l1, r1)),
                        None => None,
                    }
                } else {
                    Some((s, Seq::empty(), 0))
                };
                match init {
                    Some((s2, l2, r2)) => match cs_fresh_reg(s2) {
                        Some((s3, r)) => Some(
                            (
                                cs_add_pointer(s3, id, r),
                                l2.push(IrModel::Alloc(tt.type_ref, r, r2, s3.is_global, 1, false, id)),
                                r,
                            ),
                        ),
                        None => None,
                    },
                    None => None,
                }
            },
            None => None,
        },
        _ => None,
    }
}

/// Linearises an identifier, an integer or a character. The address of a variable is taken
/// from the cache or loaded; a pointer, or an address asked for, is the result; a value is
/// taken from the cache or loaded and then cached.
pub open spec fn clin_primary(s: CacheState, w: WrapperModel, ga: bool) -> CacheOut
    decreases w, 0nat,
{
    match w.node {
        AstModel::PrimaryNode(token) => match token.tk {
            TkModel::Identifier(id) => {
                let address: CacheOut = match first_named(s.pointers, id) {
                    Some(l) => Some((s, Seq::empty(), l)),
                    None => match cs_fresh_reg(s) {
                        Some((s1, r)) => match pointer_to(w.type_ref) {
                            Some(tt) => Some((s1, seq![IrModel::LoadA(tt, r, id)], r)),
                            None => None,
                        },
                        None => None,
                    },
                };
                match address {
                    Some((s2, l2, a)) => if ga || w.type_ref.pointer > 0 {
                        Some((s2, l2, a))
                    } else {
                        match first_named(s2.values, id) {
                            Some(v) => Some((s2, l2, v)),
                            None => match cs_fresh_reg(s2) {
                                Some((s3, r)) => Some(
                                    (cs_add_variable(s3, id, r), l2.push(IrModel::LoadR(w.type_ref, r, a)), r),
                                ),
                                None => None,
                            },
                        }
                    },
                    None => None,
                }
            },
            TkModel::IntegerLiteral(num) => {
                let c = num as u32;
                match first_const(s.constants, c) {
                    Some(l) => Some((s, Seq::empty(), l)),
                    None => match cs_fresh_reg(s) {
                        Some((s1, r)) => Some((cs_add_constant(s1, r, c), seq![IrModel::MovC(w.type_ref, r, c)], r)),
                        None => None,
                    },
                }
            },
            TkModel::Char(ch) => match cs_fresh_reg(s) {
                Some((s1, r)) => Some((s1, seq![IrModel::MovC(w.type_ref, r, ch as u32)], r)),
                None => None,
            },
            _ => None,
        },
        _ => None,
    }
}

/// Linearises a binary operation: an assignment stores and records the value of a variable, or
/// forgets every value when it stores through a pointer; another operation is computed once,
/// then found again in the cache.
pub open spec fn clin_binary(s: CacheState, w: WrapperModel, ga: bool, brk: u32, cont: u32) -> CacheOut
    decreases w, 0nat,
{
    match w.node {
        AstModel::BinaryNode(token, e1, e2) => if token.tk == TkModel::Operator(Operator::Assign) {
            match clin(s, *e1, true, brk, cont) {
                Some((s1, l1, r1)) => match clin(s1, *e2, ga, brk, cont) {
                    Some((s2, l2, r2)) => {
                        let s3: Option<CacheState> = match e1.node {
                            AstModel::PrimaryNode(tk) => match ident_of(tk.tk) {
                                Some(id) => Some(cs_assign(s2, id, r2)),
                                None => None,
                            },
                            _ => Some(cs_clear_values(s2)),
                        };
                        match s3 {
                            Some(s4) => Some(
                                (
                                    s4,
                                    l1 + l2 + seq![IrModel::Store(w.type_ref, r1, r2)],
                                    if ga {
                                        r1
                                    } else {
                                        r2
                                    },
                                ),
                            ),
                            None => None,
                        }
                    },
                    None => None,
                },
                None => None,
            }
        } else {
            match clin(s, *e1, ga, brk, cont) {
                Some((s1, l1, r1)) => match clin(s1, *e2, ga, brk, cont) {
                    Some((s2, l2, r2)) => match token.tk {
                        TkModel::Operator(op) => match find_binary(s2.binaries, r1, r2, op) {
                            Some(d) => Some((s2, Seq::empty(), d)),
                            None => match cs_fresh_reg(s2) {
                                Some((s3, r)) => Some(
                                    (
                                        CacheState { binaries: s3.binaries.push((op, r, r1, r2)), ..s3 },
                                        l1 + l2 + seq![IrModel::Binary(op, w.type_ref, r, r1, r2)],
                                        r,
                                    ),
                                ),
                                None => None,
                            },
                        },
                        _ => None,
                    },
                    None => None,
                },
                None => None,
            }
        },
        _ => None,
    }
}

/// Linearises a cast: nothing to do towards a pointer, else a cast instruction.
pub open spec fn clin_cast(s: CacheState, w: WrapperModel, ga: bool, brk: u32, cont: u32) -> CacheOut
    decreases w, 0nat,
{
    match w.node {
        AstModel::CastNode(dest_type, exp) => match clin(s, *exp, ga, brk, cont) {
            Some((s1, l1, r1)) => if dest_type.type_ref.pointer > 0 {
                Some((s1, l1, r1))
            } else {
                match cs_fresh_reg(s1) {
                    Some((s2, r)) => Some((s2, l1.push(IrModel::Cast(dest_type.type_ref, exp.type_ref, r, r1)), r)),
                    None => None,
                }
            },
            None => None,
        },
        _ => None,
    }
}

/// Allocates the parameters of a function from position `i` on: parameter `i` arrives in
/// register `i + 1` and is stored at the address in register `i + 1 + n`.
pub open spec fn clin_parameters(s: CacheState, params: Seq<WrapperModel>, i: int) -> Option<
    (CacheState, Seq<TypeWrapper>, Seq<IrModel>),
>
    decreases params.len() - i,
{
    if i < 0 || i >= params.len() {
        Some((s, Seq::empty(), Seq::empty()))
    } else {
        match params[i].node {
            AstModel::ParameterNode(tk, _) => match ident_of(tk.tk) {
                Some(name) => {
                    let n = params.len();
                    let address = (i + 1 + n) as u32;
                    let value = (i + 1) as u32;
                    let s1 = cs_add_variable(cs_add_pointer(s, name, address), name, value);
                    match clin_parameters(s1, params, i + 1) {
                        Some((s2, ts, nodes)) => Some(
                            (
                                s2,
                                seq![params[i].type_ref] + ts,
                                seq![IrModel::Alloc(params[i].type_ref, address, value, false, 1, false, name)]
                                    + nodes,
                            ),
                        ),
                        None => None,
                    }
                },
                None => None,
            },
            _ => None,
        }
    }
}

/// Linearises a function declaration: the allocation of its parameters, then its body.
pub open spec fn clin_func_decl(s: CacheState, w: WrapperModel, ga: bool, brk: u32, cont: u32) -> CacheOut
    decreases w, 0nat,
{
    match w.node {
        AstModel::FuncDeclNode(rt, name, params, body) => if 2 * params.len() + 1 > u32::MAX {
            None
        } else {
            match clin_parameters(s, params, 0) {
                Some((s1, ts, nodes)) => if s1.reg + 2 * params.len() > u32::MAX {
                    None
                } else {
                    let s2 = CacheState { reg: (s1.reg + 2 * params.len()) as u32, ..s1 };
                    match clin(s2, *body, ga, brk, cont) {
                        Some((s3, lb, _)) => match ident_of(name.tk) {
                            Some(id) => Some(
                                (s3, seq![IrModel::FunctionDeclaration(id, rt.type_ref, ts, nodes + lb)], 0),
                            ),
                            None => None,
                        },
                        None => None,
                    }
                },
                None => None,
            }
        },
        _ => None,
    }
}

/// The state of a new generator.
pub open spec fn cache_initial() -> CacheState {
    CacheState {
        reg: 0,
        label: 0,
        pointers: Seq::empty(),
        values: Seq::empty(),
        constants: Seq::empty(),
        binaries: Seq::empty(),
        is_global: false,
        to_invalidate: false,
        inv_vars: Seq::empty(),
        inv_consts: Seq::empty(),
    }
}

/// The outcome of a linearisation as a mathematical value.
pub open spec fn outcome(s: CacheState, r: LirgenResult) -> CacheOut {
    Some((s, ir_list_model(r.ir_list@), r.result_register))
}

/// The generator, with its caches kept as lists.
pub struct Lirgen {
    current_register: u32,
    current_label: u32,
    variable_pointers: Vec<(String, u32)>,
    variable_values: Vec<(String, u32)>,
    constant_values: Vec<(u32, u32)>,
    computed_binary: Vec<ComputedBinary>,
    is_global: bool,
    to_invalidate: bool,
    to_invalidate_variable: Vec<String>,
    to_invalidate_constant: Vec<u32>,
}

impl View for Lirgen {
    type V = CacheState;

    closed spec fn view(&self) -> CacheState {
        CacheState {
            reg: self.current_register,
            label: self.current_label,
            pointers: named_entries(self.variable_pointers@),
            values: named_entries(self.variable_values@),
            constants: self.constant_values@,
            binaries: self.computed_binary@,
            is_global: self.is_global,
            to_invalidate: self.to_invalidate,
            inv_vars: string_seq(self.to_invalidate_variable@),
            inv_consts: self.to_invalidate_constant@,
        }
    }
}

/// The position of the first entry named `key`.
fn first_named_position(v: &Vec<(String, u32)>, key: &String) -> (r: Option<usize>)
    ensures
        match r {
            Some(i) => i < v.len() && first_named_index(named_entries(v@), key@, 0) == Some(i as int),
            None => first_named_index(named_entries(v@), key@, 0) is None,
        },
{
    let ghost es = named_entries(v@);
    let mut i: usize = 0;
    while i < v.len()
        invariant
            i <= v.len(),
            es == named_entries(v@),
            first_named_index(es, key@, 0) == first_named_index(es, key@, i as int),
        decreases v.len() - i,
    {
        assert(es[i as int] == (v@[i as int].0@, v@[i as int].1));
        if strs_match(v[i].0.as_str(), key.as_str()) {
            return Some(i);
        }
        i = i + 1;
    }
    None
}

/// The position of the first entry for the constant `c`.
fn first_const_position(v: &Vec<(u32, u32)>, c: u32) -> (r: Option<usize>)
    ensures
        match r {
            Some(i) => i < v.len() && first_const_index(v@, c, 0) == Some(i as int),
            None => first_const_index(v@, c, 0) is None,
        },
{
    let mut i: usize = 0;
    while i < v.len()
        invariant
            i <= v.len(),
            first_const_index(v@, c, 0) == first_const_index(v@, c, i as int),
        decreases v.len() - i,
    {
        if v[i].0 == c {
            return Some(i);
        }
        i = i + 1;
    }
    None
}

/// Drops the first entry named `key`, if any.
fn remove_first_named(v: &mut Vec<(String, u32)>, key: &String)
    ensures
        named_entries(final(v)@) == drop_first_named(named_entries(old(v)@), key@),
{
    match first_named_position(v, key) {
        Some(i) => {
            let ghost before = v@;
            v.remove(i);
            assert(named_entries(v@) =~= named_entries(before).remove(i as int));
        },
        None => {},
    }
}

/// Drops the first entry for the constant `c`, if any.
fn remove_first_const(v: &mut Vec<(u32, u32)>, c: u32)
    ensures
        final(v)@ == drop_first_const(old(v)@, c),
{
    match first_const_position(v, c) {
        Some(i) => {
            v.remove(i);
        },
        None => {},
    }
}

impl Lirgen {
    /// An empty generator: no register or label used, nothing cached.
    pub fn new() -> (r: Lirgen)
        ensures
            r@ == cache_initial(),
    {
        let r = Lirgen {
            current_register: 0,
            current_label: 0,
            variable_pointers: Vec::new(),
            variable_values: Vec::new(),
            constant_values: Vec::new(),
            computed_binary: Vec::new(),
            to_invalidate_variable: Vec::new(),
            to_invalidate_constant: Vec::new(),
            is_global: false,
            to_invalidate: false,
        };
        assert(string_seq(r.to_invalidate_variable@) =~= Seq::<Seq<char>>::empty());
        assert(named_entries(r.variable_pointers@) =~= Seq::<(Seq<char>, u32)>::empty());
        assert(named_entries(r.variable_values@) =~= Seq::<(Seq<char>, u32)>::empty());
        assert(r@ =~= cache_initial());
        r
    }

    /// At the end of a branch or loop, drops the first cached entry of each constant and
    /// variable recorded in it.
    fn invalidate(&mut self)
        ensures
            final(self)@ == cs_invalidate(old(self)@),
    {
        let ghost keys = self.to_invalidate_constant@;
        let mut j: usize = 0;
        while j < self.to_invalidate_constant.len()
            invariant
                j <= keys.len(),
                keys == self.to_invalidate_constant@,
                self.to_invalidate_constant@ == old(self).to_invalidate_constant@,
                self.to_invalidate_variable@ == old(self).to_invalidate_variable@,
                self.variable_values@ == old(self).variable_values@,
                self.variable_pointers@ == old(self).variable_pointers@,
                self.computed_binary@ == old(self).computed_binary@,
                self.current_register == old(self).current_register,
                self.current_label == old(self).current_label,
                self.is_global == old(self).is_global,
                self.to_invalidate == old(self).to_invalidate,
                self.constant_values@ == drop_consts(old(self).constant_values@, keys, j as int),
            decreases keys.len() - j,
        {
            let c = self.to_invalidate_constant[j];
            remove_first_const(&mut self.constant_values, c);
            j = j + 1;
        }
        let ghost names = string_seq(self.to_invalidate_variable@);
        let mut k: usize = 0;
        while k < self.to_invalidate_variable.len()
            invariant
                k <= names.len(),
                names == string_seq(self.to_invalidate_variable@),
                names.len() == self.to_invalidate_variable.len(),
                self.to_invalidate_constant@ == old(self).to_invalidate_constant@,
                self.to_invalidate_variable@ == old(self).to_invalidate_variable@,
                self.variable_pointers@ == old(self).variable_pointers@,
                self.computed_binary@ == old(self).computed_binary@,
                self.current_register == old(self).current_register,
                self.current_label == old(self).current_label,
                self.is_global == old(self).is_global,
                self.to_invalidate == old(self).to_invalidate,
                self.constant_values@ == drop_consts(old(self).constant_values@, keys, keys.len() as int),
                named_entries(self.variable_values@) == drop_names(
                    named_entries(old(self).variable_values@),
                    names,
                    k as int,
                ),
            decreases names.len() - k,
        {
            assert(names[k as int] == self.to_invalidate_variable@[k as int]@);
            remove_first_named(&mut self.variable_values, &self.to_invalidate_variable[k]);
            k = k + 1;
        }
        assert(self@ =~= cs_invalidate(old(self)@));
    }

    /// The register holding the address of a variable, if known.
    fn get_pointer_variable(&self, s: &String) -> (r: Option<u32>)
        ensures
            r == first_named(self@.pointers, s@),
    {
        match first_named_position(&self.variable_pointers, s) {
            Some(i) => Some(self.variable_pointers[i].1),
            None => None,
        }
    }

    /// The register holding the value of a variable, if known.
    fn get_variables(&self, s: &String) -> (r: Option<u32>)
        ensures
            r == first_named(self@.values, s@),
    {
        match first_named_position(&self.variable_values, s) {
            Some(i) => Some(self.variable_values[i].1),
            None => None,
        }
    }

    /// The register holding an already computed operation, if any.
    fn get_computed_binary(&self, s1: u32, s2: u32, op: &Operator) -> (r: Option<u32>)
        ensures
            r == find_binary(self@.binaries, s1, s2, *op),
    {
        let ghost bs = self.computed_binary@;
        let mut i: usize = 0;
        assert(bs.subrange(0, bs.len() as int) =~= bs);
        while i < self.computed_binary.len()
            invariant
                i <= bs.len(),
                bs == self.computed_binary@,
                bs == self@.binaries,
                find_binary(bs, s1, s2, *op) == find_binary(bs.subrange(i as int, bs.len() as int), s1, s2, *op),
            decreases bs.len() - i,
        {
            let ghost rest = bs.subrange(i as int, bs.len() as int);
            assert(rest[0] == bs[i as int]);
            assert(rest.drop_first() =~= bs.subrange(i + 1, bs.len() as int));
            let elem = self.computed_binary[i];
            if elem.0 == *op && elem.2 == s1 && elem.3 == s2 {
                return Some(elem.1);
            }
            if *op == Operator::Plus || *op == Operator::Asterisk || *op == Operator::AndOp
                || *op == Operator::OrOp || *op == Operator::XorOp {
                if elem.0 == *op && elem.3 == s1 && elem.2 == s2 {
                    return Some(elem.1);
                }
            }
            i = i + 1;
        }
        assert(bs.subrange(bs.len() as int, bs.len() as int) =~= Seq::<ComputedBinary>::empty());
        None
    }

    /// The register holding a constant, if known.
    fn get_constant(&self, c: u32) -> (r: Option<u32>)
        ensures
            r == first_const(self@.constants, c),
    {
        match first_const_position(&self.constant_values, c) {
            Some(i) => Some(self.constant_values[i].1),
            None => None,
        }
    }

    /// Records that register `r` holds the constant `v`.
    fn add_constant(&mut self, r: u32, v: u32)
        ensures
            final(self)@ == cs_add_constant(old(self)@, r, v),
    {
        if self.to_invalidate {
            self.to_invalidate_constant.push(v);
        }
        self.constant_values.push((v, r));
        assert(self@ =~= cs_add_constant(old(self)@, r, v));
    }

    /// Records that register `r` holds the value of variable `s`.
    fn add_variable(&mut self, s: &String, r: u32)
        ensures
            final(self)@ == cs_add_variable(old(self)@, s@, r),
    {
        if self.to_invalidate {
            self.to_invalidate_variable.push(s.clone());
        }
        self.variable_values.push((s.clone(), r));
        assert(named_entries(self.variable_values@) =~= named_entries(old(self).variable_values@).push((s@, r)));
        assert(self@ =~= cs_add_variable(old(self)@, s@, r));
    }

    /// Forgets every variable value.
    fn clear_variable_values(&mut self)
        ensures
            final(self)@ == cs_clear_values(old(self)@),
    {
        self.variable_values.clear();
        assert(named_entries(self.variable_values@) =~= Seq::<(Seq<char>, u32)>::empty());
        assert(self@ =~= cs_clear_values(old(self)@));
    }

    /// Records that register `r` holds the address of variable `s`.
    fn add_pointer_variable(&mut self, s: &String, r: u32)
        ensures
            final(self)@ == cs_add_pointer(old(self)@, s@, r),
    {
        self.variable_pointers.push((s.clone(), r));
        assert(named_entries(self.variable_pointers@) =~= named_entries(old(self).variable_pointers@).push((s@, r)));
        assert(self@ =~= cs_add_pointer(old(self)@, s@, r));
    }

    /// Records a computed operation.
    fn add_computed_binary(&mut self, s: ComputedBinary)
        ensures
            final(self)@ == (CacheState { binaries: old(self)@.binaries.push(s), ..old(self)@ }),
    {
        self.computed_binary.push(s);
        assert(self@ =~= (CacheState { binaries: old(self)@.binaries.push(s), ..old(self)@ }));
    }

    /// Forgets everything known about registers and labels, as at the end of a function.
    fn erase_registers(&mut self)
        ensures
            final(self)@ == cs_erase(old(self)@),
    {
        self.current_register = 0;
        self.current_label = 0;
        self.variable_pointers.clear();
        self.variable_values.clear();
        self.constant_values.clear();
        self.computed_binary.clear();
        assert(named_entries(self.variable_pointers@) =~= Seq::<(Seq<char>, u32)>::empty());
        assert(named_entries(self.variable_values@) =~= Seq::<(Seq<char>, u32)>::empty());
        assert(self@ =~= cs_erase(old(self)@));
    }

    /// The next register.
    fn get_register(&mut self) -> (r: u32)
        requires
            cs_fresh_reg(old(self)@) is Some,
        ensures
            (final(self)@, r) == cs_fresh_reg(old(self)@).unwrap(),
    {
        self.current_register = self.current_register + 1;
        assert(self@ =~= cs_fresh_reg(old(self)@).unwrap().0);
        self.current_register
    }

    /// The next label.
    fn get_label(&mut self) -> (r: u32)
        requires
            cs_fresh_label(old(self)@) is Some,
        ensures
            (final(self)@, r) == cs_fresh_label(old(self)@).unwrap(),
    {
        self.current_label = self.current_label + 1;
        assert(self@ =~= cs_fresh_label(old(self)@).unwrap().0);
        self.current_label
    }

    /// Records the value assigned to variable `id`: its first cached entry now holds `r`, or an
    /// entry is added; the variable is to be forgotten at the end of a branch or loop.
    fn record_assignment(&mut self, id: &String, r: u32)
        ensures
            final(self)@ == cs_assign(old(self)@, id@, r),
    {
        match first_named_position(&self.variable_values, id) {
            Some(i) => {
                let ghost before = self.variable_values@;
                self.variable_values.set(i, (id.clone(), r));
                assert(named_entries(self.variable_values@) =~= named_entries(before).update(i as int, (id@, r)));
            },
            None => {
                self.add_variable(id, r);
            },
        }
        let ghost mid = self@;
        self.to_invalidate_variable.push(id.clone());
        assert(string_seq(self.to_invalidate_variable@) =~= mid.inv_vars.push(id@));
        assert(self@ =~= cs_assign(old(self)@, id@, r));
    }

    /// The name an identifier token carries.
    fn get_identifier(token: &Token) -> (r: String)
        requires
            ident_of(token.tk@) is Some,
        ensures
            Some(r@) == ident_of(token.tk@),
    {
        token.tk.get_identifier()
    }

    /// The operator an operator token carries.
    fn get_operator(token: &Token) -> (r: Operator)
        requires
            token.tk@ is Operator,
        ensures
            token.tk@ == TkModel::Operator(r),
    {
        match &token.tk {
            Tk::Operator(o) => *o,
            _ => Operator::Plus,
        }
    }
}

impl Lirgen {
    /// The program linearising `ast`, a list of declarations: the `init` function first, then
    /// every function.
    pub fn linearize_ast(&mut self, ast: &AstNodeWrapper) -> (r: IrNode)
        requires
            clin(old(self)@, ast@, false, 0, 0) is Some,
        ensures
            final(self)@ == clin(old(self)@, ast@, false, 0, 0).unwrap().0,
            r@ == IrModel::Program(clin(old(self)@, ast@, false, 0, 0).unwrap().1),
    {
        let res = self.linearize(ast, false, 0, 0);
        IrNode::Program(res.ir_list)
    }

    /// Linearises a node; `get_address` asks for the address of an lvalue, `break_dest` and
    /// `continue_dest` are the labels of the enclosing loop.
    #[verifier::rlimit(40)]
    #[verifier::spinoff_prover]
    fn linearize(&mut self, ast: &AstNodeWrapper, get_address: bool, break_dest: u32, continue_dest: u32) -> (r: LirgenResult)
        requires
            clin(old(self)@, ast@, get_address, break_dest, continue_dest) is Some,
        ensures
            clin(old(self)@, ast@, get_address, break_dest, continue_dest) == outcome(final(self)@, r),
        decreases *ast, 1nat,
    {
        proof {
            lemma_wrapper_model(*ast);
        }
        match &ast.node {
            AstNode::DeclarationList(..) => self.linearize_declaration_list(ast, get_address, break_dest, continue_dest),
            AstNode::VarDeclNode(..) => self.linearize_var_decl_node(ast, get_address, break_dest, continue_dest),
            AstNode::PrimaryNode(..) => self.linearize_primary_node(ast, get_address, break_dest, continue_dest),
            AstNode::JumpNode(..) => self.linearize_jump_node(ast, get_address, break_dest, continue_dest),
            AstNode::CompoundNode(..) => self.linearize_compound_node(ast, get_address, break_dest, continue_dest),
            AstNode::FuncDeclNode(..) => self.linearize_func_decl_node(ast, get_address, break_dest, continue_dest),
            AstNode::BinaryNode(..) => self.linearize_binary_node(ast, get_address, break_dest, continue_dest),
            AstNode::CastNode(..) => self.linearize_cast_node(ast, get_address, break_dest, continue_dest),
            AstNode::ExprStatementNode(..) => self.linearize_expr_statement_node(ast, get_address, break_dest, continue_dest),
            AstNode::ArrayDeclNode(..) => self.linearize_array_decl_node(ast, get_address, break_dest, continue_dest),
            AstNode::ProcedureNode(..) => self.linearize_procedure_node(ast, get_address, break_dest, continue_dest),
            AstNode::PrefixNode(..) => self.linearize_prefix_node(ast, get_address, break_dest, continue_dest),
            AstNode::SelectorNode(..) => self.linearize_selector_node(ast, get_address, break_dest, continue_dest),
            AstNode::IfNode(..) => self.linearize_if_node(ast, get_address, break_dest, continue_dest),
            AstNode::WhileNode(..) => self.linearize_while_node(ast, get_address, break_dest, continue_dest),
            AstNode::ForNode(..) => self.linearize_for_node(ast, get_address, break_dest, continue_dest),
            _ => LirgenResult::default(),
        }
    }

    /// The instructions jumping to `label` when `expr` is false: the opposite comparison when
    /// `expr` compares, else a test of its value.
    fn linearize_condition(
        &mut self,
        expr: &AstNodeWrapper,
        label: u32,
        get_address: bool,
        break_dest: u32,
        continue_dest: u32,
    ) -> (r: Vec<IrNode>)
        requires
            clin_condition(old(self)@, expr@, label, get_address, break_dest, continue_dest) is Some,
        ensures
            clin_condition(old(self)@, expr@, label, get_address, break_dest, continue_dest) == Some(
                (final(self)@, ir_list_model(r@)),
            ),
        decreases *expr, 2nat,
    {
        proof {
            lemma_wrapper_model(*expr);
        }
        let mut instructions: Vec<IrNode> = Vec::new();
        let mut found_compare = false;
        match &expr.node {
            AstNode::BinaryNode(tk, exp1, exp2) => {
                let compare_type = CompareType::from_token(tk);
                if compare_type.is_some() {
                    found_compare = true;
                    let mut expr1_lin = self.linearize(exp1, get_address, break_dest, continue_dest);
                    let mut expr2_lin = self.linearize(exp2, get_address, break_dest, continue_dest);
                    let ghost l1 = ir_list_model(expr1_lin.ir_list@);
                    let ghost l2 = ir_list_model(expr2_lin.ir_list@);
                    append_nodes(&mut instructions, &mut expr1_lin.ir_list);
                    append_nodes(&mut instructions, &mut expr2_lin.ir_list);
                    let ct = compare_type.unwrap().opposite();
                    push_node(
                        &mut instructions,
                        IrNode::Branch(ct, exp1.type_ref, expr1_lin.result_register, expr2_lin.result_register, label),
                    );
                    assert(ir_list_model(instructions@) =~= l1 + l2 + seq![
                        IrModel::Branch(ct, exp1@.type_ref, expr1_lin.result_register, expr2_lin.result_register, label),
                    ]);
                }
            },
            _ => {},
        }
        if !found_compare {
            let mut expr_lin = self.linearize(expr, get_address, break_dest, continue_dest);
            let ghost l1 = ir_list_model(expr_lin.ir_list@);
            append_nodes(&mut instructions, &mut expr_lin.ir_list);
            push_node(
                &mut instructions,
                IrNode::Branch(CompareType::NS, expr.type_ref, expr_lin.result_register, 0, label),
            );
        }
        instructions
    }

    /// Linearises an expression used as a statement.
    fn linearize_expr_statement_node(
        &mut self,
        ast: &AstNodeWrapper,
        get_address: bool,
        break_dest: u32,
        continue_dest: u32,
    ) -> (r: LirgenResult)
        requires
            ast@.node is ExprStatementNode,
            clin(old(self)@, ast@, get_address, break_dest, continue_dest) is Some,
        ensures
            clin(old(self)@, ast@, get_address, break_dest, continue_dest) == outcome(final(self)@, r),
        decreases *ast, 0nat,
    {
        match &ast.node {
            AstNode::ExprStatementNode(expr) => self.linearize(expr, get_address, break_dest, continue_dest),
            _ => LirgenResult::default(),
        }
    }

    /// Linearises a cast: nothing to do towards a pointer, else a cast instruction.
    fn linearize_cast_node(&mut self, ast: &AstNodeWrapper, get_address: bool, break_dest: u32, continue_dest: u32) -> (r: LirgenResult)
        requires
            clin_cast(old(self)@, ast@, get_address, break_dest, continue_dest) is Some,
        ensures
            clin_cast(old(self)@, ast@, get_address, break_dest, continue_dest) == outcome(final(self)@, r),
        decreases *ast, 0nat,
    {
        match &ast.node {
            AstNode::CastNode(dest_type, exp) => {
                proof {
                    lemma_wrapper_model(*ast);
                    lemma_wrapper_model(**dest_type);
                    lemma_wrapper_model(**exp);
                }
                let mut exp_lin = self.linearize(exp, get_address, break_dest, continue_dest);
                if dest_type.type_ref.pointer > 0 {
                    return exp_lin;
                }
                let ghost l1 = ir_list_model(exp_lin.ir_list@);
                let result_register = self.get_register();
                let new_cast = IrNode::Cast(dest_type.type_ref, exp.type_ref, result_register, exp_lin.result_register);
                let mut list: Vec<IrNode> = Vec::new();
                append_nodes(&mut list, &mut exp_lin.ir_list);
                push_node(&mut list, new_cast);
                assert(ir_list_model(list@) =~= l1.push(new_cast@));
                LirgenResult { ir_list: list, result_register }
            },
            _ => LirgenResult::default(),
        }
    }

    /// Linearises `return`, `continue` and `break`.
    fn linearize_jump_node(&mut self, ast: &AstNodeWrapper, get_address: bool, break_dest: u32, continue_dest: u32) -> (r: LirgenResult)
        requires
            clin_jump(old(self)@, ast@, get_address, break_dest, continue_dest) is Some,
        ensures
            clin_jump(old(self)@, ast@, get_address, break_dest, continue_dest) == outcome(final(self)@, r),
        decreases *ast, 0nat,
    {
        match &ast.node {
            AstNode::JumpNode(token, expr) => {
                proof {
                    lemma_wrapper_model(*ast);
                    lemma_wrapper_model(**expr);
                }
                let mut list: Vec<IrNode> = Vec::new();
                match &token.tk {
                    Tk::Keyword(Keyword::Return) => {
                        if !expr.is_null() {
                            let mut e_lin = self.linearize(expr, get_address, break_dest, continue_dest);
                            let ghost l1 = ir_list_model(e_lin.ir_list@);
                            append_nodes(&mut list, &mut e_lin.ir_list);
                            let node = IrNode::Return(expr.type_ref, e_lin.result_register);
                            push_node(&mut list, node);
                            assert(ir_list_model(list@) =~= l1.push(node@));
                        } else {
                            push_node(&mut list, IrNode::Return(expr.type_ref, 0));
                            assert(ir_list_model(list@) =~= seq![IrModel::Return(expr@.type_ref, 0)]);
                        }
                    },
                    Tk::Keyword(Keyword::Continue) => {
                        push_node(&mut list, IrNode::Branch(CompareType::Always, ast.type_ref, 0, 0, continue_dest));
                        assert(ir_list_model(list@) =~= seq![
                            IrModel::Branch(CompareType::Always, ast@.type_ref, 0, 0, continue_dest),
                        ]);
                    },
                    Tk::Keyword(Keyword::Break) => {
                        push_node(&mut list, IrNode::Branch(CompareType::Always, ast.type_ref, 0, 0, break_dest));
                        assert(ir_list_model(list@) =~= seq![
                            IrModel::Branch(CompareType::Always, ast@.type_ref, 0, 0, break_dest),
                        ]);
                    },
                    _ => {},
                }
                LirgenResult { ir_list: list, result_register: 0 }
            },
            _ => LirgenResult::default(),
        }
    }
}

impl Lirgen {
    /// Linearises an indexing: the base address and the index, the offset as the index shifted
    /// by the element size, the sum, and the load of the element unless `get_address`.
    fn linearize_selector_node(&mut self, ast: &AstNodeWrapper, get_address: bool, break_dest: u32, continue_dest: u32) -> (r: LirgenResult)
        requires
            clin_selector(old(self)@, ast@, get_address, break_dest, continue_dest) is Some,
        ensures
            clin_selector(old(self)@, ast@, get_address, break_dest, continue_dest) == outcome(final(self)@, r),
        decreases *ast, 0nat,
    {
        match &ast.node {
            AstNode::SelectorNode(left, right) => {
                proof {
                    lemma_wrapper_model(*ast);
                }
                let mut l_lin = self.linearize(left, true, break_dest, continue_dest);
                let mut r_lin = self.linearize(right, false, break_dest, continue_dest);
                let ghost l1 = ir_list_model(l_lin.ir_list@);
                let ghost l2 = ir_list_model(r_lin.ir_list@);
                let mut list: Vec<IrNode> = Vec::new();
                append_nodes(&mut list, &mut l_lin.ir_list);
                append_nodes(&mut list, &mut r_lin.ir_list);
                let mut tt = ast.type_ref;
                tt.pointer = tt.pointer + 1;
                let size = ast.type_ref.get_size();
                let ghost lc: Seq<IrModel>;
                let constant_register;
                match self.get_constant(size) {
                    Some(l) => {
                        constant_register = l;
                        proof {
                            lc = Seq::empty();
                        }
                    },
                    None => {
                        let result_register = self.get_register();
                        let store_constant_node = IrNode::MovC(tt, result_register, size);
                        push_node(&mut list, store_constant_node);
                        constant_register = result_register;
                        self.add_constant(result_register, size);
                        proof {
                            lc = seq![store_constant_node@];
                        }
                    },
                }
                let offset_register = self.get_register();
                let shift = IrNode::Binary(Operator::LShift, tt, offset_register, r_lin.result_register, constant_register);
                push_node(&mut list, shift);
                let sum_register = self.get_register();
                let sum = IrNode::Binary(Operator::Plus, tt, sum_register, l_lin.result_register, offset_register);
                push_node(&mut list, sum);
                assert(ir_list_model(list@) =~= l1 + l2 + lc + seq![shift@, sum@]);
                let mut result_register = sum_register;
                if !get_address {
                    let r = self.get_register();
                    push_node(&mut list, IrNode::LoadR(ast.type_ref, r, sum_register));
                    result_register = r;
                }
                LirgenResult { ir_list: list, result_register }
            },
            _ => LirgenResult::default(),
        }
    }

    /// Linearises a prefix operation: `!`, `+`, `-` and `~` compute, `*` loads the pointer and
    /// then, unless `get_address`, the value it points to, `&` takes the address.
    fn linearize_prefix_node(&mut self, ast: &AstNodeWrapper, get_address: bool, break_dest: u32, continue_dest: u32) -> (r: LirgenResult)
        requires
            clin_prefix(old(self)@, ast@, get_address, break_dest, continue_dest) is Some,
        ensures
            clin_prefix(old(self)@, ast@, get_address, break_dest, continue_dest) == outcome(final(self)@, r),
        decreases *ast, 0nat,
    {
        match &ast.node {
            AstNode::PrefixNode(token, expr) => match &token.tk {
                Tk::Operator(op) => {
                    proof {
                        lemma_wrapper_model(*ast);
                    }
                    let op = *op;
                    if op == Operator::Not || op == Operator::Plus || op == Operator::Minus || op == Operator::Complement {
                        let mut exp_lin = self.linearize(expr, false, break_dest, continue_dest);
                        let ghost l1 = ir_list_model(exp_lin.ir_list@);
                        let result_register = self.get_register();
                        let mut list: Vec<IrNode> = Vec::new();
                        append_nodes(&mut list, &mut exp_lin.ir_list);
                        let node = IrNode::Unary(ast.type_ref, op, result_register, exp_lin.result_register);
                        push_node(&mut list, node);
                        assert(ir_list_model(list@) =~= l1.push(node@));
                        LirgenResult { ir_list: list, result_register }
                    } else if op == Operator::Asterisk {
                        let mut exp_lin = self.linearize(expr, true, break_dest, continue_dest);
                        let ghost l1 = ir_list_model(exp_lin.ir_list@);
                        let mut list: Vec<IrNode> = Vec::new();
                        append_nodes(&mut list, &mut exp_lin.ir_list);
                        let r = self.get_register();
                        let mut tt = ast.type_ref;
                        tt.pointer = tt.pointer + 1;
                        let node = IrNode::LoadR(tt, r, exp_lin.result_register);
                        push_node(&mut list, node);
                        assert(ir_list_model(list@) =~= l1.push(node@));
                        let mut result_register = r;
                        if !get_address {
                            let v = self.get_register();
                            push_node(&mut list, IrNode::LoadR(ast.type_ref, v, r));
                            result_register = v;
                        }
                        LirgenResult { ir_list: list, result_register }
                    } else if op == Operator::AndOp {
                        self.linearize(expr, true, break_dest, continue_dest)
                    } else {
                        LirgenResult::default()
                    }
                },
                _ => LirgenResult::default(),
            },
            _ => LirgenResult::default(),
        }
    }

    /// Linearises an array declaration: its length, then the allocation of its elements.
    fn linearize_array_decl_node(&mut self, ast: &AstNodeWrapper, get_address: bool, break_dest: u32, continue_dest: u32) -> (r: LirgenResult)
        requires
            clin_array_decl(old(self)@, ast@, get_address, break_dest, continue_dest) is Some,
        ensures
            clin_array_decl(old(self)@, ast@, get_address, break_dest, continue_dest) == outcome(final(self)@, r),
        decreases *ast, 0nat,
    {
        match &ast.node {
            AstNode::ArrayDeclNode(tt, name, expression) => {
                proof {
                    lemma_wrapper_model(*ast);
                    lemma_wrapper_model(**tt);
                }
                let mut expression_lin = self.linearize(expression, get_address, break_dest, continue_dest);
                let ghost l1 = ir_list_model(expression_lin.ir_list@);
                let init_register = expression_lin.result_register;
                let result_register = self.get_register();
                let id = Self::get_identifier(name);
                let store_node = IrNode::Alloc(tt.type_ref, result_register, 0, self.is_global, init_register, true, id.clone());
                let mut list: Vec<IrNode> = Vec::new();
                append_nodes(&mut list, &mut expression_lin.ir_list);
                push_node(&mut list, store_node);
                assert(ir_list_model(list@) =~= l1.push(store_node@));
                self.add_pointer_variable(&id, result_register);
                LirgenResult { ir_list: list, result_register }
            },
            _ => LirgenResult::default(),
        }
    }

    /// Linearises a `for` loop: its initialisation, the condition, the body, the step and the
    /// jump back; at its end what it recorded is forgotten.
    #[verifier::rlimit(40)]
    fn linearize_for_node(&mut self, ast: &AstNodeWrapper, get_address: bool, break_dest: u32, continue_dest: u32) -> (r: LirgenResult)
        requires
            clin_for(old(self)@, ast@, get_address, break_dest, continue_dest) is Some,
        ensures
            clin_for(old(self)@, ast@, get_address, break_dest, continue_dest) == outcome(final(self)@, r),
        decreases *ast, 0nat,
    {
        match &ast.node {
            AstNode::ForNode(expr1, expr2, expr3, body) => {
                proof {
                    lemma_wrapper_model(*ast);
                }
                let for_label = self.get_label();
                let for_start_label = self.get_label();
                let for_next_label = self.get_label();
                let for_end_label = self.get_label();
                let mut list: Vec<IrNode> = Vec::new();
                push_node(&mut list, IrNode::Label(for_label));
                let mut expr1_lin = self.linearize(expr1, get_address, break_dest, continue_dest);
                let ghost l1 = ir_list_model(expr1_lin.ir_list@);
                append_nodes(&mut list, &mut expr1_lin.ir_list);
                push_node(&mut list, IrNode::Label(for_start_label));
                let ghost s5 = self@;
                let old_to_invalidate = self.to_invalidate;
                let old_to_invalidate_c = crate::lirgen::irnode::copy_vec(&self.to_invalidate_constant);
                self.to_invalidate = true;
                self.to_invalidate_variable = Vec::new();
                self.clear_variable_values();
                assert(string_seq(self.to_invalidate_variable@) =~= Seq::<Seq<char>>::empty());
                assert(self@ =~= cs_open_loop(s5, true));
                let mut bc = self.linearize_condition(expr2, for_end_label, get_address, break_dest, continue_dest);
                let ghost lbc = ir_list_model(bc@);
                append_nodes(&mut list, &mut bc);
                let mut body_lin = self.linearize(body, get_address, for_end_label, for_next_label);
                let ghost lb = ir_list_model(body_lin.ir_list@);
                append_nodes(&mut list, &mut body_lin.ir_list);
                push_node(&mut list, IrNode::Label(for_next_label));
                let mut expr3_lin = self.linearize(expr3, get_address, break_dest, continue_dest);
                let ghost l3 = ir_list_model(expr3_lin.ir_list@);
                append_nodes(&mut list, &mut expr3_lin.ir_list);
                push_node(&mut list, IrNode::Branch(CompareType::Always, ast.type_ref, 0, 0, for_start_label));
                push_node(&mut list, IrNode::Label(for_end_label));
                self.invalidate();
                let ghost s9 = self@;
                self.to_invalidate = old_to_invalidate;
                self.to_invalidate_constant = old_to_invalidate_c;
                assert(self@ =~= (CacheState { to_invalidate: s5.to_invalidate, inv_consts: s5.inv_consts, ..s9 }));
                assert(ir_list_model(list@) =~= seq![IrModel::Label(for_label)] + l1 + seq![
                    IrModel::Label(for_start_label),
                ] + lbc + lb + seq![IrModel::Label(for_next_label)] + l3 + seq![
                    IrModel::Branch(CompareType::Always, ast@.type_ref, 0, 0, for_start_label),
                    IrModel::Label(for_end_label),
                ]);
                LirgenResult { ir_list: list, result_register: 0 }
            },
            _ => LirgenResult::default(),
        }
    }

    /// Linearises a `while` loop: the condition, the body and the jump back; at its end what it
    /// recorded is forgotten.
    fn linearize_while_node(&mut self, ast: &AstNodeWrapper, get_address: bool, break_dest: u32, continue_dest: u32) -> (r: LirgenResult)
        requires
            clin_while(old(self)@, ast@, get_address, break_dest, continue_dest) is Some,
        ensures
            clin_while(old(self)@, ast@, get_address, break_dest, continue_dest) == outcome(final(self)@, r),
        decreases *ast, 0nat,
    {
        match &ast.node {
            AstNode::WhileNode(expr, body) => {
                proof {
                    lemma_wrapper_model(*ast);
                }
                let ghost s = self@;
                let old_to_invalidate = self.to_invalidate;
                let mut old_to_invalidate_c: Vec<u32> = Vec::new();
                std::mem::swap(&mut old_to_invalidate_c, &mut self.to_invalidate_constant);
                self.to_invalidate = true;
                self.clear_variable_values();
                assert(self@ =~= cs_open_loop(s, false));
                let while_label = self.get_label();
                let while_end_label = self.get_label();
                let mut list: Vec<IrNode> = Vec::new();
                push_node(&mut list, IrNode::Label(while_label));
                let mut bc = self.linearize_condition(expr, while_end_label, get_address, break_dest, continue_dest);
                let ghost lbc = ir_list_model(bc@);
                append_nodes(&mut list, &mut bc);
                let mut body_lin = self.linearize(body, get_address, while_end_label, while_label);
                let ghost lb = ir_list_model(body_lin.ir_list@);
                append_nodes(&mut list, &mut body_lin.ir_list);
                push_node(&mut list, IrNode::Branch(CompareType::Always, ast.type_ref, 0, 0, while_label));
                push_node(&mut list, IrNode::Label(while_end_label));
                self.invalidate();
                let ghost s4 = self@;
                self.to_invalidate = old_to_invalidate;
                self.to_invalidate_constant = old_to_invalidate_c;
                assert(self@ =~= (CacheState { to_invalidate: s.to_invalidate, inv_consts: s.inv_consts, ..s4 }));
                assert(ir_list_model(list@) =~= seq![IrModel::Label(while_label)] + lbc + lb + seq![
                    IrModel::Branch(CompareType::Always, ast@.type_ref, 0, 0, while_label),
                    IrModel::Label(while_end_label),
                ]);
                LirgenResult { ir_list: list, result_register: 0 }
            },
            _ => LirgenResult::default(),
        }
    }

    /// Opens a block of a conditional: nothing to forget yet; gives back the enclosing block's
    /// lists.
    fn open_block(&mut self) -> (r: (bool, Vec<u32>, Vec<String>))
        ensures
            final(self)@ == cs_block_open(old(self)@),
            r.0 == old(self)@.to_invalidate,
            r.1@ == old(self)@.inv_consts,
            string_seq(r.2@) == old(self)@.inv_vars,
    {
        let old_to_invalidate = self.to_invalidate;
        let mut old_c: Vec<u32> = Vec::new();
        std::mem::swap(&mut old_c, &mut self.to_invalidate_constant);
        let mut old_v: Vec<String> = Vec::new();
        std::mem::swap(&mut old_v, &mut self.to_invalidate_variable);
        self.to_invalidate = true;
        assert(string_seq(self.to_invalidate_variable@) =~= Seq::<Seq<char>>::empty());
        assert(self@ =~= cs_block_open(old(self)@));
        (old_to_invalidate, old_c, old_v)
    }

    /// Closes a block of a conditional: what it recorded is forgotten and the enclosing block's
    /// lists come back.
    fn close_block(&mut self, saved: (bool, Vec<u32>, Vec<String>))
        ensures
            final(self)@ == (CacheState {
                to_invalidate: saved.0,
                inv_consts: saved.1@,
                inv_vars: string_seq(saved.2@),
                ..cs_invalidate(old(self)@)
            }),
    {
        self.invalidate();
        let (b, c, v) = saved;
        self.to_invalidate = b;
        self.to_invalidate_constant = c;
        self.to_invalidate_variable = v;
        assert(self@ =~= (CacheState {
            to_invalidate: saved.0,
            inv_consts: saved.1@,
            inv_vars: string_seq(saved.2@),
            ..cs_invalidate(old(self)@)
        }));
    }

    /// Linearises a conditional: the test, a label, the then block, and the else block when
    /// there is one.
    #[verifier::rlimit(40)]
    fn linearize_if_node(&mut self, ast: &AstNodeWrapper, get_address: bool, break_dest: u32, continue_dest: u32) -> (r: LirgenResult)
        requires
            clin_if(old(self)@, ast@, get_address, break_dest, continue_dest) is Some,
        ensures
            clin_if(old(self)@, ast@, get_address, break_dest, continue_dest) == outcome(final(self)@, r),
        decreases *ast, 0nat,
    {
        match &ast.node {
            AstNode::IfNode(expr, body, else_body) => {
                proof {
                    lemma_wrapper_model(*ast);
                }
                let if_next_label = self.get_label();
                let if_end_label = self.get_label();
                let has_else = !else_body.is_null();
                let if_else_label = if has_else {
                    self.get_label()
                } else {
                    if_end_label
                };
                let mut list: Vec<IrNode> = Vec::new();
                let mut bc = self.linearize_condition(expr, if_else_label, get_address, break_dest, continue_dest);
                let ghost lbc = ir_list_model(bc@);
                append_nodes(&mut list, &mut bc);
                let ghost s4 = self@;
                let saved = self.open_block();
                let mut body_lin = self.linearize(body, get_address, break_dest, continue_dest);
                let ghost lb = ir_list_model(body_lin.ir_list@);
                push_node(&mut list, IrNode::Label(if_next_label));
                append_nodes(&mut list, &mut body_lin.ir_list);
                self.close_block(saved);
                assert(ir_list_model(list@) =~= lbc + seq![IrModel::Label(if_next_label)] + lb);
                if has_else {
                    let saved2 = self.open_block();
                    push_node(&mut list, IrNode::Branch(CompareType::Always, expr.type_ref, 0, 0, if_end_label));
                    push_node(&mut list, IrNode::Label(if_else_label));
                    let mut else_lin = self.linearize(else_body, get_address, break_dest, continue_dest);
                    let ghost le = ir_list_model(else_lin.ir_list@);
                    append_nodes(&mut list, &mut else_lin.ir_list);
                    self.close_block(saved2);
                    push_node(&mut list, IrNode::Label(if_end_label));
                    assert(ir_list_model(list@) =~= lbc + seq![IrModel::Label(if_next_label)] + lb + seq![
                        IrModel::Branch(CompareType::Always, expr@.type_ref, 0, 0, if_end_label),
                        IrModel::Label(if_else_label),
                    ] + le + seq![IrModel::Label(if_end_label)]);
                } else {
                    push_node(&mut list, IrNode::Label(if_end_label));
                    assert(ir_list_model(list@) =~= lbc + seq![IrModel::Label(if_next_label)] + lb + seq![
                        IrModel::Label(if_end_label),
                    ]);
                }
                LirgenResult { ir_list: list, result_register: 0 }
            },
            _ => LirgenResult::default(),
        }
    }
}

impl Lirgen {
    /// Linearises a call: the arguments, then the call into a fresh register.
    fn linearize_procedure_node(&mut self, ast: &AstNodeWrapper, get_address: bool, break_dest: u32, continue_dest: u32) -> (r: LirgenResult)
        requires
            clin_procedure(old(self)@, ast@, get_address, break_dest, continue_dest) is Some,
        ensures
            clin_procedure(old(self)@, ast@, get_address, break_dest, continue_dest) == outcome(final(self)@, r),
        decreases *ast, 0nat,
    {
        match &ast.node {
            AstNode::ProcedureNode(primary, params) => match &primary.node {
                AstNode::PrimaryNode(tk) => {
                    proof {
                        lemma_wrapper_model(*ast);
                        lemma_wrapper_model(**primary);
                    }
                    let id = Self::get_identifier(tk);
                    let ghost ps = crate::ast::ast_impl::list_model(params@);
                    proof {
                        crate::ast::ast_impl::lemma_list_model(params@);
                    }
                    let ghost s0 = self@;
                    let mut list: Vec<IrNode> = Vec::new();
                    let mut list_params: Vec<u32> = Vec::new();
                    let mut i: usize = 0;
                    assert(ps.subrange(0, ps.len() as int) =~= ps);
                    assert(clin_arguments(s0, ps, get_address, break_dest, continue_dest) == match clin_arguments(
                        self@,
                        ps.subrange(i as int, ps.len() as int),
                        get_address,
                        break_dest,
                        continue_dest,
                    ) {
                        Some((sf, l, rs)) => Some((sf, ir_list_model(list@) + l, list_params@ + rs)),
                        None => None,
                    }) by {
                        match clin_arguments(s0, ps, get_address, break_dest, continue_dest) {
                            Some((sf, l, rs)) => {
                                assert(Seq::<IrModel>::empty() + l =~= l);
                                assert(Seq::<u32>::empty() + rs =~= rs);
                            },
                            None => {},
                        }
                    }
                    while i < params.len()
                        invariant
                            i <= params.len(),
                            ps == crate::ast::ast_impl::list_model(params@),
                            ps.len() == params.len(),
                            forall|k: int| 0 <= k < params.len() ==> #[trigger] ps[k] == params@[k]@,
                            ast.node == AstNode::ProcedureNode(*primary, *params),
                            clin_arguments(s0, ps, get_address, break_dest, continue_dest) is Some,
                            clin_arguments(s0, ps, get_address, break_dest, continue_dest) == match clin_arguments(
                                self@,
                                ps.subrange(i as int, ps.len() as int),
                                get_address,
                                break_dest,
                                continue_dest,
                            ) {
                                Some((sf, l, rs)) => Some((sf, ir_list_model(list@) + l, list_params@ + rs)),
                                None => None,
                            },
                        decreases params.len() - i,
                    {
                        let ghost rest = ps.subrange(i as int, ps.len() as int);
                        assert(rest[0] == params@[i as int]@);
                        assert(rest.drop_first() =~= ps.subrange(i + 1, ps.len() as int));
                        assert(decreases_to!(*ast => params@[i as int])) by {
                            assert(decreases_to!(*ast => ast.node));
                            assert(decreases_to!(ast.node => ast.node->ProcedureNode_1));
                            assert(decreases_to!(*params => params@));
                            assert(decreases_to!(params@ => params@[i as int]));
                        }
                        let ghost acc = ir_list_model(list@);
                        let ghost regs = list_params@;
                        let mut linearized = self.linearize(&params[i], get_address, break_dest, continue_dest);
                        let ghost l1 = ir_list_model(linearized.ir_list@);
                        append_nodes(&mut list, &mut linearized.ir_list);
                        list_params.push(linearized.result_register);
                        proof {
                            match clin_arguments(
                                self@,
                                ps.subrange(i + 1, ps.len() as int),
                                get_address,
                                break_dest,
                                continue_dest,
                            ) {
                                Some((sf, l, rs)) => {
                                    assert(acc + (l1 + l) =~= acc + l1 + l);
                                    assert(regs + (seq![linearized.result_register] + rs) =~= regs.push(
                                        linearized.result_register,
                                    ) + rs);
                                },
                                None => {},
                            }
                        }
                        i = i + 1;
                    }
                    proof {
                        assert(ps.subrange(ps.len() as int, ps.len() as int) =~= Seq::<WrapperModel>::empty());
                        assert(ir_list_model(list@) + Seq::<IrModel>::empty() =~= ir_list_model(list@));
                        assert(list_params@ + Seq::<u32>::empty() =~= list_params@);
                    }
                    let result_register = self.get_register();
                    let node = IrNode::Call(id, ast.type_ref, list_params, result_register);
                    push_node(&mut list, node);
                    LirgenResult { ir_list: list, result_register }
                },
                _ => LirgenResult::default(),
            },
            _ => LirgenResult::default(),
        }
    }

    /// Linearises a block, statement after statement.
    fn linearize_compound_node(&mut self, ast: &AstNodeWrapper, get_address: bool, break_dest: u32, continue_dest: u32) -> (r: LirgenResult)
        requires
            ast@.node is CompoundNode,
            clin(old(self)@, ast@, get_address, break_dest, continue_dest) is Some,
        ensures
            clin(old(self)@, ast@, get_address, break_dest, continue_dest) == outcome(final(self)@, r),
        decreases *ast, 0nat,
    {
        match &ast.node {
            AstNode::CompoundNode(statements) => {
                proof {
                    lemma_wrapper_model(*ast);
                }
                let ghost ws = crate::ast::ast_impl::list_model(statements@);
                proof {
                    crate::ast::ast_impl::lemma_list_model(statements@);
                }
                let ghost s0 = self@;
                let mut list: Vec<IrNode> = Vec::new();
                let mut i: usize = 0;
                assert(ws.subrange(0, ws.len() as int) =~= ws);
                assert(clin_statements(s0, ws, get_address, break_dest, continue_dest) == match clin_statements(
                    self@,
                    ws.subrange(i as int, ws.len() as int),
                    get_address,
                    break_dest,
                    continue_dest,
                ) {
                    Some((sf, l)) => Some((sf, ir_list_model(list@) + l)),
                    None => None,
                }) by {
                    match clin_statements(s0, ws, get_address, break_dest, continue_dest) {
                        Some((sf, l)) => {
                            assert(Seq::<IrModel>::empty() + l =~= l);
                        },
                        None => {},
                    }
                }
                while i < statements.len()
                    invariant
                        i <= statements.len(),
                        ws == crate::ast::ast_impl::list_model(statements@),
                        ws.len() == statements.len(),
                        forall|k: int| 0 <= k < statements.len() ==> #[trigger] ws[k] == statements@[k]@,
                        clin_statements(s0, ws, get_address, break_dest, continue_dest) is Some,
                        ast.node == AstNode::CompoundNode(*statements),
                        clin_statements(s0, ws, get_address, break_dest, continue_dest) == match clin_statements(
                            self@,
                            ws.subrange(i as int, ws.len() as int),
                            get_address,
                            break_dest,
                            continue_dest,
                        ) {
                            Some((sf, l)) => Some((sf, ir_list_model(list@) + l)),
                            None => None,
                        },
                    decreases statements.len() - i,
                {
                    let ghost rest = ws.subrange(i as int, ws.len() as int);
                    assert(rest[0] == statements@[i as int]@);
                    assert(rest.drop_first() =~= ws.subrange(i + 1, ws.len() as int));
                    assert(decreases_to!(*ast => statements@[i as int])) by {
                        assert(decreases_to!(*ast => ast.node));
                        assert(decreases_to!(ast.node => ast.node->CompoundNode_0));
                        assert(decreases_to!(*statements => statements@));
                        assert(decreases_to!(statements@ => statements@[i as int]));
                    }
                    let ghost acc = ir_list_model(list@);
                    let mut l_lin = self.linearize(&statements[i], get_address, break_dest, continue_dest);
                    let ghost l1 = ir_list_model(l_lin.ir_list@);
                    append_nodes(&mut list, &mut l_lin.ir_list);
                    proof {
                        match clin_statements(
                            self@,
                            ws.subrange(i + 1, ws.len() as int),
                            get_address,
                            break_dest,
                            continue_dest,
                        ) {
                            Some((sf, l)) => {
                                assert(acc + (l1 + l) =~= acc + l1 + l);
                            },
                            None => {},
                        }
                    }
                    i = i + 1;
                }
                proof {
                    assert(ws.subrange(ws.len() as int, ws.len() as int) =~= Seq::<WrapperModel>::empty());
                    assert(ir_list_model(list@) + Seq::<IrModel>::empty() =~= ir_list_model(list@));
                }
                LirgenResult { ir_list: list, result_register: 0 }
            },
            _ => LirgenResult::default(),
        }
    }
}

impl Lirgen {
    /// Linearises a program: the functions first, each followed by forgetting every register,
    /// then the global declarations gathered in the `init` function with the call to `main`.
    #[verifier::rlimit(40)]
    fn linearize_declaration_list(&mut self, ast: &AstNodeWrapper, get_address: bool, break_dest: u32, continue_dest: u32) -> (r: LirgenResult)
        requires
            clin_declaration_list(old(self)@, ast@, get_address, break_dest, continue_dest) is Some,
        ensures
            clin_declaration_list(old(self)@, ast@, get_address, break_dest, continue_dest) == outcome(final(self)@, r),
        decreases *ast, 0nat,
    {
        match &ast.node {
            AstNode::DeclarationList(list) => {
                proof {
                    lemma_wrapper_model(*ast);
                }
                let ghost ws = crate::ast::ast_impl::list_model(list@);
                proof {
                    crate::ast::ast_impl::lemma_list_model(list@);
                }
                let ghost s0 = self@;
                let mut functions_decl: Vec<IrNode> = Vec::new();
                let mut var_decl: Vec<IrNode> = Vec::new();
                let mut i: usize = 0;
                assert(ws.subrange(0, ws.len() as int) =~= ws);
                assert(clin_functions(s0, ws, get_address, break_dest, continue_dest) == match clin_functions(
                    self@,
                    ws.subrange(i as int, ws.len() as int),
                    get_address,
                    break_dest,
                    continue_dest,
                ) {
                    Some((sf, l)) => Some((sf, ir_list_model(functions_decl@) + l)),
                    None => None,
                }) by {
                    match clin_functions(s0, ws, get_address, break_dest, continue_dest) {
                        Some((sf, l)) => {
                            assert(Seq::<IrModel>::empty() + l =~= l);
                        },
                        None => {},
                    }
                }
                while i < list.len()
                    invariant
                        i <= list.len(),
                        ws == crate::ast::ast_impl::list_model(list@),
                        ws.len() == list.len(),
                        forall|k: int| 0 <= k < list.len() ==> #[trigger] ws[k] == list@[k]@,
                        clin_declaration_list(s0, ast@, get_address, break_dest, continue_dest) is Some,
                        ast.node == AstNode::DeclarationList(*list),
                        ast@.node == AstModel::DeclarationList(ws),
                        ir_list_model(var_decl@) == Seq::<IrModel>::empty(),
                        clin_functions(s0, ws, get_address, break_dest, continue_dest) == match clin_functions(
                            self@,
                            ws.subrange(i as int, ws.len() as int),
                            get_address,
                            break_dest,
                            continue_dest,
                        ) {
                            Some((sf, l)) => Some((sf, ir_list_model(functions_decl@) + l)),
                            None => None,
                        },
                    decreases list.len() - i,
                {
                    let ghost rest = ws.subrange(i as int, ws.len() as int);
                    assert(rest[0] == list@[i as int]@);
                    assert(rest.drop_first() =~= ws.subrange(i + 1, ws.len() as int));
                    match &list[i].node {
                        AstNode::FuncDeclNode(..) => {
                            assert(decreases_to!(*ast => list@[i as int])) by {
                                assert(decreases_to!(*ast => ast.node));
                                assert(decreases_to!(ast.node => ast.node->DeclarationList_0));
                                assert(decreases_to!(*list => list@));
                                assert(decreases_to!(list@ => list@[i as int]));
                            }
                            let ghost acc = ir_list_model(functions_decl@);
                            let mut lin = self.linearize(&list[i], get_address, break_dest, continue_dest);
                            let ghost l1 = ir_list_model(lin.ir_list@);
                            append_nodes(&mut functions_decl, &mut lin.ir_list);
                            append_nodes(&mut var_decl, &mut lin.ir_list);
                            assert(ir_list_model(var_decl@) =~= Seq::<IrModel>::empty());
                            self.erase_registers();
                            proof {
                                match clin_functions(
                                    self@,
                                    ws.subrange(i + 1, ws.len() as int),
                                    get_address,
                                    break_dest,
                                    continue_dest,
                                ) {
                                    Some((sf, l)) => {
                                        assert(acc + (l1 + l) =~= acc + l1 + l);
                                    },
                                    None => {},
                                }
                            }
                        },
                        _ => {},
                    }
                    i = i + 1;
                }
                proof {
                    assert(ws.subrange(ws.len() as int, ws.len() as int) =~= Seq::<WrapperModel>::empty());
                    assert(ir_list_model(functions_decl@) + Seq::<IrModel>::empty() =~= ir_list_model(
                        functions_decl@,
                    ));
                }
                let ghost s1 = self@;
                let mut i: usize = 0;
                assert(clin_globals(s1, ws, get_address, break_dest, continue_dest) == match clin_globals(
                    self@,
                    ws.subrange(i as int, ws.len() as int),
                    get_address,
                    break_dest,
                    continue_dest,
                ) {
                    Some((sf, l)) => Some((sf, ir_list_model(var_decl@) + l)),
                    None => None,
                }) by {
                    match clin_globals(s1, ws, get_address, break_dest, continue_dest) {
                        Some((sf, l)) => {
                            assert(Seq::<IrModel>::empty() + l =~= l);
                        },
                        None => {},
                    }
                }
                while i < list.len()
                    invariant
                        i <= list.len(),
                        ws == crate::ast::ast_impl::list_model(list@),
                        ws.len() == list.len(),
                        forall|k: int| 0 <= k < list.len() ==> #[trigger] ws[k] == list@[k]@,
                        clin_globals(s1, ws, get_address, break_dest, continue_dest) is Some,
                        ast.node == AstNode::DeclarationList(*list),
                        clin_globals(s1, ws, get_address, break_dest, continue_dest) == match clin_globals(
                            self@,
                            ws.subrange(i as int, ws.len() as int),
                            get_address,
                            break_dest,
                            continue_dest,
                        ) {
                            Some((sf, l)) => Some((sf, ir_list_model(var_decl@) + l)),
                            None => None,
                        },
                    decreases list.len() - i,
                {
                    let ghost rest = ws.subrange(i as int, ws.len() as int);
                    assert(rest[0] == list@[i as int]@);
                    assert(rest.drop_first() =~= ws.subrange(i + 1, ws.len() as int));
                    match &list[i].node {
                        AstNode::FuncDeclNode(..) => {},
                        _ => {
                            assert(decreases_to!(*ast => list@[i as int])) by {
                                assert(decreases_to!(*ast => ast.node));
                                assert(decreases_to!(ast.node => ast.node->DeclarationList_0));
                                assert(decreases_to!(*list => list@));
                                assert(decreases_to!(list@ => list@[i as int]));
                            }
                            let ghost acc = ir_list_model(var_decl@);
                            self.is_global = true;
                            let mut lin = self.linearize(&list[i], get_address, break_dest, continue_dest);
                            self.is_global = true;
                            let ghost l1 = ir_list_model(lin.ir_list@);
                            append_nodes(&mut var_decl, &mut lin.ir_list);
                            proof {
                                match clin_globals(
                                    self@,
                                    ws.subrange(i + 1, ws.len() as int),
                                    get_address,
                                    break_dest,
                                    continue_dest,
                                ) {
                                    Some((sf, l)) => {
                                        assert(acc + (l1 + l) =~= acc + l1 + l);
                                    },
                                    None => {},
                                }
                            }
                        },
                    }
                    i = i + 1;
                }
                proof {
                    assert(ws.subrange(ws.len() as int, ws.len() as int) =~= Seq::<WrapperModel>::empty());
                    assert(ir_list_model(var_decl@) + Seq::<IrModel>::empty() =~= ir_list_model(var_decl@));
                }
                let ghost globals = ir_list_model(var_decl@);
                let main_call = IrNode::Call(crate::text::string_from("main"), TypeWrapper::default(), Vec::new(), 0);
                push_node(&mut var_decl, main_call);
                push_node(&mut var_decl, IrNode::Label(0));
                push_node(&mut var_decl, IrNode::Branch(CompareType::Always, TypeWrapper::default(), 0, 0, 0));
                assert(ir_list_model(var_decl@) =~= globals + init_tail());
                let init_node = IrNode::FunctionDeclaration(
                    crate::text::string_from("init"),
                    TypeWrapper::default(),
                    Vec::new(),
                    var_decl,
                );
                let mut result: Vec<IrNode> = Vec::new();
                let ghost funcs = ir_list_model(functions_decl@);
                push_node(&mut result, init_node);
                append_nodes(&mut result, &mut functions_decl);
                assert(ir_list_model(result@) =~= seq![init_node@] + funcs);
                LirgenResult { ir_list: result, result_register: 0 }
            },
            _ => LirgenResult::default(),
        }
    }

    /// Linearises a variable declaration: its initial value if any, whose register then holds
    /// the variable's value, and its allocation.
    fn linearize_var_decl_node(&mut self, ast: &AstNodeWrapper, get_address: bool, break_dest: u32, continue_dest: u32) -> (r: LirgenResult)
        requires
            clin_var_decl(old(self)@, ast@, get_address, break_dest, continue_dest) is Some,
        ensures
            clin_var_decl(old(self)@, ast@, get_address, break_dest, continue_dest) == outcome(final(self)@, r),
        decreases *ast, 0nat,
    {
        match &ast.node {
            AstNode::VarDeclNode(tt, name, expression) => {
                proof {
                    lemma_wrapper_model(*ast);
                    lemma_wrapper_model(**tt);
                    lemma_wrapper_model(**expression);
                }
                let mut list: Vec<IrNode> = Vec::new();
                let id = Self::get_identifier(name);
                let ghost l1: Seq<IrModel>;
                let init_register = if !expression.is_null() {
                    let mut expression_lin = self.linearize(expression, get_address, break_dest, continue_dest);
                    proof {
                        l1 = ir_list_model(expression_lin.ir_list@);
                    }
                    append_nodes(&mut list, &mut expression_lin.ir_list);
                    self.add_variable(&id, expression_lin.result_register);
                    expression_lin.result_register
                } else {
                    proof {
                        l1 = Seq::empty();
                    }
                    0
                };
                assert(ir_list_model(list@) =~= l1);
                let result_register = self.get_register();
                let store_node = IrNode::Alloc(
                    tt.type_ref,
                    result_register,
                    init_register,
                    self.is_global,
                    1,
                    false,
                    id.clone(),
                );
                push_node(&mut list, store_node);
                self.add_pointer_variable(&id, result_register);
                LirgenResult { ir_list: list, result_register }
            },
            _ => LirgenResult::default(),
        }
    }

    /// Linearises an identifier, an integer or a character.
    fn linearize_primary_node(&mut self, ast: &AstNodeWrapper, get_address: bool, break_dest: u32, continue_dest: u32) -> (r: LirgenResult)
        requires
            clin_primary(old(self)@, ast@, get_address) is Some,
        ensures
            clin_primary(old(self)@, ast@, get_address) == outcome(final(self)@, r),
        decreases *ast, 0nat,
    {
        proof {
            lemma_wrapper_model(*ast);
        }
        match &ast.node {
            AstNode::PrimaryNode(token) => match &token.tk {
                Tk::Identifier(id) => {
                    let mut list: Vec<IrNode> = Vec::new();
                    let load_register;
                    let mut result_register;
                    match self.get_pointer_variable(id) {
                        Some(l) => {
                            load_register = l;
                            result_register = l;
                        },
                        None => {
                            load_register = self.get_register();
                            let mut tt = ast.type_ref;
                            tt.pointer = tt.pointer + 1;
                            push_node(&mut list, IrNode::LoadA(tt, load_register, id.clone()));
                            result_register = load_register;
                        },
                    }
                    if get_address || ast.type_ref.pointer > 0 {
                        return LirgenResult { ir_list: list, result_register };
                    }
                    match self.get_variables(id) {
                        Some(l) => {
                            result_register = l;
                        },
                        None => {
                            let r = self.get_register();
                            push_node(&mut list, IrNode::LoadR(ast.type_ref, r, load_register));
                            result_register = r;
                            self.add_variable(id, r);
                        },
                    }
                    LirgenResult { ir_list: list, result_register }
                },
                Tk::IntegerLiteral(num) => {
                    let c = *num as u32;
                    let mut list: Vec<IrNode> = Vec::new();
                    match self.get_constant(c) {
                        Some(l) => LirgenResult { ir_list: list, result_register: l },
                        None => {
                            let result_register = self.get_register();
                            push_node(&mut list, IrNode::MovC(ast.type_ref, result_register, c));
                            self.add_constant(result_register, c);
                            LirgenResult { ir_list: list, result_register }
                        },
                    }
                },
                Tk::Char(c) => {
                    let result_register = self.get_register();
                    let mut list: Vec<IrNode> = Vec::new();
                    push_node(&mut list, IrNode::MovC(ast.type_ref, result_register, *c as u32));
                    LirgenResult { ir_list: list, result_register }
                },
                _ => LirgenResult::default(),
            },
            _ => LirgenResult::default(),
        }
    }

    /// Linearises a binary operation: an assignment stores and records the value of a variable,
    /// or forgets every value when it stores through a pointer; another operation is computed
    /// once, then found again in the cache.
    fn linearize_binary_node(&mut self, ast: &AstNodeWrapper, get_address: bool, break_dest: u32, continue_dest: u32) -> (r: LirgenResult)
        requires
            clin_binary(old(self)@, ast@, get_address, break_dest, continue_dest) is Some,
        ensures
            clin_binary(old(self)@, ast@, get_address, break_dest, continue_dest) == outcome(final(self)@, r),
        decreases *ast, 0nat,
    {
        match &ast.node {
            AstNode::BinaryNode(token, exp1, exp2) => {
                proof {
                    lemma_wrapper_model(*ast);
                    lemma_wrapper_model(**exp1);
                }
                let is_assign = match &token.tk {
                    Tk::Operator(Operator::Assign) => true,
                    _ => false,
                };
                if is_assign {
                    let mut exp1_lin = self.linearize(exp1, true, break_dest, continue_dest);
                    let mut exp2_lin = self.linearize(exp2, get_address, break_dest, continue_dest);
                    let ghost l1 = ir_list_model(exp1_lin.ir_list@);
                    let ghost l2 = ir_list_model(exp2_lin.ir_list@);
                    let new_op = IrNode::Store(ast.type_ref, exp1_lin.result_register, exp2_lin.result_register);
                    let mut list: Vec<IrNode> = Vec::new();
                    append_nodes(&mut list, &mut exp1_lin.ir_list);
                    append_nodes(&mut list, &mut exp2_lin.ir_list);
                    push_node(&mut list, new_op);
                    assert(ir_list_model(list@) =~= l1 + l2 + seq![new_op@]);
                    match &exp1.node {
                        AstNode::PrimaryNode(tk) => {
                            let id = Self::get_identifier(tk);
                            self.record_assignment(&id, exp2_lin.result_register);
                        },
                        _ => self.clear_variable_values(),
                    }
                    let result_register = if get_address {
                        exp1_lin.result_register
                    } else {
                        exp2_lin.result_register
                    };
                    return LirgenResult { ir_list: list, result_register };
                }
                let mut exp1_lin = self.linearize(exp1, get_address, break_dest, continue_dest);
                let mut exp2_lin = self.linearize(exp2, get_address, break_dest, continue_dest);
                let operator = Self::get_operator(token);
                match self.get_computed_binary(exp1_lin.result_register, exp2_lin.result_register, &operator) {
                    Some(dest) => {
                        return LirgenResult { ir_list: Vec::new(), result_register: dest };
                    },
                    None => {},
                }
                let ghost l1 = ir_list_model(exp1_lin.ir_list@);
                let ghost l2 = ir_list_model(exp2_lin.ir_list@);
                let result_register = self.get_register();
                self.add_computed_binary((operator, result_register, exp1_lin.result_register, exp2_lin.result_register));
                let new_op = IrNode::Binary(operator, ast.type_ref, result_register, exp1_lin.result_register, exp2_lin.result_register);
                let mut list: Vec<IrNode> = Vec::new();
                append_nodes(&mut list, &mut exp1_lin.ir_list);
                append_nodes(&mut list, &mut exp2_lin.ir_list);
                push_node(&mut list, new_op);
                assert(ir_list_model(list@) =~= l1 + l2 + seq![new_op@]);
                LirgenResult { ir_list: list, result_register }
            },
            _ => LirgenResult::default(),
        }
    }

    /// Linearises a function declaration: the allocation of its parameters, then its body.
    fn linearize_func_decl_node(&mut self, ast: &AstNodeWrapper, get_address: bool, break_dest: u32, continue_dest: u32) -> (r: LirgenResult)
        requires
            clin_func_decl(old(self)@, ast@, get_address, break_dest, continue_dest) is Some,
        ensures
            clin_func_decl(old(self)@, ast@, get_address, break_dest, continue_dest) == outcome(final(self)@, r),
        decreases *ast, 0nat,
    {
        match &ast.node {
            AstNode::FuncDeclNode(rt, name, params, body) => {
                proof {
                    lemma_wrapper_model(*ast);
                    lemma_wrapper_model(**rt);
                }
                let ghost ps = crate::ast::ast_impl::list_model(params@);
                proof {
                    crate::ast::ast_impl::lemma_list_model(params@);
                }
                let ghost s0 = self@;
                let n = params.len();
                let mut tt_list: Vec<TypeWrapper> = Vec::new();
                let mut ir_list: Vec<IrNode> = Vec::new();
                let mut i: usize = 0;
                assert(clin_parameters(s0, ps, 0) == match clin_parameters(self@, ps, i as int) {
                    Some((sf, ts, nodes)) => Some((sf, tt_list@ + ts, ir_list_model(ir_list@) + nodes)),
                    None => None,
                }) by {
                    match clin_parameters(s0, ps, 0) {
                        Some((sf, ts, nodes)) => {
                            assert(Seq::<IrModel>::empty() + nodes =~= nodes);
                            assert(Seq::<TypeWrapper>::empty() + ts =~= ts);
                        },
                        None => {},
                    }
                }
                while i < n
                    invariant
                        i <= n,
                        n == params.len(),
                        2 * n + 1 <= u32::MAX,
                        ps == crate::ast::ast_impl::list_model(params@),
                        ps.len() == params.len(),
                        forall|k: int| 0 <= k < params.len() ==> #[trigger] ps[k] == params@[k]@,
                        clin_parameters(s0, ps, 0) is Some,
                        clin_parameters(s0, ps, 0) == match clin_parameters(self@, ps, i as int) {
                            Some((sf, ts, nodes)) => Some((sf, tt_list@ + ts, ir_list_model(ir_list@) + nodes)),
                            None => None,
                        },
                    decreases n - i,
                {
                    assert(ps[i as int] == params@[i as int]@);
                    proof {
                        lemma_wrapper_model(params@[i as int]);
                    }
                    let name_param = match &params[i].node {
                        AstNode::ParameterNode(tk, ..) => Self::get_identifier(tk),
                        _ => String::new(),
                    };
                    let ghost tts = tt_list@;
                    let ghost acc = ir_list_model(ir_list@);
                    tt_list.push(params[i].type_ref);
                    let address = i as u32 + 1 + n as u32;
                    let value = i as u32 + 1;
                    let store_node = IrNode::Alloc(
                        params[i].type_ref,
                        address,
                        value,
                        false,
                        1,
                        false,
                        name_param.clone(),
                    );
                    self.add_pointer_variable(&name_param, address);
                    self.add_variable(&name_param, value);
                    push_node(&mut ir_list, store_node);
                    proof {
                        match clin_parameters(self@, ps, i + 1) {
                            Some((sf, ts, nodes)) => {
                                assert(acc + (seq![store_node@] + nodes) =~= acc.push(store_node@) + nodes);
                                assert(tts + (seq![params@[i as int].type_ref] + ts) =~= tts.push(
                                    params@[i as int].type_ref,
                                ) + ts);
                            },
                            None => {},
                        }
                    }
                    i = i + 1;
                }
                proof {
                    assert(tt_list@ + Seq::<TypeWrapper>::empty() =~= tt_list@);
                    assert(ir_list_model(ir_list@) + Seq::<IrModel>::empty() =~= ir_list_model(ir_list@));
                }
                self.current_register = self.current_register + n as u32 * 2;
                let mut body_lin = self.linearize(body, get_address, break_dest, continue_dest);
                let ghost lb = ir_list_model(body_lin.ir_list@);
                append_nodes(&mut ir_list, &mut body_lin.ir_list);
                let func_node = IrNode::FunctionDeclaration(Self::get_identifier(name), rt.type_ref, tt_list, ir_list);
                let mut result: Vec<IrNode> = Vec::new();
                push_node(&mut result, func_node);
                assert(ir_list_model(result@) =~= seq![func_node@]);
                LirgenResult { ir_list: result, result_register: 0 }
            },
            _ => LirgenResult::default(),
        }
    }
}

/// Every node produced for the functions of a list is a function declaration.
pub proof fn lemma_clin_functions_shape(s: CacheState, ws: Seq<WrapperModel>, ga: bool, brk: u32, cont: u32)
    requires
        clin_functions(s, ws, ga, brk, cont) is Some,
    ensures
        forall|k: int|
            0 <= k < clin_functions(s, ws, ga, brk, cont).unwrap().1.len() ==> #[trigger] clin_functions(
                s,
                ws,
                ga,
                brk,
                cont,
            ).unwrap().1[k] is FunctionDeclaration,
    decreases ws.len(),
{
    if ws.len() > 0 {
        if ws[0].node is FuncDeclNode {
            assert(clin(s, ws[0], ga, brk, cont) == clin_func_decl(s, ws[0], ga, brk, cont));
            let (s1, l1, _) = clin(s, ws[0], ga, brk, cont).unwrap();
            lemma_clin_functions_shape(cs_erase(s1), ws.drop_first(), ga, brk, cont);
            let l2 = clin_functions(cs_erase(s1), ws.drop_first(), ga, brk, cont).unwrap().1;
            assert(l1.len() == 1 && l1[0] is FunctionDeclaration);
            assert forall|k: int| 0 <= k < (l1 + l2).len() implies #[trigger] (l1 + l2)[k] is FunctionDeclaration by {
                if k >= 1 {
                    assert((l1 + l2)[k] == l2[k - 1]);
                }
            }
        } else {
            lemma_clin_functions_shape(s, ws.drop_first(), ga, brk, cont);
        }
    }
}

/// Linearising a list of declarations gives a program made of function declarations, the
/// `init` function first, ending with the call to `main`: a program the optimizer accepts.
pub proof fn lemma_list_linearized_program(s: CacheState, w: WrapperModel)
    requires
        w.node is DeclarationList,
        clin(s, w, false, 0, 0) is Some,
    ensures
        crate::optimizer::optimizer::is_program(IrModel::Program(clin(s, w, false, 0, 0).unwrap().1)),
        clin(s, w, false, 0, 0).unwrap().1[0] matches IrModel::FunctionDeclaration(name, _, args, body)
            && name == "init"@ && args.len() == 0 && body.len() >= 3 && body.subrange(
            body.len() - 3,
            body.len() as int,
        ) == init_tail(),
{
    let list = w.node->DeclarationList_0;
    assert(clin(s, w, false, 0, 0) == clin_declaration_list(s, w, false, 0, 0));
    let (s1, funcs) = clin_functions(s, list, false, 0, 0).unwrap();
    lemma_clin_functions_shape(s, list, false, 0, 0);
    let out = clin(s, w, false, 0, 0).unwrap().1;
    let (_, globals) = clin_globals(s1, list, false, 0, 0).unwrap();
    assert(out == seq![
        IrModel::FunctionDeclaration("init"@, default_type(), Seq::empty(), globals + init_tail()),
    ] + funcs);
    assert forall|k: int| 0 <= k < out.len() implies #[trigger] crate::optimizer::optimizer::is_function(
        out[k],
    ) by {
        if k >= 1 {
            assert(out[k] == funcs[k - 1]);
        }
    }
    assert((globals + init_tail()).subrange(globals.len() as int, globals.len() + 3int) =~= init_tail());
}

} // verus!
