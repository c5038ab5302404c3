//! The single-assignment form of the code of the generator with list caches: within a function,
//! no register is written by two instructions.

use vstd::prelude::*;
use crate::ast::ast_impl::{AstModel, WrapperModel};
use crate::lexer::token::{Keyword, Operator, TkModel};
use crate::lirgen::irnode::{compare_of_token, CompareType, IrModel};
use crate::lirgen::lirgen::{init_tail, pointer_to};
use crate::lirgen::lirgen_impl::{
    clin, clin_arguments, clin_array_decl, clin_binary, clin_cast, clin_condition, clin_declaration_list,
    clin_for, clin_func_decl, clin_functions, clin_globals, clin_if, clin_jump, clin_parameters,
    clin_prefix, clin_primary, clin_procedure, clin_selector, clin_statements, clin_var_decl, clin_while,
    cs_add_constant, cs_add_pointer, cs_add_variable, cs_block_close, cs_block_open, cs_erase, cs_fresh_label,
    cs_fresh_reg, cs_open_loop, first_const, first_named, ident_of, CacheOut, CacheState,
};
use crate::lirgen::ssa::{
    flat, flat_list, flat_program, fresh_span, functions_single_assignment, lemma_flat_program_tail,
    lemma_span_concat, lemma_span_control, lemma_span_one, lemma_span_push, lemma_span_single,
    lemma_span_widen, single_assignment,
};

verus! {

/// The outcome of linearising a node keeps the registers it writes fresh: they come after the
/// counter it started from, up to the counter it ends with, in increasing order.
pub open spec fn span_of(s: CacheState, out: CacheOut) -> bool {
    out matches Some((s2, l, _)) ==> s.reg <= s2.reg && fresh_span(l, s.reg as int, s2.reg as int)
}

proof fn lemma_node_span(s: CacheState, w: WrapperModel, ga: bool, brk: u32, cont: u32)
    requires
        flat(w),
    ensures
        span_of(s, clin(s, w, ga, brk, cont)),
    decreases w, 1nat,
{
    match w.node {
        AstModel::VarDeclNode(..) => lemma_var_decl_span(s, w, ga, brk, cont),
        AstModel::PrimaryNode(..) => lemma_primary_span(s, w, ga),
        AstModel::JumpNode(..) => lemma_jump_span(s, w, ga, brk, cont),
        AstModel::CompoundNode(list) => lemma_statements_span(s, list, ga, brk, cont),
        AstModel::BinaryNode(..) => lemma_binary_span(s, w, ga, brk, cont),
        AstModel::CastNode(..) => lemma_cast_span(s, w, ga, brk, cont),
        AstModel::ExprStatementNode(e) => lemma_node_span(s, *e, ga, brk, cont),
        AstModel::ArrayDeclNode(..) => lemma_array_decl_span(s, w, ga, brk, cont),
        AstModel::ProcedureNode(..) => lemma_procedure_span(s, w, ga, brk, cont),
        AstModel::PrefixNode(..) => lemma_prefix_span(s, w, ga, brk, cont),
        AstModel::SelectorNode(..) => lemma_selector_span(s, w, ga, brk, cont),
        AstModel::IfNode(..) => lemma_if_span(s, w, ga, brk, cont),
        AstModel::WhileNode(..) => lemma_while_span(s, w, ga, brk, cont),
        AstModel::ForNode(..) => lemma_for_span(s, w, ga, brk, cont),
        _ => {},
    }
}

proof fn lemma_var_decl_span(s: CacheState, w: WrapperModel, ga: bool, brk: u32, cont: u32)
    requires
        flat(w),
        w.node is VarDeclNode,
    ensures
        span_of(s, clin_var_decl(s, w, ga, brk, cont)),
    decreases w, 0nat,
{
    if let AstModel::VarDeclNode(tt, name, expression) = w.node {
        if !(expression.node is NullNode) {
            lemma_node_span(s, *expression, ga, brk, cont);
        }
        if let Some((s4, l, _)) = clin_var_decl(s, w, ga, brk, cont) {
            let id = ident_of(name.tk).unwrap();
            if !(expression.node is NullNode) {
                let (s1, l1, r1) = clin(s, *expression, ga, brk, cont).unwrap();
                let s2 = cs_add_variable(s1, id, r1);
                let (s3, r) = cs_fresh_reg(s2).unwrap();
                lemma_span_push(l1, l.last(), s.reg as int, s1.reg as int, s3.reg as int);
                assert(l =~= l1.push(l.last()));
            } else {
                let (s3, r) = cs_fresh_reg(s).unwrap();
                lemma_span_push(Seq::empty(), l.last(), s.reg as int, s.reg as int, s3.reg as int);
                assert(l =~= Seq::<IrModel>::empty().push(l.last()));
            }
        }
    }
}

proof fn lemma_primary_span(s: CacheState, w: WrapperModel, ga: bool)
    requires
        w.node is PrimaryNode,
    ensures
        span_of(s, clin_primary(s, w, ga)),
    decreases w, 0nat,
{
    if let Some((s4, l, _)) = clin_primary(s, w, ga) {
        if let AstModel::PrimaryNode(token) = w.node {
            match token.tk {
                TkModel::Identifier(id) => {
                    let address: CacheOut = match first_named(s.pointers, id) {
                        Some(p) => Some((s, Seq::empty(), p)),
                        None => match cs_fresh_reg(s) {
                            Some((s1, r)) => match pointer_to(w.type_ref) {
                                Some(tt) => Some((s1, seq![IrModel::LoadA(tt, r, id)], r)),
                                None => None,
                            },
                            None => None,
                        },
                    };
                    let (s2, l2, a) = address.unwrap();
                    assert(s.reg <= s2.reg && fresh_span(l2, s.reg as int, s2.reg as int));
                    if !(ga || w.type_ref.pointer > 0) && first_named(s2.values, id) is None {
                        let (s3, r) = cs_fresh_reg(s2).unwrap();
                        lemma_span_push(l2, l.last(), s.reg as int, s2.reg as int, s3.reg as int);
                        assert(l =~= l2.push(l.last()));
                    }
                },
                TkModel::IntegerLiteral(num) => {
                    if first_const(s.constants, num as u32) is None {
                        let (s1, r) = cs_fresh_reg(s).unwrap();
                        lemma_span_one(l[0], s.reg as int, s1.reg as int);
                        assert(l =~= seq![l[0]]);
                    }
                },
                TkModel::Char(ch) => {
                    let (s1, r) = cs_fresh_reg(s).unwrap();
                    lemma_span_one(l[0], s.reg as int, s1.reg as int);
                    assert(l =~= seq![l[0]]);
                },
                _ => {},
            }
        }
    }
}

proof fn lemma_jump_span(s: CacheState, w: WrapperModel, ga: bool, brk: u32, cont: u32)
    requires
        flat(w),
        w.node is JumpNode,
    ensures
        span_of(s, clin_jump(s, w, ga, brk, cont)),
    decreases w, 0nat,
{
    if let AstModel::JumpNode(token, expr) = w.node {
        lemma_node_span(s, *expr, ga, brk, cont);
        if let Some((s2, l, _)) = clin_jump(s, w, ga, brk, cont) {
            if token.tk == TkModel::Keyword(Keyword::Return) && !(expr.node is NullNode) {
                let (s1, l1, r1) = clin(s, *expr, ga, brk, cont).unwrap();
                lemma_span_push(l1, l.last(), s.reg as int, s1.reg as int, s1.reg as int);
                assert(l =~= l1.push(l.last()));
            }
        }
    }
}

proof fn lemma_statements_span(s: CacheState, ws: Seq<WrapperModel>, ga: bool, brk: u32, cont: u32)
    requires
        flat_list(ws),
    ensures
        clin_statements(s, ws, ga, brk, cont) matches Some((s2, l)) ==> s.reg <= s2.reg && fresh_span(
            l,
            s.reg as int,
            s2.reg as int,
        ),
    decreases ws, 2nat,
{
    if ws.len() > 0 {
        lemma_node_span(s, ws[0], ga, brk, cont);
        if let Some((s1, l1, _)) = clin(s, ws[0], ga, brk, cont) {
            lemma_statements_span(s1, ws.drop_first(), ga, brk, cont);
            if let Some((s2, l2)) = clin_statements(s1, ws.drop_first(), ga, brk, cont) {
                lemma_span_concat(l1, l2, s.reg as int, s1.reg as int, s2.reg as int);
            }
        }
    }
}

proof fn lemma_binary_span(s: CacheState, w: WrapperModel, ga: bool, brk: u32, cont: u32)
    requires
        flat(w),
        w.node is BinaryNode,
    ensures
        span_of(s, clin_binary(s, w, ga, brk, cont)),
    decreases w, 0nat,
{
    if let AstModel::BinaryNode(token, e1, e2) = w.node {
        let assign = token.tk == TkModel::Operator(Operator::Assign);
        let ga1 = if assign {
            true
        } else {
            ga
        };
        lemma_node_span(s, *e1, ga1, brk, cont);
        if let Some((s1, l1, r1)) = clin(s, *e1, ga1, brk, cont) {
            lemma_node_span(s1, *e2, ga, brk, cont);
            if let Some((s2, l2, r2)) = clin(s1, *e2, ga, brk, cont) {
                lemma_span_concat(l1, l2, s.reg as int, s1.reg as int, s2.reg as int);
                if let Some((s4, l, _)) = clin_binary(s, w, ga, brk, cont) {
                    if assign {
                        lemma_span_push(l1 + l2, IrModel::Store(w.type_ref, r1, r2), s.reg as int, s2.reg as int, s2.reg as int);
                        assert(l =~= (l1 + l2).push(IrModel::Store(w.type_ref, r1, r2)));
                    } else if l.len() > 0 {
                        let (s3, r) = cs_fresh_reg(s2).unwrap();
                        lemma_span_push(l1 + l2, l.last(), s.reg as int, s2.reg as int, s3.reg as int);
                        assert(l =~= (l1 + l2).push(l.last()));
                    }
                }
            }
        }
    }
}

proof fn lemma_cast_span(s: CacheState, w: WrapperModel, ga: bool, brk: u32, cont: u32)
    requires
        flat(w),
        w.node is CastNode,
    ensures
        span_of(s, clin_cast(s, w, ga, brk, cont)),
    decreases w, 0nat,
{
    if let AstModel::CastNode(dest_type, exp) = w.node {
        lemma_node_span(s, *exp, ga, brk, cont);
        if let Some((s3, l, _)) = clin_cast(s, w, ga, brk, cont) {
            let (s1, l1, r1) = clin(s, *exp, ga, brk, cont).unwrap();
            if dest_type.type_ref.pointer == 0 {
                let (s2, r) = cs_fresh_reg(s1).unwrap();
                lemma_span_push(l1, l.last(), s.reg as int, s1.reg as int, s2.reg as int);
                assert(l =~= l1.push(l.last()));
            }
        }
    }
}

proof fn lemma_array_decl_span(s: CacheState, w: WrapperModel, ga: bool, brk: u32, cont: u32)
    requires
        flat(w),
        w.node is ArrayDeclNode,
    ensures
        span_of(s, clin_array_decl(s, w, ga, brk, cont)),
    decreases w, 0nat,
{
    if let AstModel::ArrayDeclNode(tt, name, expression) = w.node {
        lemma_node_span(s, *expression, ga, brk, cont);
        if let Some((s3, l, _)) = clin_array_decl(s, w, ga, brk, cont) {
            let (s1, l1, init) = clin(s, *expression, ga, brk, cont).unwrap();
            let (s2, r) = cs_fresh_reg(s1).unwrap();
            lemma_span_push(l1, l.last(), s.reg as int, s1.reg as int, s2.reg as int);
            assert(l =~= l1.push(l.last()));
        }
    }
}

proof fn lemma_arguments_span(s: CacheState, ws: Seq<WrapperModel>, ga: bool, brk: u32, cont: u32)
    requires
        flat_list(ws),
    ensures
        clin_arguments(s, ws, ga, brk, cont) matches Some((s2, l, _)) ==> s.reg <= s2.reg && fresh_span(
            l,
            s.reg as int,
            s2.reg as int,
        ),
    decreases ws, 2nat,
{
    if ws.len() > 0 {
        lemma_node_span(s, ws[0], ga, brk, cont);
        if let Some((s1, l1, r1)) = clin(s, ws[0], ga, brk, cont) {
            lemma_arguments_span(s1, ws.drop_first(), ga, brk, cont);
            if let Some((s2, l2, rs)) = clin_arguments(s1, ws.drop_first(), ga, brk, cont) {
                lemma_span_concat(l1, l2, s.reg as int, s1.reg as int, s2.reg as int);
            }
        }
    }
}

proof fn lemma_procedure_span(s: CacheState, w: WrapperModel, ga: bool, brk: u32, cont: u32)
    requires
        flat(w),
        w.node is ProcedureNode,
    ensures
        span_of(s, clin_procedure(s, w, ga, brk, cont)),
    decreases w, 0nat,
{
    if let AstModel::ProcedureNode(primary, params) = w.node {
        lemma_arguments_span(s, params, ga, brk, cont);
        if let Some((s3, l, _)) = clin_procedure(s, w, ga, brk, cont) {
            let (s1, l1, regs) = clin_arguments(s, params, ga, brk, cont).unwrap();
            let (s2, r) = cs_fresh_reg(s1).unwrap();
            lemma_span_push(l1, l.last(), s.reg as int, s1.reg as int, s2.reg as int);
            assert(l =~= l1.push(l.last()));
        }
    }
}

#[verifier::rlimit(30)]
proof fn lemma_selector_span(s: CacheState, w: WrapperModel, ga: bool, brk: u32, cont: u32)
    requires
        flat(w),
        w.node is SelectorNode,
    ensures
        span_of(s, clin_selector(s, w, ga, brk, cont)),
    decreases w, 0nat,
{
    if let AstModel::SelectorNode(left, right) = w.node {
        lemma_node_span(s, *left, true, brk, cont);
        if let Some((s1, l1, rl)) = clin(s, *left, true, brk, cont) {
            lemma_node_span(s1, *right, false, brk, cont);
            if let Some((s2, l2, rr)) = clin(s1, *right, false, brk, cont) {
                lemma_span_concat(l1, l2, s.reg as int, s1.reg as int, s2.reg as int);
                if let Some((s7, l, _)) = clin_selector(s, w, ga, brk, cont) {
                    let tt = pointer_to(w.type_ref).unwrap();
                    let size = crate::ast::type_wrapper::type_size(w.type_ref);
                    let constant: Option<(CacheState, Seq<IrModel>, u32)> = match first_const(s2.constants, size) {
                        Some(c) => Some((s2, Seq::empty(), c)),
                        None => match cs_fresh_reg(s2) {
                            Some((s3, r)) => Some((cs_add_constant(s3, r, size), seq![IrModel::MovC(tt, r, size)], r)),
                            None => None,
                        },
                    };
                    let (s4, lc, cr) = constant.unwrap();
                    if first_const(s2.constants, size) is None {
                        let (s3, r) = cs_fresh_reg(s2).unwrap();
                        lemma_span_one(lc[0], s2.reg as int, s3.reg as int);
                        assert(lc =~= seq![lc[0]]);
                    }
                    assert(s2.reg <= s4.reg && fresh_span(lc, s2.reg as int, s4.reg as int));
                    lemma_span_concat(l1 + l2, lc, s.reg as int, s2.reg as int, s4.reg as int);
                    let (s5, o) = cs_fresh_reg(s4).unwrap();
                    let (s6, sum) = cs_fresh_reg(s5).unwrap();
                    let shift = IrModel::Binary(Operator::LShift, tt, o, rr, cr);
                    let add = IrModel::Binary(Operator::Plus, tt, sum, rl, o);
                    lemma_span_push(l1 + l2 + lc, shift, s.reg as int, s4.reg as int, s5.reg as int);
                    lemma_span_push((l1 + l2 + lc).push(shift), add, s.reg as int, s5.reg as int, s6.reg as int);
                    let list = l1 + l2 + lc + seq![shift, add];
                    assert(list =~= (l1 + l2 + lc).push(shift).push(add));
                    if !ga {
                        let (s8, r) = cs_fresh_reg(s6).unwrap();
                        lemma_span_push(list, l.last(), s.reg as int, s6.reg as int, s8.reg as int);
                        assert(l =~= list.push(l.last()));
                    }
                }
            }
        }
    }
}

proof fn lemma_prefix_span(s: CacheState, w: WrapperModel, ga: bool, brk: u32, cont: u32)
    requires
        flat(w),
        w.node is PrefixNode,
    ensures
        span_of(s, clin_prefix(s, w, ga, brk, cont)),
    decreases w, 0nat,
{
    if let AstModel::PrefixNode(token, expr) = w.node {
        lemma_node_span(s, *expr, false, brk, cont);
        lemma_node_span(s, *expr, true, brk, cont);
        if let Some((s9, l, _)) = clin_prefix(s, w, ga, brk, cont) {
            if let TkModel::Operator(op) = token.tk {
                if op == Operator::Not || op == Operator::Plus || op == Operator::Minus || op == Operator::Complement {
                    let (s1, l1, r1) = clin(s, *expr, false, brk, cont).unwrap();
                    let (s2, r) = cs_fresh_reg(s1).unwrap();
                    lemma_span_push(l1, l.last(), s.reg as int, s1.reg as int, s2.reg as int);
                    assert(l =~= l1.push(l.last()));
                } else if op == Operator::Asterisk {
                    let (s1, l1, r1) = clin(s, *expr, true, brk, cont).unwrap();
                    let (s2, r) = cs_fresh_reg(s1).unwrap();
                    let tt = pointer_to(w.type_ref).unwrap();
                    let x = IrModel::LoadR(tt, r, r1);
                    lemma_span_push(l1, x, s.reg as int, s1.reg as int, s2.reg as int);
                    if !ga {
                        let (s3, v) = cs_fresh_reg(s2).unwrap();
                        lemma_span_push(l1.push(x), l.last(), s.reg as int, s2.reg as int, s3.reg as int);
                        assert(l =~= l1.push(x).push(l.last()));
                    }
                }
            }
        }
    }
}

proof fn lemma_condition_span(s: CacheState, expr: WrapperModel, label: u32, ga: bool, brk: u32, cont: u32)
    requires
        flat(expr),
    ensures
        clin_condition(s, expr, label, ga, brk, cont) matches Some((s2, l)) ==> s.reg <= s2.reg && fresh_span(
            l,
            s.reg as int,
            s2.reg as int,
        ),
    decreases expr, 2nat,
{
    let compare = match expr.node {
        AstModel::BinaryNode(tk, _, _) => compare_of_token(tk.tk),
        _ => None,
    };
    if let Some((s3, l)) = clin_condition(s, expr, label, ga, brk, cont) {
        if compare is Some {
            if let AstModel::BinaryNode(_, e1, e2) = expr.node {
                lemma_node_span(s, *e1, ga, brk, cont);
                let (s1, l1, r1) = clin(s, *e1, ga, brk, cont).unwrap();
                lemma_node_span(s1, *e2, ga, brk, cont);
                let (s2, l2, r2) = clin(s1, *e2, ga, brk, cont).unwrap();
                lemma_span_concat(l1, l2, s.reg as int, s1.reg as int, s2.reg as int);
                let x = l.last();
                lemma_span_push(l1 + l2, x, s.reg as int, s2.reg as int, s2.reg as int);
                assert(l =~= (l1 + l2).push(x));
            }
        } else {
            lemma_node_span(s, expr, ga, brk, cont);
            let (s1, l1, r1) = clin(s, expr, ga, brk, cont).unwrap();
            let x = l.last();
            lemma_span_push(l1, x, s.reg as int, s1.reg as int, s1.reg as int);
            assert(l =~= l1.push(x));
        }
    }
}

#[verifier::rlimit(30)]
proof fn lemma_if_span(s: CacheState, w: WrapperModel, ga: bool, brk: u32, cont: u32)
    requires
        flat(w),
        w.node is IfNode,
    ensures
        span_of(s, clin_if(s, w, ga, brk, cont)),
    decreases w, 0nat,
{
    if let AstModel::IfNode(expr, body, else_body) = w.node {
        if let Some((s9, l, _)) = clin_if(s, w, ga, brk, cont) {
            let has_else = !(else_body.node is NullNode);
            let (s1, l_next) = cs_fresh_label(s).unwrap();
            let (s2, l_end) = cs_fresh_label(s1).unwrap();
            let labels: Option<(CacheState, u32)> = if has_else {
                cs_fresh_label(s2)
            } else {
                Some((s2, l_end))
            };
            let (s3, l_else) = labels.unwrap();
            lemma_condition_span(s3, *expr, l_else, ga, brk, cont);
            let (s4, bc) = clin_condition(s3, *expr, l_else, ga, brk, cont).unwrap();
            lemma_node_span(cs_block_open(s4), *body, ga, brk, cont);
            let (s5, lb, _) = clin(cs_block_open(s4), *body, ga, brk, cont).unwrap();
            let s6 = cs_block_close(s5, s4);
            let head = seq![IrModel::Label(l_next)];
            lemma_span_control(head, s4.reg as int, s4.reg as int);
            lemma_span_concat(bc, head, s.reg as int, s4.reg as int, s4.reg as int);
            lemma_span_concat(bc + head, lb, s.reg as int, s4.reg as int, s5.reg as int);
            if has_else {
                lemma_node_span(cs_block_open(s6), *else_body, ga, brk, cont);
                let (s7, le, _) = clin(cs_block_open(s6), *else_body, ga, brk, cont).unwrap();
                let mid = seq![
                    IrModel::Branch(CompareType::Always, expr.type_ref, 0, 0, l_end),
                    IrModel::Label(l_else),
                ];
                let tail = seq![IrModel::Label(l_end)];
                lemma_span_control(mid, s5.reg as int, s5.reg as int);
                lemma_span_control(tail, s7.reg as int, s7.reg as int);
                lemma_span_concat(bc + head + lb, mid, s.reg as int, s5.reg as int, s5.reg as int);
                lemma_span_concat(bc + head + lb + mid, le, s.reg as int, s5.reg as int, s7.reg as int);
                lemma_span_concat(bc + head + lb + mid + le, tail, s.reg as int, s7.reg as int, s7.reg as int);
            } else {
                let tail = seq![IrModel::Label(l_end)];
                lemma_span_control(tail, s5.reg as int, s5.reg as int);
                lemma_span_concat(bc + head + lb, tail, s.reg as int, s5.reg as int, s5.reg as int);
            }
        }
    }
}

proof fn lemma_while_span(s: CacheState, w: WrapperModel, ga: bool, brk: u32, cont: u32)
    requires
        flat(w),
        w.node is WhileNode,
    ensures
        span_of(s, clin_while(s, w, ga, brk, cont)),
    decreases w, 0nat,
{
    if let AstModel::WhileNode(expr, body) = w.node {
        if let Some((s5, l, _)) = clin_while(s, w, ga, brk, cont) {
            let s0 = cs_open_loop(s, false);
            let (s1, l_while) = cs_fresh_label(s0).unwrap();
            let (s2, l_end) = cs_fresh_label(s1).unwrap();
            lemma_condition_span(s2, *expr, l_end, ga, brk, cont);
            let (s3, bc) = clin_condition(s2, *expr, l_end, ga, brk, cont).unwrap();
            lemma_node_span(s3, *body, ga, l_end, l_while);
            let (s4, lb, _) = clin(s3, *body, ga, l_end, l_while).unwrap();
            let head = seq![IrModel::Label(l_while)];
            let tail = seq![
                IrModel::Branch(CompareType::Always, w.type_ref, 0, 0, l_while),
                IrModel::Label(l_end),
            ];
            lemma_span_control(head, s.reg as int, s.reg as int);
            lemma_span_control(tail, s4.reg as int, s4.reg as int);
            lemma_span_concat(head, bc, s.reg as int, s.reg as int, s3.reg as int);
            lemma_span_concat(head + bc, lb, s.reg as int, s3.reg as int, s4.reg as int);
            lemma_span_concat(head + bc + lb, tail, s.reg as int, s4.reg as int, s4.reg as int);
        }
    }
}

#[verifier::rlimit(30)]
proof fn lemma_for_span(s: CacheState, w: WrapperModel, ga: bool, brk: u32, cont: u32)
    requires
        flat(w),
        w.node is ForNode,
    ensures
        span_of(s, clin_for(s, w, ga, brk, cont)),
    decreases w, 0nat,
{
    if let AstModel::ForNode(e1, e2, e3, body) = w.node {
        if let Some((s10, l, _)) = clin_for(s, w, ga, brk, cont) {
            let (s1, l_for) = cs_fresh_label(s).unwrap();
            let (s2, l_start) = cs_fresh_label(s1).unwrap();
            let (s3, l_next) = cs_fresh_label(s2).unwrap();
            let (s4, l_end) = cs_fresh_label(s3).unwrap();
            lemma_node_span(s4, *e1, ga, brk, cont);
            let (s5, list1, _) = clin(s4, *e1, ga, brk, cont).unwrap();
            let s6 = cs_open_loop(s5, true);
            lemma_condition_span(s6, *e2, l_end, ga, brk, cont);
            let (s7, bc) = clin_condition(s6, *e2, l_end, ga, brk, cont).unwrap();
            lemma_node_span(s7, *body, ga, l_end, l_next);
            let (s8, lb, _) = clin(s7, *body, ga, l_end, l_next).unwrap();
            lemma_node_span(s8, *e3, ga, brk, cont);
            let (s9, l3, _) = clin(s8, *e3, ga, brk, cont).unwrap();
            let a = seq![IrModel::Label(l_for)];
            let b = seq![IrModel::Label(l_start)];
            let c = seq![IrModel::Label(l_next)];
            let d = seq![
                IrModel::Branch(CompareType::Always, w.type_ref, 0, 0, l_start),
                IrModel::Label(l_end),
            ];
            lemma_span_control(a, s.reg as int, s.reg as int);
            lemma_span_control(b, s5.reg as int, s5.reg as int);
            lemma_span_control(c, s8.reg as int, s8.reg as int);
            lemma_span_control(d, s9.reg as int, s9.reg as int);
            lemma_span_concat(a, list1, s.reg as int, s.reg as int, s5.reg as int);
            lemma_span_concat(a + list1, b, s.reg as int, s5.reg as int, s5.reg as int);
            lemma_span_concat(a + list1 + b, bc, s.reg as int, s5.reg as int, s7.reg as int);
            lemma_span_concat(a + list1 + b + bc, lb, s.reg as int, s7.reg as int, s8.reg as int);
            lemma_span_concat(a + list1 + b + bc + lb, c, s.reg as int, s8.reg as int, s8.reg as int);
            lemma_span_concat(a + list1 + b + bc + lb + c, l3, s.reg as int, s8.reg as int, s9.reg as int);
            lemma_span_concat(a + list1 + b + bc + lb + c + l3, d, s.reg as int, s9.reg as int, s9.reg as int);
        }
    }
}

/// The allocations of the parameters from position `i` on write the address registers
/// `i + 1 + n` up to `2n`, in order, and take no fresh register.
proof fn lemma_parameters_span(s: CacheState, params: Seq<WrapperModel>, i: int)
    requires
        0 <= i <= params.len(),
        2 * params.len() + 1 <= u32::MAX,
    ensures
        clin_parameters(s, params, i) matches Some((s2, _, nodes)) ==> s2.reg == s.reg && fresh_span(
            nodes,
            i + params.len(),
            2 * params.len() as int,
        ),
    decreases params.len() - i,
{
    if i < params.len() {
        if let AstModel::ParameterNode(tk, _) = params[i].node {
            if let Some(name) = ident_of(tk.tk) {
                let n = params.len();
                let s1 = cs_add_variable(cs_add_pointer(s, name, (i + 1 + n) as u32), name, (i + 1) as u32);
                lemma_parameters_span(s1, params, i + 1);
                if let Some((s2, ts, nodes)) = clin_parameters(s1, params, i + 1) {
                    let x = IrModel::Alloc(params[i].type_ref, (i + 1 + n) as u32, (i + 1) as u32, false, 1, false, name);
                    lemma_span_one(x, i + n, i + 1 + n);
                    lemma_span_concat(seq![x], nodes, i + n, i + 1 + n, 2 * n as int);
                }
            }
        }
    }
}

/// The body of a linearised function with a flat body writes each register once: the
/// parameters' addresses first, then fresh registers above them.
proof fn lemma_func_decl_single(s: CacheState, w: WrapperModel, ga: bool, brk: u32, cont: u32)
    requires
        w.node matches AstModel::FuncDeclNode(_, _, _, body) && flat(*body),
    ensures
        clin_func_decl(s, w, ga, brk, cont) matches Some((_, l, _)) ==> (l.len() == 1 && (l[0] matches IrModel::FunctionDeclaration(
            _,
            _,
            _,
            body,
        ) && single_assignment(body))),
{
    if let AstModel::FuncDeclNode(rt, name, params, body) = w.node {
        if let Some((s3, l, _)) = clin_func_decl(s, w, ga, brk, cont) {
            let n = params.len();
            lemma_parameters_span(s, params, 0);
            let (s1, ts, nodes) = clin_parameters(s, params, 0).unwrap();
            let s2 = CacheState { reg: (s1.reg + 2 * n) as u32, ..s1 };
            lemma_node_span(s2, *body, ga, brk, cont);
            let (s4, lb, _) = clin(s2, *body, ga, brk, cont).unwrap();
            lemma_span_widen(nodes, n as int, 2 * n as int, n as int, s2.reg as int);
            lemma_span_concat(nodes, lb, n as int, s2.reg as int, s4.reg as int);
            lemma_span_single(nodes + lb, n as int, s4.reg as int);
        }
    }
}

proof fn lemma_functions_single(s: CacheState, ws: Seq<WrapperModel>, ga: bool, brk: u32, cont: u32)
    requires
        flat_program(ws),
    ensures
        clin_functions(s, ws, ga, brk, cont) matches Some((_, p)) ==> functions_single_assignment(p),
    decreases ws.len(),
{
    if ws.len() > 0 {
        lemma_flat_program_tail(ws);
        assert(match ws[0].node {
            AstModel::FuncDeclNode(_, _, _, body) => flat(*body),
            _ => flat(ws[0]),
        });
        if ws[0].node is FuncDeclNode {
            assert(clin(s, ws[0], ga, brk, cont) == clin_func_decl(s, ws[0], ga, brk, cont));
            lemma_func_decl_single(s, ws[0], ga, brk, cont);
            if let Some((s1, l1, _)) = clin(s, ws[0], ga, brk, cont) {
                lemma_functions_single(cs_erase(s1), ws.drop_first(), ga, brk, cont);
                if let Some((s2, l2)) = clin_functions(cs_erase(s1), ws.drop_first(), ga, brk, cont) {
                    assert forall|k: int| 0 <= k < (l1 + l2).len() implies (#[trigger] (l1 + l2)[k] matches IrModel::FunctionDeclaration(
                        _,
                        _,
                        _,
                        body,
                    ) ==> single_assignment(body)) by {
                        if k >= l1.len() {
                            assert((l1 + l2)[k] == l2[k - l1.len()]);
                        } else {
                            assert((l1 + l2)[k] == l1[k]);
                        }
                    }
                }
            }
        } else {
            lemma_functions_single(s, ws.drop_first(), ga, brk, cont);
        }
    }
}

proof fn lemma_globals_span(s: CacheState, ws: Seq<WrapperModel>, ga: bool, brk: u32, cont: u32)
    requires
        flat_program(ws),
    ensures
        clin_globals(s, ws, ga, brk, cont) matches Some((s2, l)) ==> s.reg <= s2.reg && fresh_span(
            l,
            s.reg as int,
            s2.reg as int,
        ),
    decreases ws.len(),
{
    if ws.len() > 0 {
        lemma_flat_program_tail(ws);
        assert(match ws[0].node {
            AstModel::FuncDeclNode(_, _, _, body) => flat(*body),
            _ => flat(ws[0]),
        });
        if ws[0].node is FuncDeclNode {
            lemma_globals_span(s, ws.drop_first(), ga, brk, cont);
        } else {
            let g = CacheState { is_global: true, ..s };
            lemma_node_span(g, ws[0], ga, brk, cont);
            if let Some((s1, l1, _)) = clin(g, ws[0], ga, brk, cont) {
                let g1 = CacheState { is_global: true, ..s1 };
                lemma_globals_span(g1, ws.drop_first(), ga, brk, cont);
                if let Some((s2, l2)) = clin_globals(g1, ws.drop_first(), ga, brk, cont) {
                    lemma_span_concat(l1, l2, s.reg as int, s1.reg as int, s2.reg as int);
                }
            }
        }
    }
}

/// In a program linearised with list caches every function, `init` included, writes each
/// register at most once, as long as function bodies and global declarations hold no nested
/// declaration list or function.
pub proof fn lemma_list_linearized_single_assignment(s: CacheState, w: WrapperModel)
    requires
        w.node matches AstModel::DeclarationList(list) && flat_program(list),
    ensures
        clin(s, w, false, 0, 0) matches Some((_, p, _)) ==> functions_single_assignment(p),
{
    if let AstModel::DeclarationList(list) = w.node {
        assert(clin(s, w, false, 0, 0) == clin_declaration_list(s, w, false, 0, 0));
        if let Some((s3, p, _)) = clin(s, w, false, 0, 0) {
            lemma_functions_single(s, list, false, 0, 0);
            let (s1, funcs) = clin_functions(s, list, false, 0, 0).unwrap();
            lemma_globals_span(s1, list, false, 0, 0);
            let (s2, globals) = clin_globals(s1, list, false, 0, 0).unwrap();
            lemma_span_control(seq![init_tail()[1], init_tail()[2]], s2.reg as int, s2.reg as int);
            lemma_span_one(init_tail()[0], s2.reg as int, s2.reg as int);
            lemma_span_concat(seq![init_tail()[0]], seq![init_tail()[1], init_tail()[2]], s2.reg as int, s2.reg as int, s2.reg as int);
            assert(seq![init_tail()[0]] + seq![init_tail()[1], init_tail()[2]] =~= init_tail());
            lemma_span_concat(globals, init_tail(), s1.reg as int, s2.reg as int, s2.reg as int);
            lemma_span_single(globals + init_tail(), s1.reg as int, s2.reg as int);
            let init = IrModel::FunctionDeclaration(
                "init"@,
                crate::ast::type_wrapper::default_type(),
                Seq::empty(),
                globals + init_tail(),
            );
            assert(p == seq![init] + funcs);
            assert forall|k: int| 0 <= k < p.len() implies (#[trigger] p[k] matches IrModel::FunctionDeclaration(
                _,
                _,
                _,
                body,
            ) ==> single_assignment(body)) by {
                if k >= 1 {
                    assert(p[k] == funcs[k - 1]);
                }
            }
        }
    }
}

} // verus!
