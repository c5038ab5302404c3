//! The single-assignment form of the linearised code: within a function, no register is written
//! by two instructions.

use vstd::prelude::*;
use crate::ast::ast_impl::{AstModel, WrapperModel};
use crate::lexer::token::{Keyword, Operator, TkModel};
use crate::lirgen::irnode::{compare_of_token, IrModel};
use crate::optimizer::optimizer::{
    embeds, function_nodes, is_function, is_program, is_subsequence, lemma_optimized, optimized, program_functions,
};
use crate::lirgen::lirgen::{
    identifier_of, init_tail, lin, lin_arguments, lin_array_decl, lin_binary, lin_branch_condition,
    lin_cast, lin_compound, lin_declaration_list, lin_for, lin_func_decl, lin_functions, lin_globals,
    lin_if, lin_jump, lin_parameters, lin_prefix, lin_primary, lin_procedure, lin_selector,
    lin_statements, lin_var_decl, lin_while, selector_offset, selector_sum, st_erase, st_fresh_reg,
    st_get_pointer, st_get_variable, LirState, LinOut,
};

verus! {

/// Whether a node writes a register: the allocations, constants, casts, loads, operations, and
/// the calls that keep their result.
pub open spec fn writes_reg(n: IrModel) -> bool {
    match n {
        IrModel::Alloc(..) | IrModel::MovC(..) | IrModel::Cast(..) | IrModel::LoadA(..)
        | IrModel::LoadR(..) | IrModel::Unary(..) | IrModel::Binary(..) => true,
        IrModel::Call(_, _, _, r) => r != 0,
        _ => false,
    }
}

/// The register a node writes.
pub open spec fn reg_written(n: IrModel) -> int {
    match n {
        IrModel::Alloc(_, d, ..) => d as int,
        IrModel::MovC(_, d, _) => d as int,
        IrModel::Cast(_, _, d, _) => d as int,
        IrModel::LoadA(_, d, _) => d as int,
        IrModel::LoadR(_, d, _) => d as int,
        IrModel::Call(_, _, _, r) => r as int,
        IrModel::Unary(_, _, d, _) => d as int,
        IrModel::Binary(_, _, d, ..) => d as int,
        _ => 0,
    }
}

/// No register is written by two nodes of `body`.
pub open spec fn single_assignment(body: Seq<IrModel>) -> bool {
    forall|i: int, j: int|
        0 <= i < j < body.len() && #[trigger] writes_reg(body[i]) && #[trigger] writes_reg(body[j])
            ==> reg_written(body[i]) != reg_written(body[j])
}

/// The registers written by `l` are above `lo`, at most `hi`, and increase along `l`.
pub open spec fn fresh_span(l: Seq<IrModel>, lo: int, hi: int) -> bool {
    &&& forall|i: int| 0 <= i < l.len() && #[trigger] writes_reg(l[i]) ==> lo < reg_written(l[i]) <= hi
    &&& forall|i: int, j: int|
        0 <= i < j < l.len() && #[trigger] writes_reg(l[i]) && #[trigger] writes_reg(l[j]) ==> reg_written(l[i])
            < reg_written(l[j])
}

/// A syntax tree with no program or function declaration inside it: what a function body or a
/// global declaration is.
pub open spec fn flat(w: WrapperModel) -> bool
    decreases w, 1nat,
{
    match w.node {
        AstModel::DeclarationList(_) | AstModel::FuncDeclNode(..) => false,
        AstModel::ArrayDeclNode(_, _, e) => flat(*e),
        AstModel::BinaryNode(_, a, b) => flat(*a) && flat(*b),
        AstModel::CastNode(_, e) => flat(*e),
        AstModel::CompoundNode(list) => flat_list(list),
        AstModel::ExprStatementNode(e) => flat(*e),
        AstModel::ForNode(a, b, c, d) => flat(*a) && flat(*b) && flat(*c) && flat(*d),
        AstModel::IfNode(a, b, c) => flat(*a) && flat(*b) && flat(*c),
        AstModel::JumpNode(_, e) => flat(*e),
        AstModel::PrefixNode(_, e) => flat(*e),
        AstModel::ProcedureNode(p, args) => flat(*p) && flat_list(args),
        AstModel::SelectorNode(a, b) => flat(*a) && flat(*b),
        AstModel::VarDeclNode(_, _, e) => flat(*e),
        AstModel::WhileNode(a, b) => flat(*a) && flat(*b),
        _ => true,
    }
}

/// Every tree of a list is flat.
pub open spec fn flat_list(ws: Seq<WrapperModel>) -> bool
    decreases ws, 2nat,
{
    ws.len() == 0 || (flat(ws[0]) && flat_list(ws.drop_first()))
}

pub(crate) proof fn lemma_span_concat(a: Seq<IrModel>, b: Seq<IrModel>, lo: int, mid: int, hi: int)
    requires
        lo <= mid <= hi,
        fresh_span(a, lo, mid),
        fresh_span(b, mid, hi),
    ensures
        fresh_span(a + b, lo, hi),
{
    let c = a + b;
    assert forall|i: int| 0 <= i < c.len() && #[trigger] writes_reg(c[i]) implies lo < reg_written(c[i]) <= hi by {
        if i < a.len() {
            assert(c[i] == a[i]);
        } else {
            assert(c[i] == b[i - a.len()]);
        }
    }
    assert forall|i: int, j: int|
        0 <= i < j < c.len() && #[trigger] writes_reg(c[i]) && #[trigger] writes_reg(c[j]) implies reg_written(c[i])
        < reg_written(c[j]) by {
        if j < a.len() {
            assert(c[i] == a[i] && c[j] == a[j]);
        } else if i >= a.len() {
            assert(c[i] == b[i - a.len()] && c[j] == b[j - a.len()]);
        } else {
            assert(c[i] == a[i] && c[j] == b[j - a.len()]);
        }
    }
}

pub(crate) proof fn lemma_span_widen(a: Seq<IrModel>, lo: int, hi: int, lo2: int, hi2: int)
    requires
        fresh_span(a, lo, hi),
        lo2 <= lo,
        hi <= hi2,
    ensures
        fresh_span(a, lo2, hi2),
{
}

pub(crate) proof fn lemma_span_one(x: IrModel, lo: int, hi: int)
    requires
        writes_reg(x) ==> lo < reg_written(x) <= hi,
    ensures
        fresh_span(seq![x], lo, hi),
{
}

pub(crate) proof fn lemma_span_push(a: Seq<IrModel>, x: IrModel, lo: int, mid: int, hi: int)
    requires
        lo <= mid <= hi,
        fresh_span(a, lo, mid),
        writes_reg(x) ==> mid < reg_written(x) <= hi,
    ensures
        fresh_span(a.push(x), lo, hi),
{
    lemma_span_one(x, mid, hi);
    lemma_span_concat(a, seq![x], lo, mid, hi);
    assert(a + seq![x] =~= a.push(x));
}

/// The outcome of linearising a node keeps the registers it writes fresh: they come after the
/// counter it started from, up to the counter it ends with, in increasing order.
pub open spec fn span_out(s: LirState, out: LinOut) -> bool {
    out matches Some((s2, l, _)) ==> s.reg <= s2.reg && fresh_span(l, s.reg as int, s2.reg as int)
}

proof fn lemma_lin_span(s: LirState, w: WrapperModel, ga: bool, brk: u32, cont: u32)
    requires
        flat(w),
    ensures
        span_out(s, lin(s, w, ga, brk, cont)),
    decreases w, 1nat,
{
    match w.node {
        AstModel::VarDeclNode(..) => lemma_var_decl_span(s, w),
        AstModel::PrimaryNode(..) => lemma_primary_span(s, w, ga),
        AstModel::JumpNode(..) => lemma_jump_span(s, w, ga, brk, cont),
        AstModel::CompoundNode(..) => lemma_compound_span(s, w, ga, brk, cont),
        AstModel::BinaryNode(..) => lemma_binary_span(s, w, ga),
        AstModel::CastNode(..) => lemma_cast_span(s, w, ga),
        AstModel::ExprStatementNode(e) => lemma_lin_span(s, *e, ga, 0, 0),
        AstModel::ArrayDeclNode(..) => lemma_array_decl_span(s, w, ga),
        AstModel::ProcedureNode(..) => lemma_procedure_span(s, w),
        AstModel::PrefixNode(..) => lemma_prefix_span(s, w, ga),
        AstModel::SelectorNode(..) => lemma_selector_span(s, w, ga),
        AstModel::IfNode(..) => lemma_if_span(s, w, ga, brk, cont),
        AstModel::WhileNode(..) => lemma_while_span(s, w, ga),
        AstModel::ForNode(..) => lemma_for_span(s, w, ga),
        _ => {},
    }
}

proof fn lemma_var_decl_span(s: LirState, w: WrapperModel)
    requires
        flat(w),
        w.node is VarDeclNode,
    ensures
        span_out(s, lin_var_decl(s, w)),
    decreases w, 0nat,
{
    if let AstModel::VarDeclNode(tt, name, expression) = w.node {
        if !(expression.node is NullNode) {
            lemma_lin_span(s, *expression, false, 0, 0);
        }
        if let Some((s4, l, _)) = lin_var_decl(s, w) {
            let id = identifier_of(name.tk);
            if !(expression.node is NullNode) {
                let (s1, l1, r1) = lin(s, *expression, false, 0, 0).unwrap();
                let (s3, r) = st_fresh_reg(s1).unwrap();
                lemma_span_push(l1, l.last(), s.reg as int, s1.reg as int, s3.reg as int);
                assert(l =~= l1.push(l.last()));
            } else {
                let (s3, r) = st_fresh_reg(s).unwrap();
                lemma_span_push(Seq::empty(), l.last(), s.reg as int, s.reg as int, s3.reg as int);
                assert(l =~= Seq::<IrModel>::empty().push(l.last()));
            }
        }
    }
}

proof fn lemma_primary_span(s: LirState, w: WrapperModel, ga: bool)
    requires
        w.node is PrimaryNode,
    ensures
        span_out(s, lin_primary(s, w, ga)),
    decreases w, 0nat,
{
    if let Some((s4, l, _)) = lin_primary(s, w, ga) {
        if let AstModel::PrimaryNode(token) = w.node {
            match token.tk {
                TkModel::Identifier(id) => {
                    let address: LinOut = match st_get_pointer(s, id) {
                        Some(p) => Some((s, Seq::empty(), p)),
                        None => match st_fresh_reg(s) {
                            Some((s1, r)) => match crate::lirgen::lirgen::pointer_to(w.type_ref) {
                                Some(tt) => Some((s1, seq![IrModel::LoadA(tt, r, id)], r)),
                                None => None,
                            },
                            None => None,
                        },
                    };
                    let (s2, l2, a) = address.unwrap();
                    assert(s.reg <= s2.reg && fresh_span(l2, s.reg as int, s2.reg as int));
                    if !ga && st_get_variable(s2, id) is None {
                        let (s3, r) = st_fresh_reg(s2).unwrap();
                        lemma_span_push(l2, l.last(), s.reg as int, s2.reg as int, s3.reg as int);
                        assert(l =~= l2.push(l.last()));
                    }
                },
                _ => {},
            }
        }
    }
}

proof fn lemma_jump_span(s: LirState, w: WrapperModel, ga: bool, brk: u32, cont: u32)
    requires
        flat(w),
        w.node is JumpNode,
    ensures
        span_out(s, lin_jump(s, w, ga, brk, cont)),
    decreases w, 0nat,
{
    if let AstModel::JumpNode(token, expr) = w.node {
        lemma_lin_span(s, *expr, ga, 0, 0);
        if let Some((s2, l, _)) = lin_jump(s, w, ga, brk, cont) {
            if token.tk == TkModel::Keyword(Keyword::Return) && !(expr.node is NullNode) {
                let (s1, l1, r1) = lin(s, *expr, ga, 0, 0).unwrap();
                lemma_span_push(l1, l.last(), s.reg as int, s1.reg as int, s1.reg as int);
                assert(l =~= l1.push(l.last()));
            }
        }
    }
}

proof fn lemma_statements_span(s: LirState, ws: Seq<WrapperModel>, ga: bool, brk: u32, cont: u32)
    requires
        flat_list(ws),
    ensures
        lin_statements(s, ws, ga, brk, cont) matches Some((s2, l)) ==> s.reg <= s2.reg && fresh_span(
            l,
            s.reg as int,
            s2.reg as int,
        ),
    decreases ws, 2nat,
{
    if ws.len() > 0 {
        lemma_lin_span(s, ws[0], ga, brk, cont);
        if let Some((s1, l1, _)) = lin(s, ws[0], ga, brk, cont) {
            lemma_statements_span(s1, ws.drop_first(), ga, brk, cont);
            if let Some((s2, l2)) = lin_statements(s1, ws.drop_first(), ga, brk, cont) {
                lemma_span_concat(l1, l2, s.reg as int, s1.reg as int, s2.reg as int);
            }
        }
    }
}

proof fn lemma_compound_span(s: LirState, w: WrapperModel, ga: bool, brk: u32, cont: u32)
    requires
        flat(w),
        w.node is CompoundNode,
    ensures
        span_out(s, lin_compound(s, w, ga, brk, cont)),
    decreases w, 0nat,
{
    if let AstModel::CompoundNode(list) = w.node {
        lemma_statements_span(s, list, ga, brk, cont);
    }
}

proof fn lemma_binary_span(s: LirState, w: WrapperModel, ga: bool)
    requires
        flat(w),
        w.node is BinaryNode,
    ensures
        span_out(s, lin_binary(s, w, ga)),
    decreases w, 0nat,
{
    if let AstModel::BinaryNode(token, e1, e2) = w.node {
        let assign = token.tk == TkModel::Operator(Operator::Assign);
        lemma_lin_span(s, *e1, if assign {
            true
        } else {
            ga
        }, 0, 0);
        if let Some((s1, l1, r1)) = lin(s, *e1, if assign {
            true
        } else {
            ga
        }, 0, 0) {
            lemma_lin_span(s1, *e2, ga, 0, 0);
            if let Some((s2, l2, r2)) = lin(s1, *e2, ga, 0, 0) {
                lemma_span_concat(l1, l2, s.reg as int, s1.reg as int, s2.reg as int);
                if let Some((s4, l, _)) = lin_binary(s, w, ga) {
                    if assign {
                        lemma_span_push(l1 + l2, IrModel::Store(w.type_ref, r1, r2), s.reg as int, s2.reg as int, s2.reg as int);
                        assert(l =~= (l1 + l2).push(IrModel::Store(w.type_ref, r1, r2)));
                    } else if l.len() > 0 {
                        let (s3, r) = st_fresh_reg(s2).unwrap();
                        lemma_span_push(l1 + l2, l.last(), s.reg as int, s2.reg as int, s3.reg as int);
                        assert(l =~= (l1 + l2).push(l.last()));
                    }
                }
            }
        }
    }
}

proof fn lemma_cast_span(s: LirState, w: WrapperModel, ga: bool)
    requires
        flat(w),
        w.node is CastNode,
    ensures
        span_out(s, lin_cast(s, w, ga)),
    decreases w, 0nat,
{
    if let AstModel::CastNode(dest_type, exp) = w.node {
        lemma_lin_span(s, *exp, ga, 0, 0);
        if let Some((s3, l, _)) = lin_cast(s, w, ga) {
            let (s1, l1, r1) = lin(s, *exp, ga, 0, 0).unwrap();
            if dest_type.type_ref.pointer == 0 {
                let (s2, r) = st_fresh_reg(s1).unwrap();
                lemma_span_push(l1, l.last(), s.reg as int, s1.reg as int, s2.reg as int);
                assert(l =~= l1.push(l.last()));
            }
        }
    }
}

proof fn lemma_array_decl_span(s: LirState, w: WrapperModel, ga: bool)
    requires
        flat(w),
        w.node is ArrayDeclNode,
    ensures
        span_out(s, lin_array_decl(s, w, ga)),
    decreases w, 0nat,
{
    if let AstModel::ArrayDeclNode(tt, name, expression) = w.node {
        lemma_lin_span(s, *expression, ga, 0, 0);
        if let Some((s4, l, _)) = lin_array_decl(s, w, ga) {
            let (s1, l1, init) = lin(s, *expression, ga, 0, 0).unwrap();
            let (s2, rv) = st_fresh_reg(s1).unwrap();
            let (s3, r) = st_fresh_reg(s2).unwrap();
            let a = l[l.len() - 2];
            lemma_span_push(l1, a, s.reg as int, s1.reg as int, s2.reg as int);
            lemma_span_push(l1.push(a), l.last(), s.reg as int, s2.reg as int, s3.reg as int);
            assert(l =~= l1.push(a).push(l.last()));
        }
    }
}

proof fn lemma_arguments_span(s: LirState, ws: Seq<WrapperModel>)
    requires
        flat_list(ws),
    ensures
        lin_arguments(s, ws) matches Some((s2, l, _)) ==> s.reg <= s2.reg && fresh_span(
            l,
            s.reg as int,
            s2.reg as int,
        ),
    decreases ws, 2nat,
{
    if ws.len() > 0 {
        lemma_lin_span(s, ws[0], false, 0, 0);
        if let Some((s1, l1, r1)) = lin(s, ws[0], false, 0, 0) {
            lemma_arguments_span(s1, ws.drop_first());
            if let Some((s2, l2, rs)) = lin_arguments(s1, ws.drop_first()) {
                lemma_span_concat(l1, l2, s.reg as int, s1.reg as int, s2.reg as int);
            }
        }
    }
}

proof fn lemma_procedure_span(s: LirState, w: WrapperModel)
    requires
        flat(w),
        w.node is ProcedureNode,
    ensures
        span_out(s, lin_procedure(s, w)),
    decreases w, 0nat,
{
    if let AstModel::ProcedureNode(primary, params) = w.node {
        lemma_arguments_span(s, params);
        if let Some((s3, l, _)) = lin_procedure(s, w) {
            let (s1, l1, regs) = lin_arguments(s, params).unwrap();
            let x = l.last();
            assert(l =~= l1.push(x));
            if x->Call_3 != 0 {
                let (s2, r) = st_fresh_reg(s1).unwrap();
                lemma_span_push(l1, x, s.reg as int, s1.reg as int, s2.reg as int);
            } else {
                lemma_span_push(l1, x, s.reg as int, s1.reg as int, s3.reg as int);
            }
        }
    }
}

proof fn lemma_selector_span(s: LirState, w: WrapperModel, ga: bool)
    requires
        flat(w),
        w.node is SelectorNode,
    ensures
        span_out(s, lin_selector(s, w, ga)),
    decreases w, 0nat,
{
    if let AstModel::SelectorNode(left, right) = w.node {
        lemma_lin_span(s, *left, false, 0, 0);
        if let Some((s1, l1, rl)) = lin(s, *left, false, 0, 0) {
            lemma_lin_span(s1, *right, false, 0, 0);
            if let Some((s2, l2, rr)) = lin(s1, *right, false, 0, 0) {
                lemma_span_concat(l1, l2, s.reg as int, s1.reg as int, s2.reg as int);
                if let Some((s6, l, _)) = lin_selector(s, w, ga) {
                    let tt = crate::lirgen::lirgen::pointer_to(w.type_ref).unwrap();
                    let size = crate::ast::type_wrapper::type_size(w.type_ref);
                    let list = l1 + l2;
                    lemma_offset_span(s2, list, tt, rr, size, s.reg as int);
                    let (s3, list3, offset) = selector_offset(s2, list, tt, rr, size).unwrap();
                    lemma_sum_span(s3, list3, tt, rl, offset, s.reg as int);
                    let (s4, list4, sum) = selector_sum(s3, list3, tt, rl, offset).unwrap();
                    if !ga {
                        let (s5, r) = st_fresh_reg(s4).unwrap();
                        lemma_span_push(list4, l.last(), s.reg as int, s4.reg as int, s5.reg as int);
                        assert(l =~= list4.push(l.last()));
                    }
                }
            }
        }
    }
}

proof fn lemma_offset_span(s: LirState, list: Seq<IrModel>, tt: crate::ast::type_wrapper::TypeWrapper, index: u32, size: u32, lo: int)
    requires
        lo <= s.reg,
        fresh_span(list, lo, s.reg as int),
    ensures
        selector_offset(s, list, tt, index, size) matches Some((s2, l, _)) ==> s.reg <= s2.reg && fresh_span(
            l,
            lo,
            s2.reg as int,
        ),
{
    if let Some((s4, l, _)) = selector_offset(s, list, tt, index, size) {
        if size != 1 {
            let c = size / 2;
            let with_constant: Option<(LirState, Seq<IrModel>, u32)> = match crate::lirgen::lirgen::st_get_constant(
                s,
                c,
            ) {
                Some(k) => Some((s, list, k)),
                None => match st_fresh_reg(s) {
                    Some((s1, r)) => Some(
                        (
                            crate::lirgen::lirgen::st_add_constant(s1, r, c),
                            list.push(IrModel::MovC(tt, r, c)),
                            r,
                        ),
                    ),
                    None => None,
                },
            };
            let (s2, list2, cr) = with_constant.unwrap();
            if crate::lirgen::lirgen::st_get_constant(s, c) is None {
                let (s1, r) = st_fresh_reg(s).unwrap();
                lemma_span_push(list, IrModel::MovC(tt, r, c), lo, s.reg as int, s1.reg as int);
            }
            assert(fresh_span(list2, lo, s2.reg as int));
            if crate::lirgen::lirgen::st_get_binary(s2, index, cr, Operator::LShift) is None {
                let (s3, o) = st_fresh_reg(s2).unwrap();
                lemma_span_push(list2, l.last(), lo, s2.reg as int, s3.reg as int);
                assert(l =~= list2.push(l.last()));
            }
        }
    }
}

proof fn lemma_sum_span(s: LirState, list: Seq<IrModel>, tt: crate::ast::type_wrapper::TypeWrapper, base: u32, offset: u32, lo: int)
    requires
        lo <= s.reg,
        fresh_span(list, lo, s.reg as int),
    ensures
        selector_sum(s, list, tt, base, offset) matches Some((s2, l, _)) ==> s.reg <= s2.reg && fresh_span(
            l,
            lo,
            s2.reg as int,
        ),
{
    if let Some((s2, l, _)) = selector_sum(s, list, tt, base, offset) {
        if crate::lirgen::lirgen::st_get_binary(s, base, offset, Operator::Plus) is None {
            let (s1, r) = st_fresh_reg(s).unwrap();
            lemma_span_push(list, l.last(), lo, s.reg as int, s1.reg as int);
            assert(l =~= list.push(l.last()));
        }
    }
}

proof fn lemma_prefix_span(s: LirState, w: WrapperModel, ga: bool)
    requires
        flat(w),
        w.node is PrefixNode,
    ensures
        span_out(s, lin_prefix(s, w, ga)),
    decreases w, 0nat,
{
    if let AstModel::PrefixNode(token, expr) = w.node {
        lemma_lin_span(s, *expr, false, 0, 0);
        lemma_lin_span(s, *expr, true, 0, 0);
        if let Some((s9, l, _)) = lin_prefix(s, w, ga) {
            if let TkModel::Operator(op) = token.tk {
                if op == Operator::Not || op == Operator::Minus || op == Operator::Complement {
                    let (s1, l1, r1) = lin(s, *expr, false, 0, 0).unwrap();
                    let (s2, r) = st_fresh_reg(s1).unwrap();
                    lemma_span_push(l1, l.last(), s.reg as int, s1.reg as int, s2.reg as int);
                    assert(l =~= l1.push(l.last()));
                } else if op == Operator::Asterisk {
                    let cached = match expr.node {
                        AstModel::PrimaryNode(tk) => st_get_variable(s, identifier_of(tk.tk)),
                        _ => None,
                    };
                    let address: LinOut = match cached {
                        Some(k) => Some((s, Seq::empty(), k)),
                        None => match lin(s, *expr, true, 0, 0) {
                            Some((s1, l1, r1)) => match st_fresh_reg(s1) {
                                Some((s2, r)) => match crate::lirgen::lirgen::pointer_to(w.type_ref) {
                                    Some(tt) => Some((s2, l1.push(IrModel::LoadR(tt, r, r1)), r)),
                                    None => None,
                                },
                                None => None,
                            },
                            None => None,
                        },
                    };
                    let (s3, l3, a) = address.unwrap();
                    if cached is None {
                        let (s1, l1, r1) = lin(s, *expr, true, 0, 0).unwrap();
                        let (s2, r) = st_fresh_reg(s1).unwrap();
                        lemma_span_push(l1, l3.last(), s.reg as int, s1.reg as int, s2.reg as int);
                        assert(l3 =~= l1.push(l3.last()));
                    }
                    assert(s.reg <= s3.reg && fresh_span(l3, s.reg as int, s3.reg as int));
                    if !ga {
                        let (s4, r) = st_fresh_reg(s3).unwrap();
                        lemma_span_push(l3, l.last(), s.reg as int, s3.reg as int, s4.reg as int);
                        assert(l =~= l3.push(l.last()));
                    }
                }
            }
        }
    }
}

proof fn lemma_branch_condition_span(s: LirState, expr: WrapperModel, label: u32)
    requires
        flat(expr),
    ensures
        lin_branch_condition(s, expr, label) matches Some((s2, l)) ==> s.reg <= s2.reg && fresh_span(
            l,
            s.reg as int,
            s2.reg as int,
        ),
    decreases expr, 2nat,
{
    let compare = match expr.node {
        AstModel::BinaryNode(tk, _, _) => compare_of_token(tk.tk),
        _ => None,
    };
    if let Some((s3, l)) = lin_branch_condition(s, expr, label) {
        if compare is Some && s.opt > 0 {
            if let AstModel::BinaryNode(_, e1, e2) = expr.node {
                lemma_lin_span(s, *e1, false, 0, 0);
                let (s1, l1, r1) = lin(s, *e1, false, 0, 0).unwrap();
                lemma_lin_span(s1, *e2, false, 0, 0);
                let (s2, l2, r2) = lin(s1, *e2, false, 0, 0).unwrap();
                lemma_span_concat(l1, l2, s.reg as int, s1.reg as int, s2.reg as int);
                let x = l.last();
                lemma_span_push(l1 + l2, x, s.reg as int, s2.reg as int, s2.reg as int);
                assert(l =~= (l1 + l2).push(x));
            }
        } else {
            lemma_lin_span(s, expr, false, 0, 0);
            let (s1, l1, r1) = lin(s, expr, false, 0, 0).unwrap();
            let x = l.last();
            lemma_span_push(l1, x, s.reg as int, s1.reg as int, s1.reg as int);
            assert(l =~= l1.push(x));
        }
    }
}

/// Labels and jumps write no register.
pub(crate) proof fn lemma_span_control(l: Seq<IrModel>, lo: int, hi: int)
    requires
        forall|i: int| 0 <= i < l.len() ==> (#[trigger] l[i] is Label || l[i] is Branch),
    ensures
        fresh_span(l, lo, hi),
{
}

proof fn lemma_if_span(s: LirState, w: WrapperModel, ga: bool, brk: u32, cont: u32)
    requires
        flat(w),
        w.node is IfNode,
    ensures
        span_out(s, lin_if(s, w, ga, brk, cont)),
    decreases w, 0nat,
{
    if let AstModel::IfNode(expr, body, else_body) = w.node {
        if let Some((s9, l, _)) = lin_if(s, w, ga, brk, cont) {
            let has_else = !(else_body.node is NullNode);
            let s1 = crate::lirgen::lirgen::st_fresh_label(s).unwrap().0;
            let l_end = crate::lirgen::lirgen::st_fresh_label(s).unwrap().1;
            let labels: Option<(LirState, u32)> = if has_else {
                crate::lirgen::lirgen::st_fresh_label(s1)
            } else {
                Some((s1, l_end))
            };
            let (s2, l_else) = labels.unwrap();
            lemma_branch_condition_span(s2, *expr, l_else);
            let (s3, bc) = lin_branch_condition(s2, *expr, l_else).unwrap();
            let (s4, saved) = crate::lirgen::lirgen::st_start_invalidate(s3);
            lemma_lin_span(s4, *body, ga, brk, cont);
            let (s5, lb, _) = lin(s4, *body, ga, brk, cont).unwrap();
            let s6 = crate::lirgen::lirgen::st_end_invalidate(s5, saved);
            lemma_span_concat(bc, lb, s.reg as int, s3.reg as int, s5.reg as int);
            if has_else {
                let (s7, saved2) = crate::lirgen::lirgen::st_start_invalidate(s6);
                lemma_lin_span(s7, *else_body, ga, brk, cont);
                let (s8, le, _) = lin(s7, *else_body, ga, brk, cont).unwrap();
                let mid = seq![
                    IrModel::Branch(crate::lirgen::irnode::CompareType::Always, expr.type_ref, 0, 0, l_end),
                    IrModel::Label(l_else),
                ];
                let tail = seq![IrModel::Label(l_end)];
                lemma_span_control(mid, s5.reg as int, s5.reg as int);
                lemma_span_control(tail, s8.reg as int, s8.reg as int);
                lemma_span_concat(bc + lb, mid, s.reg as int, s5.reg as int, s5.reg as int);
                lemma_span_concat(bc + lb + mid, le, s.reg as int, s7.reg as int, s8.reg as int);
                lemma_span_concat(bc + lb + mid + le, tail, s.reg as int, s8.reg as int, s8.reg as int);
            } else {
                let tail = seq![IrModel::Label(l_end)];
                lemma_span_control(tail, s5.reg as int, s5.reg as int);
                lemma_span_concat(bc + lb, tail, s.reg as int, s5.reg as int, s5.reg as int);
            }
        }
    }
}

proof fn lemma_while_span(s: LirState, w: WrapperModel, ga: bool)
    requires
        flat(w),
        w.node is WhileNode,
    ensures
        span_out(s, lin_while(s, w, ga)),
    decreases w, 0nat,
{
    if let AstModel::WhileNode(expr, body) = w.node {
        if let Some((s7, l, _)) = lin_while(s, w, ga) {
            let (s1, l_while) = crate::lirgen::lirgen::st_fresh_label(s).unwrap();
            let (s2, l_end) = crate::lirgen::lirgen::st_fresh_label(s1).unwrap();
            let (s3, saved) = crate::lirgen::lirgen::st_start_invalidate(s2);
            let s4 = crate::lirgen::lirgen::st_clear_values(s3);
            lemma_branch_condition_span(s4, *expr, l_end);
            let (s5, bc) = lin_branch_condition(s4, *expr, l_end).unwrap();
            lemma_lin_span(s5, *body, ga, l_end, l_while);
            let (s6, lb, _) = lin(s5, *body, ga, l_end, l_while).unwrap();
            let head = seq![IrModel::Label(l_while)];
            let tail = seq![
                IrModel::Branch(crate::lirgen::irnode::CompareType::Always, w.type_ref, 0, 0, l_while),
                IrModel::Label(l_end),
            ];
            lemma_span_control(head, s.reg as int, s.reg as int);
            lemma_span_control(tail, s6.reg as int, s6.reg as int);
            lemma_span_concat(head, bc, s.reg as int, s.reg as int, s5.reg as int);
            lemma_span_concat(head + bc, lb, s.reg as int, s5.reg as int, s6.reg as int);
            lemma_span_concat(head + bc + lb, tail, s.reg as int, s6.reg as int, s6.reg as int);
        }
    }
}

proof fn lemma_for_span(s: LirState, w: WrapperModel, ga: bool)
    requires
        flat(w),
        w.node is ForNode,
    ensures
        span_out(s, lin_for(s, w, ga)),
    decreases w, 0nat,
{
    if let AstModel::ForNode(e1, e2, e3, body) = w.node {
        if let Some((s11, l, _)) = lin_for(s, w, ga) {
            let (s1, l_for) = crate::lirgen::lirgen::st_fresh_label(s).unwrap();
            let (s2, l_start) = crate::lirgen::lirgen::st_fresh_label(s1).unwrap();
            let (s3, l_next) = crate::lirgen::lirgen::st_fresh_label(s2).unwrap();
            let (s4, l_end) = crate::lirgen::lirgen::st_fresh_label(s3).unwrap();
            lemma_lin_span(s4, *e1, ga, 0, 0);
            let (s5, list1, _) = lin(s4, *e1, ga, 0, 0).unwrap();
            let (s6, saved) = crate::lirgen::lirgen::st_start_invalidate(s5);
            let s7 = crate::lirgen::lirgen::st_clear_values(s6);
            lemma_branch_condition_span(s7, *e2, l_end);
            let (s8, bc) = lin_branch_condition(s7, *e2, l_end).unwrap();
            lemma_lin_span(s8, *body, ga, l_end, l_next);
            let (s9, lb, _) = lin(s8, *body, ga, l_end, l_next).unwrap();
            lemma_lin_span(s9, *e3, ga, 0, 0);
            let (s10, l3, _) = lin(s9, *e3, ga, 0, 0).unwrap();
            let a = seq![IrModel::Label(l_for)];
            let b = seq![IrModel::Label(l_start)];
            let c = seq![IrModel::Label(l_next)];
            let d = seq![
                IrModel::Branch(crate::lirgen::irnode::CompareType::Always, w.type_ref, 0, 0, l_start),
                IrModel::Label(l_end),
            ];
            lemma_span_control(a, s.reg as int, s.reg as int);
            lemma_span_control(b, s5.reg as int, s5.reg as int);
            lemma_span_control(c, s9.reg as int, s9.reg as int);
            lemma_span_control(d, s10.reg as int, s10.reg as int);
            lemma_span_concat(a, list1, s.reg as int, s.reg as int, s5.reg as int);
            lemma_span_concat(a + list1, b, s.reg as int, s5.reg as int, s5.reg as int);
            lemma_span_concat(a + list1 + b, bc, s.reg as int, s5.reg as int, s8.reg as int);
            lemma_span_concat(a + list1 + b + bc, lb, s.reg as int, s8.reg as int, s9.reg as int);
            lemma_span_concat(a + list1 + b + bc + lb, c, s.reg as int, s9.reg as int, s9.reg as int);
            lemma_span_concat(a + list1 + b + bc + lb + c, l3, s.reg as int, s9.reg as int, s10.reg as int);
            lemma_span_concat(a + list1 + b + bc + lb + c + l3, d, s.reg as int, s10.reg as int, s10.reg as int);
        }
    }
}

/// Registers written in increasing order are written once each.
pub(crate) proof fn lemma_span_single(l: Seq<IrModel>, lo: int, hi: int)
    requires
        fresh_span(l, lo, hi),
    ensures
        single_assignment(l),
{
}

/// The allocations of the parameters from position `i` on write the address registers
/// `i + 1 + n` up to `2n`, in order, and take no fresh register.
proof fn lemma_parameters_span(s: LirState, params: Seq<WrapperModel>, i: int)
    requires
        0 <= i <= params.len(),
        2 * params.len() + 1 <= u32::MAX,
    ensures
        lin_parameters(s, params, i) matches Some((s2, _, nodes)) ==> s2.reg == s.reg && fresh_span(
            nodes,
            i + params.len(),
            2 * params.len() as int,
        ),
    decreases params.len() - i,
{
    if i < params.len() {
        if let AstModel::ParameterNode(tk, _) = params[i].node {
            let n = params.len();
            let name = identifier_of(tk.tk);
            let s1 = crate::lirgen::lirgen::st_add_variable(
                crate::lirgen::lirgen::st_add_pointer(s, name, (i + 1 + n) as u32),
                name,
                (i + 1) as u32,
            );
            lemma_parameters_span(s1, params, i + 1);
            if let Some((s2, ts, nodes)) = lin_parameters(s1, params, i + 1) {
                let x = IrModel::Alloc(params[i].type_ref, (i + 1 + n) as u32, (i + 1) as u32, false, 1, false, name);
                lemma_span_one(x, i + n, i + 1 + n);
                lemma_span_concat(seq![x], nodes, i + n, i + 1 + n, 2 * n as int);
            }
        }
    }
}

/// The body of a linearised function with a flat body writes each register once: the
/// parameters' addresses first, then fresh registers above them.
proof fn lemma_func_decl_single(s: LirState, w: WrapperModel)
    requires
        w.node matches AstModel::FuncDeclNode(_, _, _, body) && flat(*body),
    ensures
        lin_func_decl(s, w) matches Some((_, l, _)) ==> (l.len() == 1 && (l[0] matches IrModel::FunctionDeclaration(
            _,
            _,
            _,
            body,
        ) && single_assignment(body))),
{
    if let AstModel::FuncDeclNode(rt, name, params, body) = w.node {
        if let Some((s3, l, _)) = lin_func_decl(s, w) {
            let n = params.len();
            lemma_parameters_span(s, params, 0);
            let (s1, ts, nodes) = lin_parameters(s, params, 0).unwrap();
            let s2 = LirState { reg: (s1.reg + 2 * n) as u32, ..s1 };
            lemma_lin_span(s2, *body, false, 0, 0);
            let (s4, lb, _) = lin(s2, *body, false, 0, 0).unwrap();
            lemma_span_widen(nodes, n as int, 2 * n as int, n as int, s2.reg as int);
            lemma_span_concat(nodes, lb, n as int, s2.reg as int, s4.reg as int);
            lemma_span_single(nodes + lb, n as int, s4.reg as int);
        }
    }
}

/// A list of declarations as the parser gives them: the body of every function and every global
/// declaration is flat.
pub open spec fn flat_program(list: Seq<WrapperModel>) -> bool {
    forall|k: int|
        0 <= k < list.len() ==> match #[trigger] list[k].node {
            AstModel::FuncDeclNode(_, _, _, body) => flat(*body),
            _ => flat(list[k]),
        }
}

/// Every function of a program writes each register once.
pub open spec fn functions_single_assignment(p: Seq<IrModel>) -> bool {
    forall|k: int|
        0 <= k < p.len() ==> (#[trigger] p[k] matches IrModel::FunctionDeclaration(_, _, _, body)
            ==> single_assignment(body))
}

pub(crate) proof fn lemma_flat_program_tail(list: Seq<WrapperModel>)
    requires
        list.len() > 0,
        flat_program(list),
    ensures
        flat_program(list.drop_first()),
{
    assert forall|k: int| 0 <= k < list.drop_first().len() implies match #[trigger] list.drop_first()[k].node {
        AstModel::FuncDeclNode(_, _, _, body) => flat(*body),
        _ => flat(list.drop_first()[k]),
    } by {
        assert(list.drop_first()[k] == list[k + 1]);
    }
}

proof fn lemma_functions_single(s: LirState, ws: Seq<WrapperModel>)
    requires
        flat_program(ws),
    ensures
        lin_functions(s, ws) matches Some((_, p)) ==> functions_single_assignment(p),
    decreases ws.len(),
{
    if ws.len() > 0 {
        lemma_flat_program_tail(ws);
        assert(match ws[0].node {
            AstModel::FuncDeclNode(_, _, _, body) => flat(*body),
            _ => flat(ws[0]),
        });
        if ws[0].node is FuncDeclNode {
            assert(lin(s, ws[0], false, 0, 0) == lin_func_decl(s, ws[0]));
            lemma_func_decl_single(s, ws[0]);
            if let Some((s1, l1, _)) = lin(s, ws[0], false, 0, 0) {
                lemma_functions_single(st_erase(s1), ws.drop_first());
                if let Some((s2, l2)) = lin_functions(st_erase(s1), ws.drop_first()) {
                    assert forall|k: int| 0 <= k < (l1 + l2).len() implies (#[trigger] (l1 + l2)[k] matches IrModel::FunctionDeclaration(
                        _,
                        _,
                        _,
                        body,
                    ) ==> single_assignment(body)) by {
                        if k >= l1.len() {
                            assert((l1 + l2)[k] == l2[k - l1.len()]);
                        } else {
                            assert((l1 + l2)[k] == l1[k]);
                        }
                    }
                }
            }
        } else {
            lemma_functions_single(s, ws.drop_first());
        }
    }
}

proof fn lemma_globals_span(s: LirState, ws: Seq<WrapperModel>)
    requires
        flat_program(ws),
    ensures
        lin_globals(s, ws) matches Some((s2, l)) ==> s.reg <= s2.reg && fresh_span(l, s.reg as int, s2.reg as int),
    decreases ws.len(),
{
    if ws.len() > 0 {
        lemma_flat_program_tail(ws);
        assert(match ws[0].node {
            AstModel::FuncDeclNode(_, _, _, body) => flat(*body),
            _ => flat(ws[0]),
        });
        if ws[0].node is FuncDeclNode {
            lemma_globals_span(s, ws.drop_first());
        } else {
            lemma_lin_span(s, ws[0], false, 0, 0);
            if let Some((s1, l1, _)) = lin(s, ws[0], false, 0, 0) {
                lemma_globals_span(s1, ws.drop_first());
                if let Some((s2, l2)) = lin_globals(s1, ws.drop_first()) {
                    lemma_span_concat(l1, l2, s.reg as int, s1.reg as int, s2.reg as int);
                }
            }
        }
    }
}

/// In a linearised program every function, `init` included, writes each register at most once:
/// the code is in single-assignment form, as long as function bodies and global declarations
/// hold no nested declaration list or function.
pub proof fn lemma_linearized_single_assignment(s: LirState, w: WrapperModel)
    requires
        w.node matches AstModel::DeclarationList(list) && flat_program(list),
    ensures
        lin(s, w, false, 0, 0) matches Some((_, p, _)) ==> functions_single_assignment(p),
{
    if let AstModel::DeclarationList(list) = w.node {
        assert(lin(s, w, false, 0, 0) == lin_declaration_list(s, w));
        if let Some((s3, p, _)) = lin(s, w, false, 0, 0) {
            lemma_functions_single(s, list);
            let (s1, funcs) = lin_functions(s, list).unwrap();
            let g0 = LirState { is_global: true, ..s1 };
            lemma_globals_span(g0, list);
            let (s2, globals) = lin_globals(g0, list).unwrap();
            lemma_span_control(seq![init_tail()[1], init_tail()[2]], s2.reg as int, s2.reg as int);
            lemma_span_one(init_tail()[0], s2.reg as int, s2.reg as int);
            lemma_span_concat(seq![init_tail()[0]], seq![init_tail()[1], init_tail()[2]], s2.reg as int, s2.reg as int, s2.reg as int);
            assert(seq![init_tail()[0]] + seq![init_tail()[1], init_tail()[2]] =~= init_tail());
            lemma_span_concat(globals, init_tail(), g0.reg as int, s2.reg as int, s2.reg as int);
            lemma_span_single(globals + init_tail(), g0.reg as int, s2.reg as int);
            let init = IrModel::FunctionDeclaration(
                "init"@,
                crate::ast::type_wrapper::default_type(),
                Seq::empty(),
                globals + init_tail(),
            );
            assert(p == seq![init] + funcs);
            assert forall|k: int| 0 <= k < p.len() implies (#[trigger] p[k] matches IrModel::FunctionDeclaration(
                _,
                _,
                _,
                body,
            ) ==> single_assignment(body)) by {
                if k >= 1 {
                    assert(p[k] == funcs[k - 1]);
                }
            }
        }
    }
}

/// Leaving nodes out keeps a body in single-assignment form.
proof fn lemma_subsequence_single(a: Seq<IrModel>, b: Seq<IrModel>)
    requires
        is_subsequence(a, b),
        single_assignment(b),
    ensures
        single_assignment(a),
{
    let f = choose|f: Seq<int>| #[trigger] embeds(f, a, b);
    assert forall|i: int, j: int|
        0 <= i < j < a.len() && #[trigger] writes_reg(a[i]) && #[trigger] writes_reg(a[j]) implies reg_written(a[i])
        != reg_written(a[j]) by {
        assert(a[i] == b[f[i]] && a[j] == b[f[j]]);
        assert(f[i] < f[j]);
        assert(writes_reg(b[f[i]]) && writes_reg(b[f[j]]));
    }
}

/// The optimizer keeps the single-assignment form: when every function of a program writes each
/// register once, so does every function of the optimized program.
pub proof fn lemma_optimized_single_assignment(m: IrModel)
    requires
        is_program(m),
        functions_single_assignment(program_functions(m)),
    ensures
        functions_single_assignment(program_functions(optimized(m))),
{
    lemma_optimized(m);
    let fs = program_functions(m);
    let gs = program_functions(optimized(m));
    assert forall|k: int| 0 <= k < gs.len() implies (#[trigger] gs[k] matches IrModel::FunctionDeclaration(
        _,
        _,
        _,
        body,
    ) ==> single_assignment(body)) by {
        let g = gs[k];
        let f = fs[k];
        assert(is_function(g) && is_subsequence(function_nodes(g), function_nodes(f)));
        assert(is_function(f));
        assert(f matches IrModel::FunctionDeclaration(_, _, _, body) ==> single_assignment(body));
        lemma_subsequence_single(function_nodes(g), function_nodes(f));
    }
}

} // verus!
