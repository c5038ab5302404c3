//! Linearisation of the syntax tree into the intermediate representation, with caches of the
//! registers holding variables, constants and computed operations from optimisation level 1.

use vstd::prelude::*;
use crate::ast::ast_impl::{lemma_wrapper_model, AstModel, AstNode, AstNodeWrapper, WrapperModel};
use crate::ast::type_wrapper::{default_type, is_sized, type_size, TypeNative, TypeWrapper};
use crate::lexer::token::{Keyword, Operator, Tk, TkModel};
use crate::lirgen::irnode::{
    compare_of_token, ir_list_model, lemma_ir_list_model, lemma_ir_list_model_push, opposite_of,
    CompareType, IrModel, IrNode,
};
use crate::text::strs_match;

verus! {

/// The map given by a list of entries, a later entry overriding an earlier one for the same key.
pub open spec fn assoc_map<K>(entries: Seq<(K, u32)>) -> Map<K, u32>
    decreases entries.len(),
{
    if entries.len() == 0 {
        Map::empty()
    } else {
        assoc_map(entries.drop_last()).insert(entries.last().0, entries.last().1)
    }
}

/// The entries of a list of named registers, with the names as character sequences.
pub open spec fn named_entries(v: Seq<(String, u32)>) -> Seq<(Seq<char>, u32)> {
    v.map_values(|e: (String, u32)| (e.0@, e.1))
}

/// The names of a list of strings, as character sequences.
pub open spec fn string_seq(v: Seq<String>) -> Seq<Seq<char>> {
    v.map_values(|s: String| s@)
}

/// A computed binary operation: operator, destination, first and second source.
pub type ComputedBinary = (Operator, u32, u32, u32);

/// The state of the generator as a mathematical value.
#[verifier::ext_equal]
pub struct LirState {
    pub reg: u32,
    pub label: u32,
    pub pointers: Map<Seq<char>, u32>,
    pub values: Map<Seq<char>, u32>,
    pub constants: Map<u32, u32>,
    pub binaries: Seq<ComputedBinary>,
    pub is_global: bool,
    pub to_invalidate: bool,
    pub to_invalidate_variable: Seq<Seq<char>>,
    pub opt: u32,
}

/// The result of linearising a node.
pub struct LirgenResult {
    pub ir_list: Vec<IrNode>,
    pub result_register: u32,
}

impl Default for LirgenResult {
    /// An empty list of instructions and no result register.
    fn default() -> (r: LirgenResult)
        ensures
            r.ir_list@.len() == 0,
            r.result_register == 0,
    {
        LirgenResult { ir_list: Vec::new(), result_register: 0 }
    }
}

/// The generator of the intermediate representation.
pub struct Lirgen {
    current_register: u32,
    current_label: u32,
    variable_pointers: Vec<(String, u32)>,
    variable_values: Vec<(String, u32)>,
    constant_values: Vec<(u32, u32)>,
    computed_binary: Vec<ComputedBinary>,
    is_global: bool,
    to_invalidate: bool,
    to_invalidate_variable: Vec<String>,
    opt: u32,
}

impl View for Lirgen {
    type V = LirState;

    closed spec fn view(&self) -> LirState {
        LirState {
            reg: self.current_register,
            label: self.current_label,
            pointers: assoc_map(named_entries(self.variable_pointers@)),
            values: assoc_map(named_entries(self.variable_values@)),
            constants: assoc_map(self.constant_values@),
            binaries: self.computed_binary@,
            is_global: self.is_global,
            to_invalidate: self.to_invalidate,
            to_invalidate_variable: string_seq(self.to_invalidate_variable@),
            opt: self.opt,
        }
    }
}

/// The register a map gives for a key, if any.
pub open spec fn map_get<K>(m: Map<K, u32>, k: K) -> Option<u32> {
    if m.dom().contains(k) {
        Some(m[k])
    } else {
        None
    }
}

/// Looking up the last entry for `key` finds what the map gives for it.
fn assoc_get_named(v: &Vec<(String, u32)>, key: &String) -> (r: Option<u32>)
    ensures
        r == map_get(assoc_map(named_entries(v@)), key@),
{
    let ghost es = named_entries(v@);
    let mut i: usize = v.len();
    assert(es.subrange(0, i as int) =~= es);
    while i > 0
        invariant
            i <= v.len(),
            es == named_entries(v@),
            map_get(assoc_map(es), key@) == map_get(assoc_map(es.subrange(0, i as int)), key@),
        decreases i,
    {
        let ghost p = es.subrange(0, i as int);
        assert(p.drop_last() =~= es.subrange(0, i - 1));
        assert(p.last() == (v@[i - 1].0@, v@[i - 1].1));
        if strs_match(v[i - 1].0.as_str(), key.as_str()) {
            return Some(v[i - 1].1);
        }
        i = i - 1;
    }
    assert(es.subrange(0, 0) =~= Seq::<(Seq<char>, u32)>::empty());
    None
}

/// Looking up the last entry for `key` finds what the map gives for it.
fn assoc_get_u32(v: &Vec<(u32, u32)>, key: u32) -> (r: Option<u32>)
    ensures
        r == map_get(assoc_map(v@), key),
{
    let mut i: usize = v.len();
    assert(v@.subrange(0, i as int) =~= v@);
    while i > 0
        invariant
            i <= v.len(),
            map_get(assoc_map(v@), key) == map_get(assoc_map(v@.subrange(0, i as int)), key),
        decreases i,
    {
        let ghost p = v@.subrange(0, i as int);
        assert(p.drop_last() =~= v@.subrange(0, i - 1));
        if v[i - 1].0 == key {
            return Some(v[i - 1].1);
        }
        i = i - 1;
    }
    assert(v@.subrange(0, 0) =~= Seq::<(u32, u32)>::empty());
    None
}

/// Dropping every entry for `key` removes it from the map.
pub proof fn lemma_assoc_filter<K>(es: Seq<(K, u32)>, key: K)
    ensures
        assoc_map(es.filter(|e: (K, u32)| e.0 != key)) == assoc_map(es).remove(key),
    decreases es.len(),
{
    let f = |e: (K, u32)| e.0 != key;
    if es.len() == 0 {
        assert(es.filter(f) =~= Seq::<(K, u32)>::empty());
        assert(assoc_map(es).remove(key) =~= Map::<K, u32>::empty());
    } else {
        let p = es.drop_last();
        lemma_assoc_filter(p, key);
        reveal(Seq::filter);
        assert(es.filter(f) == {
            let pf = p.filter(f);
            if f(es.last()) {
                pf.push(es.last())
            } else {
                pf
            }
        });
        if es.last().0 == key {
            assert(assoc_map(es).remove(key) =~= assoc_map(p).remove(key));
        } else {
            assert(es.filter(f).drop_last() == p.filter(f));
            assert(assoc_map(es).remove(key) =~= assoc_map(p).remove(key).insert(es.last().0, es.last().1));
        }
    }
}

/// Drops every entry named `key`.
fn assoc_remove_named(v: &mut Vec<(String, u32)>, key: &String)
    ensures
        assoc_map(named_entries(final(v)@)) == assoc_map(named_entries(old(v)@)).remove(key@),
{
    let ghost es = named_entries(v@);
    let mut kept: Vec<(String, u32)> = Vec::new();
    let mut i: usize = 0;
    while i < v.len()
        invariant
            i <= v.len(),
            es == named_entries(v@),
            *v == *old(v),
            named_entries(kept@) == es.subrange(0, i as int).filter(|e: (Seq<char>, u32)| e.0 != key@),
        decreases v.len() - i,
    {
        let ghost p = es.subrange(0, i + 1);
        proof {
            reveal(Seq::filter);
            assert(p.drop_last() =~= es.subrange(0, i as int));
            assert(p.last() == (v@[i as int].0@, v@[i as int].1));
        }
        if !strs_match(v[i].0.as_str(), key.as_str()) {
            let ghost before = kept@;
            kept.push((v[i].0.clone(), v[i].1));
            assert(named_entries(kept@) =~= named_entries(before).push((v@[i as int].0@, v@[i as int].1)));
        }
        i = i + 1;
    }
    proof {
        assert(es.subrange(0, v.len() as int) =~= es);
        lemma_assoc_filter(es, key@);
    }
    *v = kept;
}

/// Appends an entry, which overrides any earlier one for its key.
proof fn lemma_assoc_push<K>(es: Seq<(K, u32)>, k: K, r: u32)
    ensures
        assoc_map(es.push((k, r))) == assoc_map(es).insert(k, r),
{
    assert(es.push((k, r)).drop_last() =~= es);
}

/// The state after taking a fresh register, and that register; `None` when the registers are
/// exhausted.
pub open spec fn st_fresh_reg(s: LirState) -> Option<(LirState, u32)> {
    if s.reg < u32::MAX {
        Some((LirState { reg: (s.reg + 1) as u32, ..s }, (s.reg + 1) as u32))
    } else {
        None
    }
}

/// The state after taking a fresh label, and that label; `None` when the labels are exhausted.
pub open spec fn st_fresh_label(s: LirState) -> Option<(LirState, u32)> {
    if s.label < u32::MAX {
        Some((LirState { label: (s.label + 1) as u32, ..s }, (s.label + 1) as u32))
    } else {
        None
    }
}

/// The register holding the address of a variable, if known.
pub open spec fn st_get_pointer(s: LirState, id: Seq<char>) -> Option<u32> {
    map_get(s.pointers, id)
}

/// The register holding the value of a variable, if known and caches are on.
pub open spec fn st_get_variable(s: LirState, id: Seq<char>) -> Option<u32> {
    if s.opt == 0 {
        None
    } else {
        map_get(s.values, id)
    }
}

/// The register holding a constant, if known and caches are on.
pub open spec fn st_get_constant(s: LirState, c: u32) -> Option<u32> {
    if s.opt == 0 {
        None
    } else {
        map_get(s.constants, c)
    }
}

/// Whether an operator gives the same result with its operands swapped.
pub open spec fn is_commutative(op: Operator) -> bool {
    op == Operator::Plus || op == Operator::Asterisk || op == Operator::AndOp || op == Operator::OrOp
        || op == Operator::XorOp
}

/// The destination of the first recorded operation computing `op` on `s1` and `s2`, operands
/// swapped too for a commutative operator.
pub open spec fn find_binary(bs: Seq<ComputedBinary>, s1: u32, s2: u32, op: Operator) -> Option<u32>
    decreases bs.len(),
{
    if bs.len() == 0 {
        None
    } else {
        let e = bs[0];
        if e.0 == op && e.2 == s1 && e.3 == s2 {
            Some(e.1)
        } else if is_commutative(op) && e.0 == op && e.3 == s1 && e.2 == s2 {
            Some(e.1)
        } else {
            find_binary(bs.drop_first(), s1, s2, op)
        }
    }
}

/// The register holding an already computed operation, if any and caches are on.
pub open spec fn st_get_binary(s: LirState, s1: u32, s2: u32, op: Operator) -> Option<u32> {
    if s.opt == 0 {
        None
    } else {
        find_binary(s.binaries, s1, s2, op)
    }
}

/// Records that register `r` holds the constant `v`.
pub open spec fn st_add_constant(s: LirState, r: u32, v: u32) -> LirState {
    LirState { constants: s.constants.insert(v, r), ..s }
}

/// Records that register `r` holds the value of variable `id`, to be forgotten at the end of the
/// current conditional block if one is open.
pub open spec fn st_add_variable(s: LirState, id: Seq<char>, r: u32) -> LirState {
    LirState {
        to_invalidate_variable: if s.to_invalidate {
            s.to_invalidate_variable.push(id)
        } else {
            s.to_invalidate_variable
        },
        values: s.values.insert(id, r),
        ..s
    }
}

/// Forgets every variable value.
pub open spec fn st_clear_values(s: LirState) -> LirState {
    LirState { values: Map::empty(), ..s }
}

/// Records that register `r` holds the address of variable `id`.
pub open spec fn st_add_pointer(s: LirState, id: Seq<char>, r: u32) -> LirState {
    LirState { pointers: s.pointers.insert(id, r), ..s }
}

/// Records a computed operation.
pub open spec fn st_add_binary(s: LirState, b: ComputedBinary) -> LirState {
    LirState { binaries: s.binaries.push(b), ..s }
}

/// Forgets everything about registers, as at the end of a function.
pub open spec fn st_erase(s: LirState) -> LirState {
    LirState {
        reg: 0,
        label: 1,
        pointers: Map::empty(),
        values: Map::empty(),
        constants: Map::empty(),
        binaries: Seq::empty(),
        ..s
    }
}

/// What a conditional block saves and restores: whether a block was open, the known constants
/// and the variables to forget.
pub type Saved = (bool, Map<u32, u32>, Seq<Seq<char>>);

/// Opens a conditional block.
pub open spec fn st_start_invalidate(s: LirState) -> (LirState, Saved) {
    (
        LirState { to_invalidate: true, to_invalidate_variable: Seq::empty(), ..s },
        (s.to_invalidate, s.constants, s.to_invalidate_variable),
    )
}

/// Closes a conditional block: the variables assigned in it are forgotten, and what was saved
/// is restored.
pub open spec fn st_end_invalidate(s: LirState, saved: Saved) -> LirState {
    LirState {
        values: s.values.remove_keys(s.to_invalidate_variable.to_set()),
        to_invalidate: saved.0,
        constants: saved.1,
        to_invalidate_variable: saved.2,
        ..s
    }
}

/// The type one pointer level above `t`; `None` when the level would overflow.
pub open spec fn pointer_to(t: TypeWrapper) -> Option<TypeWrapper> {
    if t.pointer < u32::MAX {
        Some(TypeWrapper { pointer: (t.pointer + 1) as u32, ..t })
    } else {
        None
    }
}

/// The identifier of a token kind, empty for other tokens.
pub open spec fn identifier_of(t: TkModel) -> Seq<char> {
    match t {
        TkModel::Identifier(s) => s,
        _ => Seq::empty(),
    }
}

/// The outcome of linearising a node: the new state, the instructions and the register holding
/// the result; `None` when the generator would stop (a node that cannot be linearised, or
/// registers or labels exhausted).
pub type LinOut = Option<(LirState, Seq<IrModel>, u32)>;

/// Linearises a node; `ga` asks for the address of an lvalue rather than its value, `brk` and
/// `cont` are the labels of the enclosing loop.
pub open spec fn lin(s: LirState, w: WrapperModel, ga: bool, brk: u32, cont: u32) -> LinOut
    decreases w, 1nat,
{
    match w.node {
        AstModel::DeclarationList(..) => lin_declaration_list(s, w),
        AstModel::VarDeclNode(..) => lin_var_decl(s, w),
        AstModel::PrimaryNode(..) => lin_primary(s, w, ga),
        AstModel::JumpNode(..) => lin_jump(s, w, ga, brk, cont),
        AstModel::CompoundNode(..) => lin_compound(s, w, ga, brk, cont),
        AstModel::FuncDeclNode(..) => lin_func_decl(s, w),
        AstModel::BinaryNode(..) => lin_binary(s, w, ga),
        AstModel::CastNode(..) => lin_cast(s, w, ga),
        AstModel::ExprStatementNode(e) => lin(s, *e, ga, 0, 0),
        AstModel::ArrayDeclNode(..) => lin_array_decl(s, w, ga),
        AstModel::ProcedureNode(..) => lin_procedure(s, w),
        AstModel::PrefixNode(..) => lin_prefix(s, w, ga),
        AstModel::SelectorNode(..) => lin_selector(s, w, ga),
        AstModel::IfNode(..) => lin_if(s, w, ga, brk, cont),
        AstModel::WhileNode(..) => lin_while(s, w, ga),
        AstModel::ForNode(..) => lin_for(s, w, ga),
        _ => None,
    }
}

/// The instructions jumping to `label` when `expr` is false: the opposite comparison when `expr`
/// compares and caches are on, else a test of its value.
pub open spec fn lin_branch_condition(s: LirState, expr: WrapperModel, label: u32) -> Option<(LirState, Seq<IrModel>)>
    decreases expr, 2nat,
{
    let compare = match expr.node {
        AstModel::BinaryNode(tk, _, _) => compare_of_token(tk.tk),
        _ => None,
    };
    if compare is Some && s.opt > 0 {
        match expr.node {
            AstModel::BinaryNode(_, e1, e2) => match lin(s, *e1, false, 0, 0) {
                Some((s1, l1, r1)) => match lin(s1, *e2, false, 0, 0) {
                    Some((s2, l2, r2)) => Some(
                        (
                            s2,
                            l1 + l2 + seq![
                                IrModel::Branch(opposite_of(compare.unwrap()), e1.type_ref, r1, r2, label),
                            ],
                        ),
                    ),
                    None => None,
                },
                None => None,
            },
            _ => None,
        }
    } else {
        match lin(s, expr, false, 0, 0) {
            Some((s1, l1, r1)) => Some(
                (s1, l1 + seq![IrModel::Branch(CompareType::NS, expr.type_ref, r1, 0, label)]),
            ),
            None => None,
        }
    }
}

/// Linearises an indexing: the address of the element, loaded unless `ga`.
pub open spec fn lin_selector(s: LirState, w: WrapperModel, ga: bool) -> LinOut
    decreases w, 0nat,
{
    match w.node {
        AstModel::SelectorNode(left, right) => match lin(s, *left, false, 0, 0) {
            Some((s1, l1, rl)) => match lin(s1, *right, false, 0, 0) {
                Some((s2, l2, rr)) => match pointer_to(w.type_ref) {
                    Some(tt) => if !is_sized(w.type_ref) {
                        None
                    } else {
                        let size = type_size(w.type_ref);
                        let list = l1 + l2;
                        match selector_offset(s2, list, tt, rr, size) {
                            Some((s3, list3, offset)) => match selector_sum(s3, list3, tt, rl, offset) {
                                Some((s4, list4, sum)) => if ga {
                                    Some((s4, list4, sum))
                                } else {
                                    match st_fresh_reg(s4) {
                                        Some((s5, r)) => Some(
                                            (s5, list4.push(IrModel::LoadR(w.type_ref, r, sum)), r),
                                        ),
                                        None => None,
                                    }
                                },
                                None => None,
                            },
                            None => None,
                        }
                    },
                    None => None,
                },
                None => None,
            },
            None => None,
        },
        _ => None,
    }
}

/// The register holding the offset of an element: the index itself for one-byte elements, else
/// the index shifted left by half the size.
pub open spec fn selector_offset(s: LirState, list: Seq<IrModel>, tt: TypeWrapper, index: u32, size: u32) -> LinOut {
    if size != 1 {
        let c = size / 2;
        let with_constant: Option<(LirState, Seq<IrModel>, u32)> = match st_get_constant(s, c) {
            Some(l) => Some((s, list, l)),
            None => match st_fresh_reg(s) {
                Some((s1, r)) => Some((st_add_constant(s1, r, c), list.push(IrModel::MovC(tt, r, c)), r)),
                None => None,
            },
        };
        match with_constant {
            Some((s2, list2, cr)) => match st_get_binary(s2, index, cr, Operator::LShift) {
                Some(o) => Some((s2, list2, o)),
                None => match st_fresh_reg(s2) {
                    Some((s3, o)) => Some(
                        (
                            st_add_binary(s3, (Operator::LShift, o, index, cr)),
                            list2.push(IrModel::Binary(Operator::LShift, tt, o, index, cr)),
                            o,
                        ),
                    ),
                    None => None,
                },
            },
            None => None,
        }
    } else {
        Some((s, list, index))
    }
}

/// The register holding the address of an element: the base plus the offset, recorded as the
/// sum it is.
pub open spec fn selector_sum(s: LirState, list: Seq<IrModel>, tt: TypeWrapper, base: u32, offset: u32) -> LinOut {
    match st_get_binary(s, base, offset, Operator::Plus) {
        Some(r) => Some((s, list, r)),
        None => match st_fresh_reg(s) {
            Some((s1, r)) => Some(
                (
                    st_add_binary(s1, (Operator::Plus, r, base, offset)),
                    list.push(IrModel::Binary(Operator::Plus, tt, r, base, offset)),
                    r,
                ),
            ),
            None => None,
        },
    }
}

/// Linearises a prefix operation: negations compute, `*` loads through the pointer, `&` takes
/// the address, `+` is the operand itself.
pub open spec fn lin_prefix(s: LirState, w: WrapperModel, ga: bool) -> LinOut
    decreases w, 0nat,
{
    match w.node {
        AstModel::PrefixNode(token, expr) => match token.tk {
            TkModel::Operator(op) => if op == Operator::Not || op == Operator::Minus || op
                == Operator::Complement {
                match lin(s, *expr, false, 0, 0) {
                    Some((s1, l1, r1)) => match st_fresh_reg(s1) {
                        Some((s2, r)) => Some((s2, l1.push(IrModel::Unary(w.type_ref, op, r, r1)), r)),
                        None => None,
                    },
                    None => None,
                }
            } else if op == Operator::Asterisk {
                let cached = match expr.node {
                    AstModel::PrimaryNode(tk) => st_get_variable(s, identifier_of(tk.tk)),
                    _ => None,
                };
                let address: LinOut = match cached {
                    Some(l) => Some((s, Seq::empty(), l)),
                    None => match lin(s, *expr, true, 0, 0) {
                        Some((s1, l1, r1)) => match st_fresh_reg(s1) {
                            Some((s2, r)) => match pointer_to(w.type_ref) {
                                Some(tt) => Some((s2, l1.push(IrModel::LoadR(tt, r, r1)), r)),
                                None => None,
                            },
                            None => None,
                        },
                        None => None,
                    },
                };
                match address {
                    Some((s3, l3, a)) => if ga {
                        Some((s3, l3, a))
                    } else {
                        match st_fresh_reg(s3) {
                            Some((s4, r)) => Some((s4, l3.push(IrModel::LoadR(w.type_ref, r, a)), r)),
                            None => None,
                        }
                    },
                    None => None,
                }
            } else if op == Operator::AndOp {
                lin(s, *expr, true, 0, 0)
            } else if op == Operator::Plus {
                lin(s, *expr, false, 0, 0)
            } else {
                None
            },
            _ => None,
        },
        _ => None,
    }
}

/// Linearises an array declaration: an allocation of the elements, then of a pointer to them.
pub open spec fn lin_array_decl(s: LirState, w: WrapperModel, ga: bool) -> LinOut
    decreases w, 0nat,
{
    match w.node {
        AstModel::ArrayDeclNode(tt, name, expression) => match lin(s, *expression, ga, 0, 0) {
            Some((s1, l1, init)) => match st_fresh_reg(s1) {
                Some((s2, rv)) => if !is_sized(tt.type_ref) {
                    None
                } else {
                    match st_fresh_reg(s2) {
                        Some((s3, r)) => match pointer_to(tt.type_ref) {
                            Some(ptt) => Some(
                                (
                                    st_add_pointer(s3, identifier_of(name.tk), r),
                                    l1.push(IrModel::Alloc(tt.type_ref, rv, 0, s1.is_global, init, true, identifier_of(name.tk))).push(
                                        IrModel::Alloc(ptt, r, rv, s1.is_global, type_size(tt.type_ref), false, identifier_of(name.tk)),
                                    ),
                                    r,
                                ),
                            ),
                            None => None,
                        },
                        None => None,
                    }
                },
                None => None,
            },
            None => None,
        },
        _ => None,
    }
}

/// Linearises a `for` loop: the initialisation, then the condition, body, step and jump back,
/// with the caches of the loop forgotten after it.
pub open spec fn lin_for(s: LirState, w: WrapperModel, ga: bool) -> LinOut
    decreases w, 0nat,
{
    match w.node {
        AstModel::ForNode(e1, e2, e3, body) => match st_fresh_label(s) {
            Some((s1, l_for)) => match st_fresh_label(s1) {
                Some((s2, l_start)) => match st_fresh_label(s2) {
                    Some((s3, l_next)) => match st_fresh_label(s3) {
                        Some((s4, l_end)) => match lin(s4, *e1, ga, 0, 0) {
                            Some((s5, list1, _)) => {
                                let (s6, saved) = st_start_invalidate(s5);
                                let s7 = st_clear_values(s6);
                                match lin_branch_condition(s7, *e2, l_end) {
                                    Some((s8, bc)) => match lin(s8, *body, ga, l_end, l_next) {
                                        Some((s9, lb, _)) => match lin(s9, *e3, ga, 0, 0) {
                                            Some((s10, l3, _)) => Some(
                                                (
                                                    st_end_invalidate(s10, saved),
                                                    seq![IrModel::Label(l_for)] + list1 + seq![
                                                        IrModel::Label(l_start),
                                                    ] + bc + lb + seq![IrModel::Label(l_next)] + l3
                                                        + seq![
                                                        IrModel::Branch(CompareType::Always, w.type_ref, 0, 0, l_start),
                                                        IrModel::Label(l_end),
                                                    ],
                                                    0,
                                                ),
                                            ),
                                            None => None,
                                        },
                                        None => None,
                                    },
                                    None => None,
                                }
                            },
                            None => None,
                        },
                        None => None,
                    },
                    None => None,
                },
                None => None,
            },
            None => None,
        },
        _ => None,
    }
}

/// Linearises a `while` loop: the condition, the body and the jump back, with the caches of the
/// loop forgotten after it.
pub open spec fn lin_while(s: LirState, w: WrapperModel, ga: bool) -> LinOut
    decreases w, 0nat,
{
    match w.node {
        AstModel::WhileNode(expr, body) => match st_fresh_label(s) {
            Some((s1, l_while)) => match st_fresh_label(s1) {
                Some((s2, l_end)) => {
                    let (s3, saved) = st_start_invalidate(s2);
                    let s4 = st_clear_values(s3);
                    match lin_branch_condition(s4, *expr, l_end) {
                        Some((s5, bc)) => match lin(s5, *body, ga, l_end, l_while) {
                            Some((s6, lb, _)) => Some(
                                (
                                    st_end_invalidate(s6, saved),
                                    seq![IrModel::Label(l_while)] + bc + lb + seq![
                                        IrModel::Branch(CompareType::Always, w.type_ref, 0, 0, l_while),
                                        IrModel::Label(l_end),
                                    ],
                                    0,
                                ),
                            ),
                            None => None,
                        },
                        None => None,
                    }
                },
                None => None,
            },
            None => None,
        },
        _ => None,
    }
}

/// Linearises a conditional: the test, the then block, and the else block when there is one.
pub open spec fn lin_if(s: LirState, w: WrapperModel, ga: bool, brk: u32, cont: u32) -> LinOut
    decreases w, 0nat,
{
    match w.node {
        AstModel::IfNode(expr, body, else_body) => match st_fresh_label(s) {
            Some((s1, l_end)) => {
                let has_else = !(else_body.node is NullNode);
                let labels: Option<(LirState, u32)> = if has_else {
                    st_fresh_label(s1)
                } else {
                    Some((s1, l_end))
                };
                match labels {
                    Some((s2, l_else)) => match lin_branch_condition(s2, *expr, l_else) {
                        Some((s3, bc)) => {
                            let (s4, saved) = st_start_invalidate(s3);
                            match lin(s4, *body, ga, brk, cont) {
                                Some((s5, lb, _)) => {
                                    let s6 = st_end_invalidate(s5, saved);
                                    if has_else {
                                        let (s7, saved2) = st_start_invalidate(s6);
                                        match lin(s7, *else_body, ga, brk, cont) {
                                            Some((s8, le, _)) => Some(
                                                (
                                                    st_end_invalidate(s8, saved2),
                                                    bc + lb + seq![
                                                        IrModel::Branch(CompareType::Always, expr.type_ref, 0, 0, l_end),
                                                        IrModel::Label(l_else),
                                                    ] + le + seq![IrModel::Label(l_end)],
                                                    0,
                                                ),
                                            ),
                                            None => None,
                                        }
                                    } else {
                                        Some((s6, bc + lb + seq![IrModel::Label(l_end)], 0))
                                    }
                                },
                                None => None,
                            }
                        },
                        None => None,
                    },
                    None => None,
                }
            },
            None => None,
        },
        _ => None,
    }
}

/// Linearises the arguments of a call, in order: the state, the instructions and the registers
/// holding the arguments.
pub open spec fn lin_arguments(s: LirState, ws: Seq<WrapperModel>) -> Option<(LirState, Seq<IrModel>, Seq<u32>)>
    decreases ws, 2nat,
{
    if ws.len() == 0 {
        Some((s, Seq::empty(), Seq::empty()))
    } else {
        match lin(s, ws[0], false, 0, 0) {
            Some((s1, l1, r1)) => match lin_arguments(s1, ws.drop_first()) {
                Some((s2, l2, rs)) => Some((s2, l1 + l2, seq![r1] + rs)),
                None => None,
            },
            None => None,
        }
    }
}

/// Linearises a call: the arguments, then the call; every known variable value is forgotten.
pub open spec fn lin_procedure(s: LirState, w: WrapperModel) -> LinOut
    decreases w, 0nat,
{
    match w.node {
        AstModel::ProcedureNode(primary, params) => match primary.node {
            AstModel::PrimaryNode(tk) => match lin_arguments(s, params) {
                Some((s1, l1, regs)) => {
                    let result: Option<(LirState, u32)> = if w.type_ref.type_native == TypeNative::Void {
                        Some((s1, 0))
                    } else {
                        st_fresh_reg(s1)
                    };
                    match result {
                        Some((s2, r)) => Some(
                            (
                                st_clear_values(s2),
                                l1.push(IrModel::Call(identifier_of(tk.tk), w.type_ref, regs, r)),
                                r,
                            ),
                        ),
                        None => None,
                    }
                },
                None => None,
            },
            _ => None,
        },
        _ => None,
    }
}

/// Linearises `return`, `continue` and `break`.
pub open spec fn lin_jump(s: LirState, w: WrapperModel, ga: bool, brk: u32, cont: u32) -> LinOut
    decreases w, 0nat,
{
    match w.node {
        AstModel::JumpNode(token, expr) => match token.tk {
            TkModel::Keyword(Keyword::Return) => if !(expr.node is NullNode) {
                match lin(s, *expr, ga, 0, 0) {
                    Some((s1, l1, r1)) => Some((s1, l1.push(IrModel::Return(expr.type_ref, r1)), 0)),
                    None => None,
                }
            } else {
                Some((s, seq![IrModel::Return(expr.type_ref, 0)], 0))
            },
            TkModel::Keyword(Keyword::Continue) => Some(
                (s, seq![IrModel::Branch(CompareType::Always, w.type_ref, 0, 0, cont)], 0),
            ),
            TkModel::Keyword(Keyword::Break) => Some(
                (s, seq![IrModel::Branch(CompareType::Always, w.type_ref, 0, 0, brk)], 0),
            ),
            _ => None,
        },
        _ => None,
    }
}

/// Linearises the statements of a block, in order.
pub open spec fn lin_statements(s: LirState, ws: Seq<WrapperModel>, ga: bool, brk: u32, cont: u32) -> Option<(LirState, Seq<IrModel>)>
    decreases ws, 2nat,
{
    if ws.len() == 0 {
        Some((s, Seq::empty()))
    } else {
        match lin(s, ws[0], ga, brk, cont) {
            Some((s1, l1, _)) => match lin_statements(s1, ws.drop_first(), ga, brk, cont) {
                Some((s2, l2)) => Some((s2, l1 + l2)),
                None => None,
            },
            None => None,
        }
    }
}

/// Linearises a block.
pub open spec fn lin_compound(s: LirState, w: WrapperModel, ga: bool, brk: u32, cont: u32) -> LinOut
    decreases w, 0nat,
{
    match w.node {
        AstModel::CompoundNode(list) => match lin_statements(s, list, ga, brk, cont) {
            Some((s1, l1)) => Some((s1, l1, 0)),
            None => None,
        },
        _ => None,
    }
}

/// Linearises the function declarations of a list, forgetting every register after each.
pub open spec fn lin_functions(s: LirState, ws: Seq<WrapperModel>) -> Option<(LirState, Seq<IrModel>)>
    decreases ws, 2nat,
{
    if ws.len() == 0 {
        Some((s, Seq::empty()))
    } else if ws[0].node is FuncDeclNode {
        match lin(s, ws[0], false, 0, 0) {
            Some((s1, l1, _)) => match lin_functions(st_erase(s1), ws.drop_first()) {
                Some((s2, l2)) => Some((s2, l1 + l2)),
                None => None,
            },
            None => None,
        }
    } else {
        lin_functions(s, ws.drop_first())
    }
}

/// Linearises the global declarations of a list, skipping the functions.
pub open spec fn lin_globals(s: LirState, ws: Seq<WrapperModel>) -> Option<(LirState, Seq<IrModel>)>
    decreases ws, 2nat,
{
    if ws.len() == 0 {
        Some((s, Seq::empty()))
    } else if ws[0].node is FuncDeclNode {
        lin_globals(s, ws.drop_first())
    } else {
        match lin(s, ws[0], false, 0, 0) {
            Some((s1, l1, _)) => match lin_globals(s1, ws.drop_first()) {
                Some((s2, l2)) => Some((s2, l1 + l2)),
                None => None,
            },
            None => None,
        }
    }
}

/// The end of the `init` function: the call to `main`, then a label and a jump to it, looping
/// forever.
pub open spec fn init_tail() -> Seq<IrModel> {
    seq![
        IrModel::Call("main"@, default_type(), Seq::empty(), 0),
        IrModel::Label(0),
        IrModel::Branch(CompareType::Always, default_type(), 0, 0, 0),
    ]
}

/// Linearises a program: the `init` function, holding the global declarations and the call to
/// `main`, followed by every function.
pub open spec fn lin_declaration_list(s: LirState, w: WrapperModel) -> LinOut
    decreases w, 0nat,
{
    match w.node {
        AstModel::DeclarationList(list) => match lin_functions(s, list) {
            Some((s1, funcs)) => match lin_globals(LirState { is_global: true, ..s1 }, list) {
                Some((s2, globals)) => Some(
                    (
                        s2,
                        seq![
                            IrModel::FunctionDeclaration(
                                "init"@,
                                default_type(),
                                Seq::empty(),
                                globals + init_tail(),
                            ),
                        ] + funcs,
                        0,
                    ),
                ),
                None => None,
            },
            None => None,
        },
        _ => None,
    }
}

/// Linearises a variable declaration: its initial value if any, then its allocation.
pub open spec fn lin_var_decl(s: LirState, w: WrapperModel) -> LinOut
    decreases w, 0nat,
{
    match w.node {
        AstModel::VarDeclNode(tt, name, expression) => {
            let id = identifier_of(name.tk);
            let init: Option<(LirState, Seq<IrModel>, u32)> = if !(expression.node is NullNode) {
                match lin(s, *expression, false, 0, 0) {
                    Some((s1, l1, r1)) => Some((st_add_variable(s1, id, r1), l1, r1)),
                    None => None,
                }
            } else {
                Some((s, Seq::empty(), 0))
            };
            match init {
                Some((s2, l2, r2)) => match st_fresh_reg(s2) {
                    Some((s3, r)) => Some(
                        (
                            st_add_pointer(s3, id, r),
                            l2.push(IrModel::Alloc(tt.type_ref, r, r2, s3.is_global, 1, false, id)),
                            r,
                        ),
                    ),
                    None => None,
                },
                None => None,
            }
        },
        _ => None,
    }
}

/// Linearises an identifier, an integer or a character.
pub open spec fn lin_primary(s: LirState, w: WrapperModel, ga: bool) -> LinOut
    decreases w, 0nat,
{
    match w.node {
        AstModel::PrimaryNode(token) => match token.tk {
            TkModel::Identifier(id) => {
                let address: LinOut = match st_get_pointer(s, id) {
                    Some(l) => Some((s, Seq::empty(), l)),
                    None => match st_fresh_reg(s) {
                        Some((s1, r)) => match pointer_to(w.type_ref) {
                            Some(tt) => Some((s1, seq![IrModel::LoadA(tt, r, id)], r)),
                            None => None,
                        },
                        None => None,
                    },
                };
                match address {
                    Some((s2, l2, a)) => if ga {
                        Some((s2, l2, a))
                    } else {
                        match st_get_variable(s2, id) {
                            Some(v) => Some((s2, l2, v)),
                            None => match st_fresh_reg(s2) {
                                Some((s3, r)) => Some(
                                    (st_add_variable(s3, id, r), l2.push(IrModel::LoadR(w.type_ref, r, a)), r),
                                ),
                                None => None,
                            },
                        }
                    },
                    None => None,
                }
            },
            TkModel::IntegerLiteral(num) => {
                let c = num as u32;
                match st_get_constant(s, c) {
                    Some(l) => Some((s, Seq::empty(), l)),
                    None => match st_fresh_reg(s) {
                        Some((s1, r)) => Some(
                            (st_add_constant(s1, r, c), seq![IrModel::MovC(w.type_ref, r, c)], r),
                        ),
                        None => None,
                    },
                }
            },
            TkModel::Char(ch) => match st_fresh_reg(s) {
                Some((s1, r)) => Some((s1, seq![IrModel::MovC(w.type_ref, r, ch as u32)], r)),
                None => None,
            },
            _ => None,
        },
        _ => None,
    }
}

/// Linearises a binary operation: an assignment stores and records the new value of a variable;
/// another operation is computed once, then found again in the cache.
pub open spec fn lin_binary(s: LirState, w: WrapperModel, ga: bool) -> LinOut
    decreases w, 0nat,
{
    match w.node {
        AstModel::BinaryNode(token, e1, e2) => if token.tk == TkModel::Operator(Operator::Assign) {
            match lin(s, *e1, true, 0, 0) {
                Some((s1, l1, r1)) => match lin(s1, *e2, ga, 0, 0) {
                    Some((s2, l2, r2)) => {
                        let s3 = match e1.node {
                            AstModel::PrimaryNode(tk) => {
                                let id = identifier_of(tk.tk);
                                LirState {
                                    to_invalidate_variable: s2.to_invalidate_variable.push(id),
                                    values: s2.values.insert(id, r2),
                                    ..s2
                                }
                            },
                            _ => st_clear_values(s2),
                        };
                        Some(
                            (
                                s3,
                                l1 + l2 + seq![IrModel::Store(w.type_ref, r1, r2)],
                                if ga {
                                    r1
                                } else {
                                    r2
                                },
                            ),
                        )
                    },
                    None => None,
                },
                None => None,
            }
        } else {
            match lin(s, *e1, ga, 0, 0) {
                Some((s1, l1, r1)) => match lin(s1, *e2, ga, 0, 0) {
                    Some((s2, l2, r2)) => match token.tk {
                        TkModel::Operator(op) => match st_get_binary(s2, r1, r2, op) {
                            Some(d) => Some((s2, Seq::empty(), d)),
                            None => match st_fresh_reg(s2) {
                                Some((s3, r)) => Some(
                                    (
                                        st_add_binary(s3, (op, r, r1, r2)),
                                        l1 + l2 + seq![IrModel::Binary(op, w.type_ref, r, r1, r2)],
                                        r,
                                    ),
                                ),
                                None => None,
                            },
                        },
                        _ => None,
                    },
                    None => None,
                },
                None => None,
            }
        },
        _ => None,
    }
}

/// Linearises a cast: nothing to do towards a pointer, else a cast instruction.
pub open spec fn lin_cast(s: LirState, w: WrapperModel, ga: bool) -> LinOut
    decreases w, 0nat,
{
    match w.node {
        AstModel::CastNode(dest_type, exp) => match lin(s, *exp, ga, 0, 0) {
            Some((s1, l1, r1)) => if dest_type.type_ref.pointer > 0 {
                Some((s1, l1, r1))
            } else {
                match st_fresh_reg(s1) {
                    Some((s2, r)) => Some(
                        (s2, l1.push(IrModel::Cast(dest_type.type_ref, exp.type_ref, r, r1)), r),
                    ),
                    None => None,
                }
            },
            None => None,
        },
        _ => None,
    }
}

/// Allocates the parameters of a function from position `i` on: parameter `i` arrives in
/// register `i + 1` and is stored at the address in register `i + 1 + n`.
pub open spec fn lin_parameters(s: LirState, params: Seq<WrapperModel>, i: int) -> Option<(LirState, Seq<TypeWrapper>, Seq<IrModel>)>
    decreases params.len() - i,
{
    if i < 0 || i >= params.len() {
        Some((s, Seq::empty(), Seq::empty()))
    } else {
        match params[i].node {
            AstModel::ParameterNode(tk, _) => {
                let n = params.len();
                let name = identifier_of(tk.tk);
                let address = (i + 1 + n) as u32;
                let value = (i + 1) as u32;
                let s1 = st_add_variable(st_add_pointer(s, name, address), name, value);
                match lin_parameters(s1, params, i + 1) {
                    Some((s2, ts, nodes)) => Some(
                        (
                            s2,
                            seq![params[i].type_ref] + ts,
                            seq![IrModel::Alloc(params[i].type_ref, address, value, false, 1, false, name)]
                                + nodes,
                        ),
                    ),
                    None => None,
                }
            },
            _ => None,
        }
    }
}

/// Linearises a function declaration: the allocation of its parameters, then its body.
pub open spec fn lin_func_decl(s: LirState, w: WrapperModel) -> LinOut
    decreases w, 0nat,
{
    match w.node {
        AstModel::FuncDeclNode(rt, name, params, body) => if 2 * params.len() + 1 > u32::MAX {
            None
        } else {
            match lin_parameters(s, params, 0) {
                Some((s1, ts, nodes)) => if s1.reg + 2 * params.len() > u32::MAX {
                    None
                } else {
                    let s2 = LirState { reg: (s1.reg + 2 * params.len()) as u32, ..s1 };
                    match lin(s2, *body, false, 0, 0) {
                        Some((s3, lb, _)) => Some(
                            (
                                s3,
                                seq![
                                    IrModel::FunctionDeclaration(
                                        identifier_of(name.tk),
                                        rt.type_ref,
                                        ts,
                                        nodes + lb,
                                    ),
                                ],
                                0,
                            ),
                        ),
                        None => None,
                    }
                },
                None => None,
            }
        },
        _ => None,
    }
}

/// The state of a new generator for the optimisation level `opt`.
pub open spec fn initial_state(opt: u32) -> LirState {
    LirState {
        reg: 0,
        label: 0,
        pointers: Map::empty(),
        values: Map::empty(),
        constants: Map::empty(),
        binaries: Seq::empty(),
        is_global: false,
        to_invalidate: false,
        to_invalidate_variable: Seq::empty(),
        opt,
    }
}

/// The saved state of a conditional block as a mathematical value.
pub open spec fn saved_model(b: bool, hc: Seq<(u32, u32)>, hv: Seq<String>) -> Saved {
    (b, assoc_map(hc), string_seq(hv))
}

/// The models of the instructions of two lists one after the other.
pub proof fn lemma_ir_list_model_concat(a: Seq<IrNode>, b: Seq<IrNode>)
    ensures
        ir_list_model(a + b) == ir_list_model(a) + ir_list_model(b),
    decreases b.len(),
{
    if b.len() == 0 {
        assert(a + b =~= a);
        assert(ir_list_model(a) + ir_list_model(b) =~= ir_list_model(a));
    } else {
        let p = b.drop_last();
        lemma_ir_list_model_concat(a, p);
        assert((a + b).drop_last() =~= a + p);
        assert((a + b).last() == b.last());
        assert(b.drop_last() == p);
        assert(ir_list_model(a + b) =~= ir_list_model(a) + ir_list_model(b));
    }
}

/// Appends the instructions of `other` to `list`, emptying `other`.
pub(crate) fn append_nodes(list: &mut Vec<IrNode>, other: &mut Vec<IrNode>)
    ensures
        ir_list_model(final(list)@) == ir_list_model(old(list)@) + ir_list_model(old(other)@),
        final(other)@ == Seq::<IrNode>::empty(),
{
    proof {
        lemma_ir_list_model_concat(list@, other@);
    }
    list.append(other);
}

/// Appends one instruction to `list`.
pub(crate) fn push_node(list: &mut Vec<IrNode>, n: IrNode)
    ensures
        ir_list_model(final(list)@) == ir_list_model(old(list)@).push(n@),
{
    proof {
        lemma_ir_list_model_push(list@, n);
    }
    list.push(n);
}

impl Lirgen {
    /// A generator for the optimisation level `opt`: 0 linearises every node anew, from 1 on the
    /// registers holding variables, constants and computed operations are reused.
    pub fn new(opt: u32) -> (r: Lirgen)
        ensures
            r@ == initial_state(opt),
    {
        let r = Lirgen {
            current_register: 0,
            current_label: 0,
            variable_pointers: Vec::new(),
            variable_values: Vec::new(),
            constant_values: Vec::new(),
            computed_binary: Vec::new(),
            to_invalidate_variable: Vec::new(),
            is_global: false,
            to_invalidate: false,
            opt,
        };
        assert(string_seq(r.to_invalidate_variable@) =~= Seq::<Seq<char>>::empty());
        assert(named_entries(r.variable_pointers@) =~= Seq::<(Seq<char>, u32)>::empty());
        assert(named_entries(r.variable_values@) =~= Seq::<(Seq<char>, u32)>::empty());
        assert(r@ =~= initial_state(opt));
        r
    }

    /// The register holding the address of a variable, if known.
    fn get_pointer_variable(&self, s: &String) -> (r: Option<u32>)
        ensures
            r == st_get_pointer(self@, s@),
    {
        assoc_get_named(&self.variable_pointers, s)
    }

    /// The register holding the value of a variable, if known and caches are on.
    fn get_variables(&self, s: &String) -> (r: Option<u32>)
        ensures
            r == st_get_variable(self@, s@),
    {
        if self.opt == 0 {
            return None;
        }
        assoc_get_named(&self.variable_values, s)
    }

    /// The register holding an already computed operation, if any and caches are on.
    fn get_computed_binary(&self, s1: u32, s2: u32, op: &Operator) -> (r: Option<u32>)
        ensures
            r == st_get_binary(self@, s1, s2, *op),
    {
        if self.opt == 0 {
            return None;
        }
        let ghost bs = self.computed_binary@;
        let mut i: usize = 0;
        assert(bs.subrange(0, bs.len() as int) =~= bs);
        while i < self.computed_binary.len()
            invariant
                i <= bs.len(),
                bs == self.computed_binary@,
                self.opt != 0,
                st_get_binary(self@, s1, s2, *op) == find_binary(bs, s1, s2, *op),
                find_binary(bs, s1, s2, *op) == find_binary(bs.subrange(i as int, bs.len() as int), s1, s2, *op),
            decreases bs.len() - i,
        {
            let ghost rest = bs.subrange(i as int, bs.len() as int);
            assert(rest[0] == bs[i as int]);
            assert(rest.drop_first() =~= bs.subrange(i + 1, bs.len() as int));
            let elem = self.computed_binary[i];
            if elem.0 == *op && elem.2 == s1 && elem.3 == s2 {
                return Some(elem.1);
            }
            if *op == Operator::Plus || *op == Operator::Asterisk || *op == Operator::AndOp
                || *op == Operator::OrOp || *op == Operator::XorOp {
                if elem.0 == *op && elem.3 == s1 && elem.2 == s2 {
                    return Some(elem.1);
                }
            }
            i = i + 1;
        }
        assert(bs.subrange(bs.len() as int, bs.len() as int) =~= Seq::<ComputedBinary>::empty());
        None
    }

    /// The register holding a constant, if known and caches are on.
    fn get_constant(&self, c: u32) -> (r: Option<u32>)
        ensures
            r == st_get_constant(self@, c),
    {
        if self.opt == 0 {
            return None;
        }
        assoc_get_u32(&self.constant_values, c)
    }

    /// Records that register `r` holds the constant `v`.
    fn add_constant(&mut self, r: u32, v: u32)
        ensures
            final(self)@ == st_add_constant(old(self)@, r, v),
    {
        proof {
            lemma_assoc_push(self.constant_values@, v, r);
        }
        self.constant_values.push((v, r));
        assert(self@ =~= st_add_constant(old(self)@, r, v));
    }

    /// Records that register `r` holds the value of variable `s`.
    fn add_variable(&mut self, s: &String, r: u32)
        ensures
            final(self)@ == st_add_variable(old(self)@, s@, r),
    {
        if self.to_invalidate {
            self.to_invalidate_variable.push(s.clone());
        }
        let ghost before = self.variable_values@;
        self.variable_values.push((s.clone(), r));
        proof {
            assert(named_entries(self.variable_values@) =~= named_entries(before).push((s@, r)));
            lemma_assoc_push(named_entries(before), s@, r);
        }
        assert(self@ =~= st_add_variable(old(self)@, s@, r));
    }

    /// Forgets every variable value.
    fn clear_variable_values(&mut self)
        ensures
            final(self)@ == st_clear_values(old(self)@),
    {
        self.variable_values.clear();
        assert(named_entries(self.variable_values@) =~= Seq::<(Seq<char>, u32)>::empty());
        assert(self@ =~= st_clear_values(old(self)@));
    }

    /// Records that register `r` holds the address of variable `s`.
    fn add_pointer_variable(&mut self, s: &String, r: u32)
        ensures
            final(self)@ == st_add_pointer(old(self)@, s@, r),
    {
        let ghost before = self.variable_pointers@;
        self.variable_pointers.push((s.clone(), r));
        proof {
            assert(named_entries(self.variable_pointers@) =~= named_entries(before).push((s@, r)));
            lemma_assoc_push(named_entries(before), s@, r);
        }
        assert(self@ =~= st_add_pointer(old(self)@, s@, r));
    }

    /// Records a computed operation.
    fn add_computed_binary(&mut self, s: ComputedBinary)
        ensures
            final(self)@ == st_add_binary(old(self)@, s),
    {
        self.computed_binary.push(s);
        assert(self@ =~= st_add_binary(old(self)@, s));
    }

    /// Forgets everything known about registers, as at the end of a function.
    fn erase_registers(&mut self)
        ensures
            final(self)@ == st_erase(old(self)@),
    {
        self.current_register = 0;
        self.current_label = 1;
        self.variable_pointers.clear();
        self.variable_values.clear();
        self.constant_values.clear();
        self.computed_binary.clear();
        assert(named_entries(self.variable_pointers@) =~= Seq::<(Seq<char>, u32)>::empty());
        assert(named_entries(self.variable_values@) =~= Seq::<(Seq<char>, u32)>::empty());
        assert(self.constant_values@ =~= Seq::<(u32, u32)>::empty());
        assert(self@ =~= st_erase(old(self)@));
    }

    /// The next register.
    fn get_register(&mut self) -> (r: u32)
        requires
            st_fresh_reg(old(self)@) is Some,
        ensures
            (final(self)@, r) == st_fresh_reg(old(self)@).unwrap(),
    {
        self.current_register = self.current_register + 1;
        assert(self@ =~= st_fresh_reg(old(self)@).unwrap().0);
        self.current_register
    }

    /// The next label.
    fn get_label(&mut self) -> (r: u32)
        requires
            st_fresh_label(old(self)@) is Some,
        ensures
            (final(self)@, r) == st_fresh_label(old(self)@).unwrap(),
    {
        self.current_label = self.current_label + 1;
        assert(self@ =~= st_fresh_label(old(self)@).unwrap().0);
        self.current_label
    }

    /// Opens a conditional block, returning what to restore when it closes.
    fn start_invalidate(&mut self) -> (r: (bool, Vec<(u32, u32)>, Vec<String>))
        ensures
            (final(self)@, saved_model(r.0, r.1@, r.2@)) == st_start_invalidate(old(self)@),
    {
        let old_to_invalidate = self.to_invalidate;
        let old_constant_values = crate::lirgen::irnode::copy_vec(&self.constant_values);
        let mut old_to_invalidate_variable: Vec<String> = Vec::new();
        std::mem::swap(&mut old_to_invalidate_variable, &mut self.to_invalidate_variable);
        self.to_invalidate = true;
        assert(string_seq(self.to_invalidate_variable@) =~= Seq::<Seq<char>>::empty());
        assert(self@ =~= st_start_invalidate(old(self)@).0);
        (old_to_invalidate, old_constant_values, old_to_invalidate_variable)
    }

    /// Closes a conditional block: the variables assigned in it are forgotten and the saved state
    /// is restored.
    fn end_invalidate(&mut self, b: bool, hc: Vec<(u32, u32)>, hv: Vec<String>)
        ensures
            final(self)@ == st_end_invalidate(old(self)@, saved_model(b, hc@, hv@)),
    {
        let ghost tiv = string_seq(self.to_invalidate_variable@);
        let ghost values0 = old(self)@.values;
        let mut i: usize = 0;
        while i < self.to_invalidate_variable.len()
            invariant
                i <= self.to_invalidate_variable.len(),
                tiv == string_seq(self.to_invalidate_variable@),
                self.to_invalidate_variable@ == old(self).to_invalidate_variable@,
                self.current_register == old(self).current_register,
                self.current_label == old(self).current_label,
                self.variable_pointers@ == old(self).variable_pointers@,
                self.constant_values@ == old(self).constant_values@,
                self.computed_binary@ == old(self).computed_binary@,
                self.is_global == old(self).is_global,
                self.to_invalidate == old(self).to_invalidate,
                self.opt == old(self).opt,
                assoc_map(named_entries(self.variable_values@)) == values0.remove_keys(
                    tiv.subrange(0, i as int).to_set(),
                ),
            decreases self.to_invalidate_variable.len() - i,
        {
            let elem = self.to_invalidate_variable[i].clone();
            assoc_remove_named(&mut self.variable_values, &elem);
            proof {
                assert(tiv.subrange(0, i + 1).to_set() =~= tiv.subrange(0, i as int).to_set().insert(
                    elem@,
                )) by {
                    assert(tiv.subrange(0, i + 1) =~= tiv.subrange(0, i as int).push(elem@));
                    tiv.subrange(0, i as int).lemma_push_to_set_commute(elem@);
                }
                assert(values0.remove_keys(tiv.subrange(0, i + 1).to_set()) =~= values0.remove_keys(
                    tiv.subrange(0, i as int).to_set(),
                ).remove(elem@));
            }
            i = i + 1;
        }
        assert(tiv.subrange(0, tiv.len() as int) =~= tiv);
        self.to_invalidate = b;
        self.constant_values = hc;
        self.to_invalidate_variable = hv;
        assert(self@ =~= st_end_invalidate(old(self)@, saved_model(b, hc@, hv@)));
    }
}

/// The outcome of a linearisation as a mathematical value.
pub open spec fn result_model(s: LirState, r: LirgenResult) -> LinOut {
    Some((s, ir_list_model(r.ir_list@), r.result_register))
}

impl Lirgen {
    /// The program linearising `ast`, a list of declarations: the `init` function first, then
    /// every function.
    pub fn linearize_ast(&mut self, ast: &AstNodeWrapper) -> (r: IrNode)
        requires
            lin(old(self)@, ast@, false, 0, 0) is Some,
        ensures
            final(self)@ == lin(old(self)@, ast@, false, 0, 0).unwrap().0,
            r@ == IrModel::Program(lin(old(self)@, ast@, false, 0, 0).unwrap().1),
    {
        let res = self.linearize(ast, false, 0, 0);
        IrNode::Program(res.ir_list)
    }

    /// The instructions jumping to `label` when `expr` is false.
    fn add_branch_condition(&mut self, expr: &AstNodeWrapper, label: u32) -> (r: Vec<IrNode>)
        requires
            lin_branch_condition(old(self)@, expr@, label) is Some,
        ensures
            lin_branch_condition(old(self)@, expr@, label) == Some((final(self)@, ir_list_model(r@))),
        decreases *expr, 2nat,
    {
        let ghost s0 = self@;
        let mut instructions: Vec<IrNode> = Vec::new();
        let mut found_compare = false;
        match &expr.node {
            AstNode::BinaryNode(tk, exp1, exp2) => {
                let compare_type = CompareType::from_token(tk);
                if compare_type.is_some() && self.opt > 0 {
                    found_compare = true;
                    let mut expr1_lin = self.linearize(exp1, false, 0, 0);
                    let mut expr2_lin = self.linearize(exp2, false, 0, 0);
                    let ghost l1 = ir_list_model(expr1_lin.ir_list@);
                    let ghost l2 = ir_list_model(expr2_lin.ir_list@);
                    append_nodes(&mut instructions, &mut expr1_lin.ir_list);
                    append_nodes(&mut instructions, &mut expr2_lin.ir_list);
                    let ct = compare_type.unwrap().opposite();
                    push_node(
                        &mut instructions,
                        IrNode::Branch(
                            ct,
                            exp1.type_ref,
                            expr1_lin.result_register,
                            expr2_lin.result_register,
                            label,
                        ),
                    );
                    assert(ir_list_model(instructions@) =~= l1 + l2 + seq![
                        IrModel::Branch(ct, exp1@.type_ref, expr1_lin.result_register, expr2_lin.result_register, label),
                    ]);
                }
            },
            _ => {},
        }
        if !found_compare {
            let mut expr_lin = self.linearize(expr, false, 0, 0);
            append_nodes(&mut instructions, &mut expr_lin.ir_list);
            push_node(
                &mut instructions,
                IrNode::Branch(CompareType::NS, expr.type_ref, expr_lin.result_register, 0, label),
            );
        }
        instructions
    }

    /// Linearises a node; `get_address` asks for the address of an lvalue, `break_dest` and
    /// `continue_dest` are the labels of the enclosing loop.
    #[verifier::rlimit(40)]
    #[verifier::spinoff_prover]
    fn linearize(&mut self, ast: &AstNodeWrapper, get_address: bool, break_dest: u32, continue_dest: u32) -> (r: LirgenResult)
        requires
            lin(old(self)@, ast@, get_address, break_dest, continue_dest) is Some,
        ensures
            lin(old(self)@, ast@, get_address, break_dest, continue_dest) == result_model(final(self)@, r),
        decreases *ast, 1nat,
    {
        match &ast.node {
            AstNode::DeclarationList(..) => self.linearize_declaration_list(ast),
            AstNode::VarDeclNode(..) => self.linearize_var_decl_node(ast),
            AstNode::PrimaryNode(..) => self.linearize_primary_node(ast, get_address),
            AstNode::JumpNode(..) => self.linearize_jump_node(ast, get_address, break_dest, continue_dest),
            AstNode::CompoundNode(..) => self.linearize_compound_node(ast, get_address, break_dest, continue_dest),
            AstNode::FuncDeclNode(..) => self.linearize_func_decl_node(ast),
            AstNode::BinaryNode(..) => self.linearize_binary_node(ast, get_address),
            AstNode::CastNode(..) => self.linearize_cast_node(ast, get_address),
            AstNode::ExprStatementNode(..) => self.linearize_expr_statement_node(ast, get_address),
            AstNode::ArrayDeclNode(..) => self.linearize_array_decl_node(ast, get_address),
            AstNode::ProcedureNode(..) => self.linearize_procedure_node(ast),
            AstNode::PrefixNode(..) => self.linearize_prefix_node(ast, get_address),
            AstNode::SelectorNode(..) => self.linearize_selector_node(ast, get_address),
            AstNode::IfNode(..) => self.linearize_if_node(ast, get_address, break_dest, continue_dest),
            AstNode::WhileNode(..) => self.linearize_while_node(ast, get_address),
            AstNode::ForNode(..) => self.linearize_for_node(ast, get_address),
            _ => LirgenResult::default(),
        }
    }

    /// Linearises an expression used as a statement.
    fn linearize_expr_statement_node(&mut self, ast: &AstNodeWrapper, get_address: bool) -> (r: LirgenResult)
        requires
            ast@.node is ExprStatementNode,
            lin(old(self)@, ast@, get_address, 0, 0) is Some,
        ensures
            lin(old(self)@, ast@, get_address, 0, 0) == result_model(final(self)@, r),
        decreases *ast, 0nat,
    {
        match &ast.node {
            AstNode::ExprStatementNode(expr) => self.linearize(expr, get_address, 0, 0),
            _ => LirgenResult::default(),
        }
    }

    /// Linearises a cast: nothing to do towards a pointer, else a cast instruction.
    fn linearize_cast_node(&mut self, ast: &AstNodeWrapper, get_address: bool) -> (r: LirgenResult)
        requires
            lin_cast(old(self)@, ast@, get_address) is Some,
        ensures
            lin_cast(old(self)@, ast@, get_address) == result_model(final(self)@, r),
        decreases *ast, 0nat,
    {
        match &ast.node {
            AstNode::CastNode(dest_type, exp) => {
                proof {
                    lemma_wrapper_model(*ast);
                    lemma_wrapper_model(**dest_type);
                    lemma_wrapper_model(**exp);
                }
                let mut exp_lin = self.linearize(exp, get_address, 0, 0);
                if dest_type.type_ref.pointer > 0 {
                    return exp_lin;
                }
                let ghost l1 = ir_list_model(exp_lin.ir_list@);
                let result_register = self.get_register();
                let new_cast = IrNode::Cast(dest_type.type_ref, exp.type_ref, result_register, exp_lin.result_register);
                let mut list: Vec<IrNode> = Vec::new();
                append_nodes(&mut list, &mut exp_lin.ir_list);
                push_node(&mut list, new_cast);
                assert(ir_list_model(list@) =~= l1.push(new_cast@));
                LirgenResult { ir_list: list, result_register }
            },
            _ => LirgenResult::default(),
        }
    }
}

impl Lirgen {
    /// Emits, if needed, the offset of an element of `size` bytes at `index`.
    fn compute_offset(&mut self, list: &mut Vec<IrNode>, tt: TypeWrapper, index: u32, size: u32) -> (r: u32)
        requires
            selector_offset(old(self)@, ir_list_model(old(list)@), tt, index, size) is Some,
        ensures
            selector_offset(old(self)@, ir_list_model(old(list)@), tt, index, size) == Some(
                (final(self)@, ir_list_model(final(list)@), r),
            ),
    {
        if size != 1 {
            let constant_register;
            match self.get_constant(size / 2) {
                Some(l) => {
                    constant_register = l;
                },
                None => {
                    let result_register = self.get_register();
                    push_node(list, IrNode::MovC(tt, result_register, size / 2));
                    constant_register = result_register;
                    self.add_constant(result_register, size / 2);
                },
            }
            match self.get_computed_binary(index, constant_register, &Operator::LShift) {
                Some(r) => r,
                None => {
                    let offset_register = self.get_register();
                    let new_op = IrNode::Binary(Operator::LShift, tt, offset_register, index, constant_register);
                    self.add_computed_binary((Operator::LShift, offset_register, index, constant_register));
                    push_node(list, new_op);
                    offset_register
                },
            }
        } else {
            index
        }
    }

    /// Emits, if needed, the sum of a base address and an offset.
    fn compute_sum(&mut self, list: &mut Vec<IrNode>, tt: TypeWrapper, base: u32, offset: u32) -> (r: u32)
        requires
            selector_sum(old(self)@, ir_list_model(old(list)@), tt, base, offset) is Some,
        ensures
            selector_sum(old(self)@, ir_list_model(old(list)@), tt, base, offset) == Some(
                (final(self)@, ir_list_model(final(list)@), r),
            ),
    {
        match self.get_computed_binary(base, offset, &Operator::Plus) {
            Some(r) => r,
            None => {
                let sum_register = self.get_register();
                let new_op = IrNode::Binary(Operator::Plus, tt, sum_register, base, offset);
                self.add_computed_binary((Operator::Plus, sum_register, base, offset));
                push_node(list, new_op);
                sum_register
            },
        }
    }

    /// Linearises an indexing: the address of the element, loaded unless `get_address`.
    fn linearize_selector_node(&mut self, ast: &AstNodeWrapper, get_address: bool) -> (r: LirgenResult)
        requires
            lin_selector(old(self)@, ast@, get_address) is Some,
        ensures
            lin_selector(old(self)@, ast@, get_address) == result_model(final(self)@, r),
        decreases *ast, 0nat,
    {
        match &ast.node {
            AstNode::SelectorNode(left, right) => {
                let mut l_lin = self.linearize(left, false, 0, 0);
                let mut r_lin = self.linearize(right, false, 0, 0);
                let ghost l1 = ir_list_model(l_lin.ir_list@);
                let ghost l2 = ir_list_model(r_lin.ir_list@);
                let mut list: Vec<IrNode> = Vec::new();
                append_nodes(&mut list, &mut l_lin.ir_list);
                append_nodes(&mut list, &mut r_lin.ir_list);
                assert(ir_list_model(list@) =~= l1 + l2);
                let mut tt = ast.type_ref;
                tt.pointer = tt.pointer + 1;
                let size = ast.type_ref.get_size();
                let offset_register = self.compute_offset(&mut list, tt, r_lin.result_register, size);
                let sum_register = self.compute_sum(&mut list, tt, l_lin.result_register, offset_register);
                let mut result_register = sum_register;
                if !get_address {
                    let r = self.get_register();
                    push_node(&mut list, IrNode::LoadR(ast.type_ref, r, sum_register));
                    result_register = r;
                }
                LirgenResult { ir_list: list, result_register }
            },
            _ => LirgenResult::default(),
        }
    }

    /// Linearises a prefix operation.
    fn linearize_prefix_node(&mut self, ast: &AstNodeWrapper, get_address: bool) -> (r: LirgenResult)
        requires
            lin_prefix(old(self)@, ast@, get_address) is Some,
        ensures
            lin_prefix(old(self)@, ast@, get_address) == result_model(final(self)@, r),
        decreases *ast, 0nat,
    {
        match &ast.node {
            AstNode::PrefixNode(token, expr) => match &token.tk {
                Tk::Operator(op) => {
                    let op = *op;
                    if op == Operator::Not || op == Operator::Minus || op == Operator::Complement {
                        let mut exp_lin = self.linearize(expr, false, 0, 0);
                        let ghost l1 = ir_list_model(exp_lin.ir_list@);
                        let result_register = self.get_register();
                        let mut list: Vec<IrNode> = Vec::new();
                        append_nodes(&mut list, &mut exp_lin.ir_list);
                        let node = IrNode::Unary(ast.type_ref, op, result_register, exp_lin.result_register);
                        push_node(&mut list, node);
                        assert(ir_list_model(list@) =~= l1.push(node@));
                        LirgenResult { ir_list: list, result_register }
                    } else if op == Operator::Asterisk {
                        let mut found_primary = false;
                        let mut result_register: u32 = 0;
                        let mut list: Vec<IrNode> = Vec::new();
                        match &expr.node {
                            AstNode::PrimaryNode(tk) => {
                                let id = tk.tk.get_identifier();
                                match self.get_variables(&id) {
                                    Some(l) => {
                                        result_register = l;
                                        found_primary = true;
                                    },
                                    None => {},
                                }
                            },
                            _ => {},
                        }
                        if !found_primary {
                            let mut exp_lin = self.linearize(expr, true, 0, 0);
                            let ghost l1 = ir_list_model(exp_lin.ir_list@);
                            append_nodes(&mut list, &mut exp_lin.ir_list);
                            let r = self.get_register();
                            let mut tt = ast.type_ref;
                            tt.pointer = tt.pointer + 1;
                            let node = IrNode::LoadR(tt, r, exp_lin.result_register);
                            push_node(&mut list, node);
                            assert(ir_list_model(list@) =~= l1.push(node@));
                            result_register = r;
                        }
                        if !get_address {
                            let r = self.get_register();
                            push_node(&mut list, IrNode::LoadR(ast.type_ref, r, result_register));
                            result_register = r;
                        }
                        LirgenResult { ir_list: list, result_register }
                    } else if op == Operator::AndOp {
                        self.linearize(expr, true, 0, 0)
                    } else if op == Operator::Plus {
                        self.linearize(expr, false, 0, 0)
                    } else {
                        LirgenResult::default()
                    }
                },
                _ => LirgenResult::default(),
            },
            _ => LirgenResult::default(),
        }
    }

    /// Linearises an array declaration.
    fn linearize_array_decl_node(&mut self, ast: &AstNodeWrapper, get_address: bool) -> (r: LirgenResult)
        requires
            lin_array_decl(old(self)@, ast@, get_address) is Some,
        ensures
            lin_array_decl(old(self)@, ast@, get_address) == result_model(final(self)@, r),
        decreases *ast, 0nat,
    {
        match &ast.node {
            AstNode::ArrayDeclNode(tt, name, expression) => {
                proof {
                    lemma_wrapper_model(*ast);
                    lemma_wrapper_model(**tt);
                    lemma_wrapper_model(**expression);
                }
                let mut expression_lin = self.linearize(expression, get_address, 0, 0);
                let ghost l1 = ir_list_model(expression_lin.ir_list@);
                let init_register = expression_lin.result_register;
                let result_register_v = self.get_register();
                let id = name.tk.get_identifier();
                let store_node = IrNode::Alloc(
                    tt.type_ref,
                    result_register_v,
                    0,
                    self.is_global,
                    init_register,
                    true,
                    id.clone(),
                );
                let mut list: Vec<IrNode> = Vec::new();
                append_nodes(&mut list, &mut expression_lin.ir_list);
                push_node(&mut list, store_node);
                let size = tt.type_ref.get_size();
                let mut ptt = tt.type_ref;
                let result_register = self.get_register();
                ptt.pointer = ptt.pointer + 1;
                let store_pointer = IrNode::Alloc(
                    ptt,
                    result_register,
                    result_register_v,
                    self.is_global,
                    size,
                    false,
                    id.clone(),
                );
                push_node(&mut list, store_pointer);
                assert(ir_list_model(list@) =~= l1.push(store_node@).push(store_pointer@));
                self.add_pointer_variable(&id, result_register);
                LirgenResult { ir_list: list, result_register }
            },
            _ => LirgenResult::default(),
        }
    }

    /// Linearises a `for` loop.
    #[verifier::rlimit(40)]
    fn linearize_for_node(&mut self, ast: &AstNodeWrapper, get_address: bool) -> (r: LirgenResult)
        requires
            lin_for(old(self)@, ast@, get_address) is Some,
        ensures
            lin_for(old(self)@, ast@, get_address) == result_model(final(self)@, r),
        decreases *ast, 0nat,
    {
        match &ast.node {
            AstNode::ForNode(expr1, expr2, expr3, body) => {
                let for_label = self.get_label();
                let for_start_label = self.get_label();
                let for_next_label = self.get_label();
                let for_end_label = self.get_label();
                let mut list: Vec<IrNode> = Vec::new();
                push_node(&mut list, IrNode::Label(for_label));
                let mut expr1_lin = self.linearize(expr1, get_address, 0, 0);
                let ghost l1 = ir_list_model(expr1_lin.ir_list@);
                append_nodes(&mut list, &mut expr1_lin.ir_list);
                push_node(&mut list, IrNode::Label(for_start_label));
                let (old_to_invalidate, old_constant_values, old_to_invalidate_variable) = self.start_invalidate();
                self.clear_variable_values();
                let mut bc = self.add_branch_condition(expr2, for_end_label);
                let ghost lbc = ir_list_model(bc@);
                append_nodes(&mut list, &mut bc);
                let mut body_lin = self.linearize(body, get_address, for_end_label, for_next_label);
                let ghost lb = ir_list_model(body_lin.ir_list@);
                append_nodes(&mut list, &mut body_lin.ir_list);
                push_node(&mut list, IrNode::Label(for_next_label));
                let mut expr3_lin = self.linearize(expr3, get_address, 0, 0);
                let ghost l3 = ir_list_model(expr3_lin.ir_list@);
                append_nodes(&mut list, &mut expr3_lin.ir_list);
                push_node(&mut list, IrNode::Branch(CompareType::Always, ast.type_ref, 0, 0, for_start_label));
                push_node(&mut list, IrNode::Label(for_end_label));
                self.end_invalidate(old_to_invalidate, old_constant_values, old_to_invalidate_variable);
                assert(ir_list_model(list@) =~= seq![IrModel::Label(for_label)] + l1 + seq![
                    IrModel::Label(for_start_label),
                ] + lbc + lb + seq![IrModel::Label(for_next_label)] + l3 + seq![
                    IrModel::Branch(CompareType::Always, ast@.type_ref, 0, 0, for_start_label),
                    IrModel::Label(for_end_label),
                ]);
                LirgenResult { ir_list: list, result_register: 0 }
            },
            _ => LirgenResult::default(),
        }
    }

    /// Linearises a `while` loop.
    fn linearize_while_node(&mut self, ast: &AstNodeWrapper, get_address: bool) -> (r: LirgenResult)
        requires
            lin_while(old(self)@, ast@, get_address) is Some,
        ensures
            lin_while(old(self)@, ast@, get_address) == result_model(final(self)@, r),
        decreases *ast, 0nat,
    {
        match &ast.node {
            AstNode::WhileNode(expr, body) => {
                let while_label = self.get_label();
                let while_end_label = self.get_label();
                let (old_to_invalidate, old_constant_values, old_to_invalidate_variable) = self.start_invalidate();
                self.clear_variable_values();
                let mut list: Vec<IrNode> = Vec::new();
                push_node(&mut list, IrNode::Label(while_label));
                let mut bc = self.add_branch_condition(expr, while_end_label);
                let ghost lbc = ir_list_model(bc@);
                append_nodes(&mut list, &mut bc);
                let mut body_lin = self.linearize(body, get_address, while_end_label, while_label);
                let ghost lb = ir_list_model(body_lin.ir_list@);
                append_nodes(&mut list, &mut body_lin.ir_list);
                push_node(&mut list, IrNode::Branch(CompareType::Always, ast.type_ref, 0, 0, while_label));
                push_node(&mut list, IrNode::Label(while_end_label));
                self.end_invalidate(old_to_invalidate, old_constant_values, old_to_invalidate_variable);
                assert(ir_list_model(list@) =~= seq![IrModel::Label(while_label)] + lbc + lb + seq![
                    IrModel::Branch(CompareType::Always, ast@.type_ref, 0, 0, while_label),
                    IrModel::Label(while_end_label),
                ]);
                LirgenResult { ir_list: list, result_register: 0 }
            },
            _ => LirgenResult::default(),
        }
    }

    /// Linearises a conditional.
    #[verifier::rlimit(40)]
    fn linearize_if_node(&mut self, ast: &AstNodeWrapper, get_address: bool, break_dest: u32, continue_dest: u32) -> (r: LirgenResult)
        requires
            lin_if(old(self)@, ast@, get_address, break_dest, continue_dest) is Some,
        ensures
            lin_if(old(self)@, ast@, get_address, break_dest, continue_dest) == result_model(final(self)@, r),
        decreases *ast, 0nat,
    {
        match &ast.node {
            AstNode::IfNode(expr, body, else_body) => {
                let if_end_label = self.get_label();
                let has_else = !else_body.is_null();
                let if_else_label = if has_else {
                    self.get_label()
                } else {
                    if_end_label
                };
                let mut list: Vec<IrNode> = Vec::new();
                let mut bc = self.add_branch_condition(expr, if_else_label);
                let ghost lbc = ir_list_model(bc@);
                append_nodes(&mut list, &mut bc);
                let (old_to_invalidate, old_constant_values, old_to_invalidate_variable) = self.start_invalidate();
                let mut body_lin = self.linearize(body, get_address, break_dest, continue_dest);
                let ghost lb = ir_list_model(body_lin.ir_list@);
                append_nodes(&mut list, &mut body_lin.ir_list);
                self.end_invalidate(old_to_invalidate, old_constant_values, old_to_invalidate_variable);
                let ghost after_then = ir_list_model(list@);
                assert(after_then =~= lbc + lb);
                if has_else {
                    let (old_to_invalidate2, old_constant_values2, old_to_invalidate_variable2) = self.start_invalidate();
                    push_node(&mut list, IrNode::Branch(CompareType::Always, expr.type_ref, 0, 0, if_end_label));
                    push_node(&mut list, IrNode::Label(if_else_label));
                    let mut else_lin = self.linearize(else_body, get_address, break_dest, continue_dest);
                    let ghost le = ir_list_model(else_lin.ir_list@);
                    append_nodes(&mut list, &mut else_lin.ir_list);
                    self.end_invalidate(old_to_invalidate2, old_constant_values2, old_to_invalidate_variable2);
                    push_node(&mut list, IrNode::Label(if_end_label));
                    assert(ir_list_model(list@) =~= lbc + lb + seq![
                        IrModel::Branch(CompareType::Always, expr@.type_ref, 0, 0, if_end_label),
                        IrModel::Label(if_else_label),
                    ] + le + seq![IrModel::Label(if_end_label)]);
                } else {
                    push_node(&mut list, IrNode::Label(if_end_label));
                    assert(ir_list_model(list@) =~= lbc + lb + seq![IrModel::Label(if_end_label)]);
                }
                LirgenResult { ir_list: list, result_register: 0 }
            },
            _ => LirgenResult::default(),
        }
    }
}

impl Lirgen {
    /// Linearises a call.
    fn linearize_procedure_node(&mut self, ast: &AstNodeWrapper) -> (r: LirgenResult)
        requires
            lin_procedure(old(self)@, ast@) is Some,
        ensures
            lin_procedure(old(self)@, ast@) == result_model(final(self)@, r),
        decreases *ast, 0nat,
    {
        match &ast.node {
            AstNode::ProcedureNode(primary, params) => match &primary.node {
                AstNode::PrimaryNode(tk) => {
                    proof {
                        lemma_wrapper_model(*ast);
                        lemma_wrapper_model(**primary);
                    }
                    let id = tk.tk.get_identifier();
                    let ghost ps = crate::ast::ast_impl::list_model(params@);
                    proof {
                        crate::ast::ast_impl::lemma_list_model(params@);
                    }
                    let ghost s0 = self@;
                    let mut list: Vec<IrNode> = Vec::new();
                    let mut list_params: Vec<u32> = Vec::new();
                    let mut i: usize = 0;
                    assert(ps.subrange(0, ps.len() as int) =~= ps);
                    assert(lin_arguments(s0, ps) == match lin_arguments(self@, ps.subrange(i as int, ps.len() as int)) {
                        Some((sf, l, rs)) => Some((sf, ir_list_model(list@) + l, list_params@ + rs)),
                        None => None,
                    }) by {
                        match lin_arguments(s0, ps) {
                            Some((sf, l, rs)) => {
                                assert(Seq::<IrModel>::empty() + l =~= l);
                                assert(Seq::<u32>::empty() + rs =~= rs);
                            },
                            None => {},
                        }
                    }
                    while i < params.len()
                        invariant
                            i <= params.len(),
                            ps == crate::ast::ast_impl::list_model(params@),
                            ps.len() == params.len(),
                            forall|k: int| 0 <= k < params.len() ==> #[trigger] ps[k] == params@[k]@,
                            ast.node == AstNode::ProcedureNode(*primary, *params),
                            lin_arguments(s0, ps) is Some,
                            lin_arguments(s0, ps) == match lin_arguments(self@, ps.subrange(i as int, ps.len() as int)) {
                                Some((sf, l, rs)) => Some((sf, ir_list_model(list@) + l, list_params@ + rs)),
                                None => None,
                            },
                        decreases params.len() - i,
                    {
                        let ghost rest = ps.subrange(i as int, ps.len() as int);
                        assert(rest[0] == params@[i as int]@);
                        assert(rest.drop_first() =~= ps.subrange(i + 1, ps.len() as int));
                        assert(decreases_to!(*ast => params@[i as int])) by {
                            assert(decreases_to!(*ast => ast.node));
                            assert(decreases_to!(ast.node => ast.node->ProcedureNode_1));
                            assert(decreases_to!(*params => params@));
                            assert(decreases_to!(params@ => params@[i as int]));
                        }
                        let ghost acc = ir_list_model(list@);
                        let ghost regs = list_params@;
                        let mut linearized = self.linearize(&params[i], false, 0, 0);
                        let ghost l1 = ir_list_model(linearized.ir_list@);
                        append_nodes(&mut list, &mut linearized.ir_list);
                        list_params.push(linearized.result_register);
                        proof {
                            match lin_arguments(self@, ps.subrange(i + 1, ps.len() as int)) {
                                Some((sf, l, rs)) => {
                                    assert(acc + (l1 + l) =~= acc + l1 + l);
                                    assert(regs + (seq![linearized.result_register] + rs) =~= regs.push(
                                        linearized.result_register,
                                    ) + rs);
                                },
                                None => {},
                            }
                        }
                        i = i + 1;
                    }
                    proof {
                        assert(ps.subrange(ps.len() as int, ps.len() as int) =~= Seq::<WrapperModel>::empty());
                        assert(ir_list_model(list@) + Seq::<IrModel>::empty() =~= ir_list_model(list@));
                        assert(list_params@ + Seq::<u32>::empty() =~= list_params@);
                    }
                    let result_register = if ast.type_ref.type_native == TypeNative::Void {
                        0
                    } else {
                        self.get_register()
                    };
                    let node = IrNode::Call(id, ast.type_ref, list_params, result_register);
                    push_node(&mut list, node);
                    self.clear_variable_values();
                    LirgenResult { ir_list: list, result_register }
                },
                _ => LirgenResult::default(),
            },
            _ => LirgenResult::default(),
        }
    }

    /// Linearises `return`, `continue` and `break`.
    fn linearize_jump_node(&mut self, ast: &AstNodeWrapper, get_address: bool, break_dest: u32, continue_dest: u32) -> (r: LirgenResult)
        requires
            lin_jump(old(self)@, ast@, get_address, break_dest, continue_dest) is Some,
        ensures
            lin_jump(old(self)@, ast@, get_address, break_dest, continue_dest) == result_model(final(self)@, r),
        decreases *ast, 0nat,
    {
        match &ast.node {
            AstNode::JumpNode(token, expr) => {
                let mut list: Vec<IrNode> = Vec::new();
                match &token.tk {
                    Tk::Keyword(Keyword::Return) => {
                        if !expr.is_null() {
                            let mut e_lin = self.linearize(expr, get_address, 0, 0);
                            let ghost l1 = ir_list_model(e_lin.ir_list@);
                            append_nodes(&mut list, &mut e_lin.ir_list);
                            let node = IrNode::Return(expr.type_ref, e_lin.result_register);
                            push_node(&mut list, node);
                            assert(ir_list_model(list@) =~= l1.push(node@));
                        } else {
                            push_node(&mut list, IrNode::Return(expr.type_ref, 0));
                            assert(ir_list_model(list@) =~= seq![IrModel::Return(expr@.type_ref, 0)]);
                        }
                    },
                    Tk::Keyword(Keyword::Continue) => {
                        push_node(&mut list, IrNode::Branch(CompareType::Always, ast.type_ref, 0, 0, continue_dest));
                        assert(ir_list_model(list@) =~= seq![
                            IrModel::Branch(CompareType::Always, ast@.type_ref, 0, 0, continue_dest),
                        ]);
                    },
                    Tk::Keyword(Keyword::Break) => {
                        push_node(&mut list, IrNode::Branch(CompareType::Always, ast.type_ref, 0, 0, break_dest));
                        assert(ir_list_model(list@) =~= seq![
                            IrModel::Branch(CompareType::Always, ast@.type_ref, 0, 0, break_dest),
                        ]);
                    },
                    _ => {},
                }
                LirgenResult { ir_list: list, result_register: 0 }
            },
            _ => LirgenResult::default(),
        }
    }

    /// Linearises a block, statement after statement.
    fn linearize_compound_node(&mut self, ast: &AstNodeWrapper, get_address: bool, break_dest: u32, continue_dest: u32) -> (r: LirgenResult)
        requires
            lin_compound(old(self)@, ast@, get_address, break_dest, continue_dest) is Some,
        ensures
            lin_compound(old(self)@, ast@, get_address, break_dest, continue_dest) == result_model(final(self)@, r),
        decreases *ast, 0nat,
    {
        match &ast.node {
            AstNode::CompoundNode(statements) => {
                let ghost ws = crate::ast::ast_impl::list_model(statements@);
                proof {
                    crate::ast::ast_impl::lemma_list_model(statements@);
                }
                let ghost s0 = self@;
                let mut list: Vec<IrNode> = Vec::new();
                let mut i: usize = 0;
                assert(ws.subrange(0, ws.len() as int) =~= ws);
                assert(lin_statements(s0, ws, get_address, break_dest, continue_dest) == match lin_statements(
                    self@,
                    ws.subrange(i as int, ws.len() as int),
                    get_address,
                    break_dest,
                    continue_dest,
                ) {
                    Some((sf, l)) => Some((sf, ir_list_model(list@) + l)),
                    None => None,
                }) by {
                    match lin_statements(s0, ws, get_address, break_dest, continue_dest) {
                        Some((sf, l)) => {
                            assert(Seq::<IrModel>::empty() + l =~= l);
                        },
                        None => {},
                    }
                }
                while i < statements.len()
                    invariant
                        i <= statements.len(),
                        ws == crate::ast::ast_impl::list_model(statements@),
                        ws.len() == statements.len(),
                        forall|k: int| 0 <= k < statements.len() ==> #[trigger] ws[k] == statements@[k]@,
                        lin_statements(s0, ws, get_address, break_dest, continue_dest) is Some,
                        ast.node == AstNode::CompoundNode(*statements),
                        lin_statements(s0, ws, get_address, break_dest, continue_dest) == match lin_statements(
                            self@,
                            ws.subrange(i as int, ws.len() as int),
                            get_address,
                            break_dest,
                            continue_dest,
                        ) {
                            Some((sf, l)) => Some((sf, ir_list_model(list@) + l)),
                            None => None,
                        },
                    decreases statements.len() - i,
                {
                    let ghost rest = ws.subrange(i as int, ws.len() as int);
                    assert(rest[0] == statements@[i as int]@);
                    assert(rest.drop_first() =~= ws.subrange(i + 1, ws.len() as int));
                    assert(decreases_to!(*ast => statements@[i as int])) by {
                        assert(decreases_to!(*ast => ast.node));
                        assert(decreases_to!(ast.node => ast.node->CompoundNode_0));
                        assert(decreases_to!(*statements => statements@));
                        assert(decreases_to!(statements@ => statements@[i as int]));
                    }
                    let ghost acc = ir_list_model(list@);
                    let mut l_lin = self.linearize(&statements[i], get_address, break_dest, continue_dest);
                    let ghost l1 = ir_list_model(l_lin.ir_list@);
                    append_nodes(&mut list, &mut l_lin.ir_list);
                    proof {
                        match lin_statements(self@, ws.subrange(i + 1, ws.len() as int), get_address, break_dest, continue_dest) {
                            Some((sf, l)) => {
                                assert(acc + (l1 + l) =~= acc + l1 + l);
                            },
                            None => {},
                        }
                    }
                    i = i + 1;
                }
                proof {
                    assert(ws.subrange(ws.len() as int, ws.len() as int) =~= Seq::<WrapperModel>::empty());
                    assert(ir_list_model(list@) + Seq::<IrModel>::empty() =~= ir_list_model(list@));
                }
                LirgenResult { ir_list: list, result_register: 0 }
            },
            _ => LirgenResult::default(),
        }
    }
}

impl Lirgen {
    /// Records that register `r` holds the value just assigned to variable `id`, to be forgotten
    /// at the end of the current conditional block.
    fn record_assignment(&mut self, id: String, r: u32)
        ensures
            final(self)@ == (LirState {
                to_invalidate_variable: old(self)@.to_invalidate_variable.push(id@),
                values: old(self)@.values.insert(id@, r),
                ..old(self)@
            }),
    {
        self.to_invalidate_variable.push(id.clone());
        let ghost before = self.variable_values@;
        self.variable_values.push((id, r));
        proof {
            assert(named_entries(self.variable_values@) =~= named_entries(before).push((id@, r)));
            lemma_assoc_push(named_entries(before), id@, r);
            assert(string_seq(self.to_invalidate_variable@) =~= old(self)@.to_invalidate_variable.push(id@));
        }
        assert(self@ =~= (LirState {
            to_invalidate_variable: old(self)@.to_invalidate_variable.push(id@),
            values: old(self)@.values.insert(id@, r),
            ..old(self)@
        }));
    }

    /// Linearises a program: the functions first, each with fresh registers, then the global
    /// declarations gathered in the `init` function with the call to `main`.
    #[verifier::rlimit(40)]
    fn linearize_declaration_list(&mut self, ast: &AstNodeWrapper) -> (r: LirgenResult)
        requires
            lin_declaration_list(old(self)@, ast@) is Some,
        ensures
            lin_declaration_list(old(self)@, ast@) == result_model(final(self)@, r),
        decreases *ast, 0nat,
    {
        match &ast.node {
            AstNode::DeclarationList(list) => {
                let ghost ws = crate::ast::ast_impl::list_model(list@);
                proof {
                    crate::ast::ast_impl::lemma_list_model(list@);
                }
                let ghost s0 = self@;
                let mut functions_decl: Vec<IrNode> = Vec::new();
                let mut var_decl: Vec<IrNode> = Vec::new();
                let mut i: usize = 0;
                assert(ws.subrange(0, ws.len() as int) =~= ws);
                assert(lin_functions(s0, ws) == match lin_functions(self@, ws.subrange(i as int, ws.len() as int)) {
                    Some((sf, l)) => Some((sf, ir_list_model(functions_decl@) + l)),
                    None => None,
                }) by {
                    match lin_functions(s0, ws) {
                        Some((sf, l)) => {
                            assert(Seq::<IrModel>::empty() + l =~= l);
                        },
                        None => {},
                    }
                }
                while i < list.len()
                    invariant
                        i <= list.len(),
                        ws == crate::ast::ast_impl::list_model(list@),
                        ws.len() == list.len(),
                        forall|k: int| 0 <= k < list.len() ==> #[trigger] ws[k] == list@[k]@,
                        lin_declaration_list(s0, ast@) is Some,
                        ast.node == AstNode::DeclarationList(*list),
                        ast@.node == AstModel::DeclarationList(ws),
                        ir_list_model(var_decl@) == Seq::<IrModel>::empty(),
                        lin_functions(s0, ws) == match lin_functions(self@, ws.subrange(i as int, ws.len() as int)) {
                            Some((sf, l)) => Some((sf, ir_list_model(functions_decl@) + l)),
                            None => None,
                        },
                    decreases list.len() - i,
                {
                    let ghost rest = ws.subrange(i as int, ws.len() as int);
                    assert(rest[0] == list@[i as int]@);
                    assert(rest.drop_first() =~= ws.subrange(i + 1, ws.len() as int));
                    match &list[i].node {
                        AstNode::FuncDeclNode(..) => {
                            assert(decreases_to!(*ast => list@[i as int])) by {
                                assert(decreases_to!(*ast => ast.node));
                                assert(decreases_to!(ast.node => ast.node->DeclarationList_0));
                                assert(decreases_to!(*list => list@));
                                assert(decreases_to!(list@ => list@[i as int]));
                            }
                            let ghost acc = ir_list_model(functions_decl@);
                            let mut lin = self.linearize(&list[i], false, 0, 0);
                            let ghost l1 = ir_list_model(lin.ir_list@);
                            append_nodes(&mut functions_decl, &mut lin.ir_list);
                            append_nodes(&mut var_decl, &mut lin.ir_list);
                            assert(ir_list_model(var_decl@) =~= Seq::<IrModel>::empty());
                            self.erase_registers();
                            proof {
                                match lin_functions(self@, ws.subrange(i + 1, ws.len() as int)) {
                                    Some((sf, l)) => {
                                        assert(acc + (l1 + l) =~= acc + l1 + l);
                                    },
                                    None => {},
                                }
                            }
                        },
                        _ => {},
                    }
                    i = i + 1;
                }
                proof {
                    assert(ws.subrange(ws.len() as int, ws.len() as int) =~= Seq::<WrapperModel>::empty());
                    assert(ir_list_model(functions_decl@) + Seq::<IrModel>::empty() =~= ir_list_model(
                        functions_decl@,
                    ));
                }
                self.is_global = true;
                let ghost s1 = self@;
                let mut i: usize = 0;
                assert(lin_globals(s1, ws) == match lin_globals(self@, ws.subrange(i as int, ws.len() as int)) {
                    Some((sf, l)) => Some((sf, ir_list_model(var_decl@) + l)),
                    None => None,
                }) by {
                    match lin_globals(s1, ws) {
                        Some((sf, l)) => {
                            assert(Seq::<IrModel>::empty() + l =~= l);
                        },
                        None => {},
                    }
                }
                while i < list.len()
                    invariant
                        i <= list.len(),
                        ws == crate::ast::ast_impl::list_model(list@),
                        ws.len() == list.len(),
                        forall|k: int| 0 <= k < list.len() ==> #[trigger] ws[k] == list@[k]@,
                        lin_globals(s1, ws) is Some,
                        ast.node == AstNode::DeclarationList(*list),
                        lin_globals(s1, ws) == match lin_globals(self@, ws.subrange(i as int, ws.len() as int)) {
                            Some((sf, l)) => Some((sf, ir_list_model(var_decl@) + l)),
                            None => None,
                        },
                    decreases list.len() - i,
                {
                    let ghost rest = ws.subrange(i as int, ws.len() as int);
                    assert(rest[0] == list@[i as int]@);
                    assert(rest.drop_first() =~= ws.subrange(i + 1, ws.len() as int));
                    match &list[i].node {
                        AstNode::FuncDeclNode(..) => {},
                        _ => {
                            assert(decreases_to!(*ast => list@[i as int])) by {
                                assert(decreases_to!(*ast => ast.node));
                                assert(decreases_to!(ast.node => ast.node->DeclarationList_0));
                                assert(decreases_to!(*list => list@));
                                assert(decreases_to!(list@ => list@[i as int]));
                            }
                            let ghost acc = ir_list_model(var_decl@);
                            let mut lin = self.linearize(&list[i], false, 0, 0);
                            let ghost l1 = ir_list_model(lin.ir_list@);
                            append_nodes(&mut var_decl, &mut lin.ir_list);
                            proof {
                                match lin_globals(self@, ws.subrange(i + 1, ws.len() as int)) {
                                    Some((sf, l)) => {
                                        assert(acc + (l1 + l) =~= acc + l1 + l);
                                    },
                                    None => {},
                                }
                            }
                        },
                    }
                    i = i + 1;
                }
                proof {
                    assert(ws.subrange(ws.len() as int, ws.len() as int) =~= Seq::<WrapperModel>::empty());
                    assert(ir_list_model(var_decl@) + Seq::<IrModel>::empty() =~= ir_list_model(var_decl@));
                }
                let ghost globals = ir_list_model(var_decl@);
                let main_call = IrNode::Call(crate::text::string_from("main"), TypeWrapper::default(), Vec::new(), 0);
                push_node(&mut var_decl, main_call);
                push_node(&mut var_decl, IrNode::Label(0));
                push_node(&mut var_decl, IrNode::Branch(CompareType::Always, TypeWrapper::default(), 0, 0, 0));
                assert(ir_list_model(var_decl@) =~= globals + init_tail());
                let init_node = IrNode::FunctionDeclaration(
                    crate::text::string_from("init"),
                    TypeWrapper::default(),
                    Vec::new(),
                    var_decl,
                );
                let mut result: Vec<IrNode> = Vec::new();
                let ghost funcs = ir_list_model(functions_decl@);
                push_node(&mut result, init_node);
                append_nodes(&mut result, &mut functions_decl);
                assert(ir_list_model(result@) =~= seq![init_node@] + funcs);
                LirgenResult { ir_list: result, result_register: 0 }
            },
            _ => LirgenResult::default(),
        }
    }

    /// Linearises a variable declaration.
    fn linearize_var_decl_node(&mut self, ast: &AstNodeWrapper) -> (r: LirgenResult)
        requires
            lin_var_decl(old(self)@, ast@) is Some,
        ensures
            lin_var_decl(old(self)@, ast@) == result_model(final(self)@, r),
        decreases *ast, 0nat,
    {
        match &ast.node {
            AstNode::VarDeclNode(tt, name, expression) => {
                proof {
                    lemma_wrapper_model(*ast);
                    lemma_wrapper_model(**tt);
                    lemma_wrapper_model(**expression);
                }
                let mut list: Vec<IrNode> = Vec::new();
                let id = name.tk.get_identifier();
                let ghost l1: Seq<IrModel>;
                let init_register = if !expression.is_null() {
                    let mut expression_lin = self.linearize(expression, false, 0, 0);
                    proof {
                        l1 = ir_list_model(expression_lin.ir_list@);
                    }
                    append_nodes(&mut list, &mut expression_lin.ir_list);
                    self.add_variable(&id, expression_lin.result_register);
                    expression_lin.result_register
                } else {
                    proof {
                        l1 = Seq::empty();
                    }
                    0
                };
                assert(ir_list_model(list@) =~= l1);
                let result_register = self.get_register();
                let store_node = IrNode::Alloc(
                    tt.type_ref,
                    result_register,
                    init_register,
                    self.is_global,
                    1,
                    false,
                    id.clone(),
                );
                push_node(&mut list, store_node);
                self.add_pointer_variable(&id, result_register);
                LirgenResult { ir_list: list, result_register }
            },
            _ => LirgenResult::default(),
        }
    }

    /// Linearises an identifier, an integer or a character.
    fn linearize_primary_node(&mut self, ast: &AstNodeWrapper, get_address: bool) -> (r: LirgenResult)
        requires
            lin_primary(old(self)@, ast@, get_address) is Some,
        ensures
            lin_primary(old(self)@, ast@, get_address) == result_model(final(self)@, r),
        decreases *ast, 0nat,
    {
        match &ast.node {
            AstNode::PrimaryNode(token) => match &token.tk {
                Tk::Identifier(id) => {
                    let mut list: Vec<IrNode> = Vec::new();
                    let load_register;
                    let mut result_register;
                    match self.get_pointer_variable(id) {
                        Some(l) => {
                            load_register = l;
                            result_register = l;
                        },
                        None => {
                            load_register = self.get_register();
                            let mut tt = ast.type_ref;
                            tt.pointer = tt.pointer + 1;
                            push_node(&mut list, IrNode::LoadA(tt, load_register, id.clone()));
                            result_register = load_register;
                        },
                    }
                    if get_address {
                        return LirgenResult { ir_list: list, result_register };
                    }
                    match self.get_variables(id) {
                        Some(l) => {
                            result_register = l;
                        },
                        None => {
                            let r = self.get_register();
                            push_node(&mut list, IrNode::LoadR(ast.type_ref, r, load_register));
                            result_register = r;
                            self.add_variable(id, r);
                        },
                    }
                    LirgenResult { ir_list: list, result_register }
                },
                Tk::IntegerLiteral(num) => {
                    let c = *num as u32;
                    let mut list: Vec<IrNode> = Vec::new();
                    match self.get_constant(c) {
                        Some(l) => LirgenResult { ir_list: list, result_register: l },
                        None => {
                            let result_register = self.get_register();
                            push_node(&mut list, IrNode::MovC(ast.type_ref, result_register, c));
                            self.add_constant(result_register, c);
                            LirgenResult { ir_list: list, result_register }
                        },
                    }
                },
                Tk::Char(c) => {
                    let result_register = self.get_register();
                    let mut list: Vec<IrNode> = Vec::new();
                    push_node(&mut list, IrNode::MovC(ast.type_ref, result_register, *c as u32));
                    LirgenResult { ir_list: list, result_register }
                },
                _ => LirgenResult::default(),
            },
            _ => LirgenResult::default(),
        }
    }

    /// Linearises a binary operation or an assignment.
    fn linearize_binary_node(&mut self, ast: &AstNodeWrapper, get_address: bool) -> (r: LirgenResult)
        requires
            lin_binary(old(self)@, ast@, get_address) is Some,
        ensures
            lin_binary(old(self)@, ast@, get_address) == result_model(final(self)@, r),
        decreases *ast, 0nat,
    {
        match &ast.node {
            AstNode::BinaryNode(token, exp1, exp2) => {
                let is_assign = match &token.tk {
                    Tk::Operator(Operator::Assign) => true,
                    _ => false,
                };
                if is_assign {
                    let mut exp1_lin = self.linearize(exp1, true, 0, 0);
                    let mut exp2_lin = self.linearize(exp2, get_address, 0, 0);
                    let ghost l1 = ir_list_model(exp1_lin.ir_list@);
                    let ghost l2 = ir_list_model(exp2_lin.ir_list@);
                    let new_op = IrNode::Store(ast.type_ref, exp1_lin.result_register, exp2_lin.result_register);
                    let mut list: Vec<IrNode> = Vec::new();
                    append_nodes(&mut list, &mut exp1_lin.ir_list);
                    append_nodes(&mut list, &mut exp2_lin.ir_list);
                    push_node(&mut list, new_op);
                    assert(ir_list_model(list@) =~= l1 + l2 + seq![new_op@]);
                    match &exp1.node {
                        AstNode::PrimaryNode(tk) => {
                            let id = tk.tk.get_identifier();
                            self.record_assignment(id, exp2_lin.result_register);
                        },
                        _ => self.clear_variable_values(),
                    }
                    let result_register = if get_address {
                        exp1_lin.result_register
                    } else {
                        exp2_lin.result_register
                    };
                    return LirgenResult { ir_list: list, result_register };
                }
                let mut exp1_lin = self.linearize(exp1, get_address, 0, 0);
                let mut exp2_lin = self.linearize(exp2, get_address, 0, 0);
                let operator = match &token.tk {
                    Tk::Operator(o) => *o,
                    _ => {
                        return LirgenResult::default();
                    },
                };
                match self.get_computed_binary(exp1_lin.result_register, exp2_lin.result_register, &operator) {
                    Some(dest) => {
                        return LirgenResult { ir_list: Vec::new(), result_register: dest };
                    },
                    None => {},
                }
                let ghost l1 = ir_list_model(exp1_lin.ir_list@);
                let ghost l2 = ir_list_model(exp2_lin.ir_list@);
                let result_register = self.get_register();
                self.add_computed_binary((operator, result_register, exp1_lin.result_register, exp2_lin.result_register));
                let new_op = IrNode::Binary(operator, ast.type_ref, result_register, exp1_lin.result_register, exp2_lin.result_register);
                let mut list: Vec<IrNode> = Vec::new();
                append_nodes(&mut list, &mut exp1_lin.ir_list);
                append_nodes(&mut list, &mut exp2_lin.ir_list);
                push_node(&mut list, new_op);
                assert(ir_list_model(list@) =~= l1 + l2 + seq![new_op@]);
                LirgenResult { ir_list: list, result_register }
            },
            _ => LirgenResult::default(),
        }
    }

    /// Linearises a function declaration: its parameters are stored on the stack, then its body
    /// follows.
    fn linearize_func_decl_node(&mut self, ast: &AstNodeWrapper) -> (r: LirgenResult)
        requires
            lin_func_decl(old(self)@, ast@) is Some,
        ensures
            lin_func_decl(old(self)@, ast@) == result_model(final(self)@, r),
        decreases *ast, 0nat,
    {
        match &ast.node {
            AstNode::FuncDeclNode(rt, name, params, body) => {
                proof {
                    lemma_wrapper_model(*ast);
                    lemma_wrapper_model(**rt);
                    lemma_wrapper_model(**body);
                }
                let ghost ps = crate::ast::ast_impl::list_model(params@);
                proof {
                    crate::ast::ast_impl::lemma_list_model(params@);
                }
                let ghost s0 = self@;
                let n = params.len();
                let mut tt_list: Vec<TypeWrapper> = Vec::new();
                let mut ir_list: Vec<IrNode> = Vec::new();
                let mut i: usize = 0;
                assert(lin_parameters(s0, ps, 0) == match lin_parameters(self@, ps, i as int) {
                    Some((sf, ts, nodes)) => Some((sf, tt_list@ + ts, ir_list_model(ir_list@) + nodes)),
                    None => None,
                }) by {
                    match lin_parameters(s0, ps, 0) {
                        Some((sf, ts, nodes)) => {
                            assert(Seq::<IrModel>::empty() + nodes =~= nodes);
                            assert(Seq::<TypeWrapper>::empty() + ts =~= ts);
                        },
                        None => {},
                    }
                }
                while i < n
                    invariant
                        i <= n,
                        n == params.len(),
                        2 * n + 1 <= u32::MAX,
                        ps == crate::ast::ast_impl::list_model(params@),
                        ps.len() == params.len(),
                        forall|k: int| 0 <= k < params.len() ==> #[trigger] ps[k] == params@[k]@,
                        lin_parameters(s0, ps, 0) is Some,
                        lin_parameters(s0, ps, 0) == match lin_parameters(self@, ps, i as int) {
                            Some((sf, ts, nodes)) => Some((sf, tt_list@ + ts, ir_list_model(ir_list@) + nodes)),
                            None => None,
                        },
                    decreases n - i,
                {
                    assert(ps[i as int] == params@[i as int]@);
                    let name_param = match &params[i].node {
                        AstNode::ParameterNode(tk, ..) => tk.tk.get_identifier(),
                        _ => String::new(),
                    };
                    let ghost tts = tt_list@;
                    let ghost acc = ir_list_model(ir_list@);
                    tt_list.push(params[i].type_ref);
                    let address = i as u32 + 1 + n as u32;
                    let value = i as u32 + 1;
                    let store_node = IrNode::Alloc(
                        params[i].type_ref,
                        address,
                        value,
                        false,
                        1,
                        false,
                        name_param.clone(),
                    );
                    self.add_pointer_variable(&name_param, address);
                    self.add_variable(&name_param, value);
                    push_node(&mut ir_list, store_node);
                    proof {
                        match lin_parameters(self@, ps, i + 1) {
                            Some((sf, ts, nodes)) => {
                                assert(acc + (seq![store_node@] + nodes) =~= acc.push(store_node@) + nodes);
                                assert(tts + (seq![params@[i as int].type_ref] + ts) =~= tts.push(
                                    params@[i as int].type_ref,
                                ) + ts);
                            },
                            None => {},
                        }
                    }
                    i = i + 1;
                }
                proof {
                    assert(tt_list@ + Seq::<TypeWrapper>::empty() =~= tt_list@);
                    assert(ir_list_model(ir_list@) + Seq::<IrModel>::empty() =~= ir_list_model(ir_list@));
                }
                self.current_register = self.current_register + n as u32 * 2;
                let ghost s2 = self@;
                let mut body_lin = self.linearize(body, false, 0, 0);
                let ghost acc = ir_list_model(ir_list@);
                let ghost lb = ir_list_model(body_lin.ir_list@);
                append_nodes(&mut ir_list, &mut body_lin.ir_list);
                let func_node = IrNode::FunctionDeclaration(name.tk.get_identifier(), rt.type_ref, tt_list, ir_list);
                let mut result: Vec<IrNode> = Vec::new();
                push_node(&mut result, func_node);
                assert(ir_list_model(result@) =~= seq![func_node@]);
                LirgenResult { ir_list: result, result_register: 0 }
            },
            _ => LirgenResult::default(),
        }
    }
}

/// Every node produced for the functions of a list is a function declaration.
pub proof fn lemma_lin_functions_shape(s: LirState, ws: Seq<WrapperModel>)
    requires
        lin_functions(s, ws) is Some,
    ensures
        forall|k: int|
            0 <= k < lin_functions(s, ws).unwrap().1.len() ==> #[trigger] lin_functions(
                s,
                ws,
            ).unwrap().1[k] is FunctionDeclaration,
    decreases ws.len(),
{
    if ws.len() > 0 {
        if ws[0].node is FuncDeclNode {
            assert(lin(s, ws[0], false, 0, 0) == lin_func_decl(s, ws[0]));
            let (s1, l1, _) = lin(s, ws[0], false, 0, 0).unwrap();
            lemma_lin_functions_shape(st_erase(s1), ws.drop_first());
            let l2 = lin_functions(st_erase(s1), ws.drop_first()).unwrap().1;
            assert(l1.len() == 1 && l1[0] is FunctionDeclaration);
            assert forall|k: int| 0 <= k < (l1 + l2).len() implies #[trigger] (l1 + l2)[k] is FunctionDeclaration by {
                if k >= 1 {
                    assert((l1 + l2)[k] == l2[k - 1]);
                }
            }
        } else {
            lemma_lin_functions_shape(s, ws.drop_first());
        }
    }
}

/// Linearising a list of declarations gives a program made of function declarations, the
/// `init` function first, ending with the call to `main`: a program the optimizer accepts.
pub proof fn lemma_linearized_program(s: LirState, w: WrapperModel)
    requires
        w.node is DeclarationList,
        lin(s, w, false, 0, 0) is Some,
    ensures
        crate::optimizer::optimizer::is_program(IrModel::Program(lin(s, w, false, 0, 0).unwrap().1)),
        lin(s, w, false, 0, 0).unwrap().1[0] matches IrModel::FunctionDeclaration(name, _, args, body)
            && name == "init"@ && args.len() == 0 && body.len() >= 3 && body.subrange(
            body.len() - 3,
            body.len() as int,
        ) == init_tail(),
{
    let list = w.node->DeclarationList_0;
    assert(lin(s, w, false, 0, 0) == lin_declaration_list(s, w));
    let (s1, funcs) = lin_functions(s, list).unwrap();
    lemma_lin_functions_shape(s, list);
    let out = lin(s, w, false, 0, 0).unwrap().1;
    let (_, globals) = lin_globals(LirState { is_global: true, ..s1 }, list).unwrap();
    assert(out == seq![
        IrModel::FunctionDeclaration("init"@, default_type(), Seq::empty(), globals + init_tail()),
    ] + funcs);
    assert forall|k: int| 0 <= k < out.len() implies #[trigger] crate::optimizer::optimizer::is_function(
        out[k],
    ) by {
        if k >= 1 {
            assert(out[k] == funcs[k - 1]);
        }
    }
    assert((globals + init_tail()).subrange(globals.len() as int, globals.len() + 3int) =~= init_tail());
}

} // verus!
