//! Operator precedence and grouping of the expression parser: of two binary operators, the one
//! of the tighter tier of the grammar takes the operand between them, and of two of one tier the
//! first does; `*`, `/` and `%` bind tighter than `+` and `-`, whichever comes first.

use vstd::prelude::*;
use crate::ast::ast_impl::{AstModel, WrapperModel};
use crate::lexer::token::{Bracket, Operator, TkModel, TokenModel};
use crate::parser::parser::{
    level_op, node_at, node_from, p_cast, p_expr, p_level, p_level_rest, p_operand, p_post_ops, p_postfix, p_primary, p_unary,
    tk,
};

verus! {

/// A name or a number: an operand standing on its own.
pub open spec fn simple_operand(t: TkModel) -> bool {
    t is Identifier || t is IntegerLiteral
}

/// A token after which an expression cannot go on: no operator, no `[` and no `(`.
pub open spec fn ends_expression(t: TkModel) -> bool {
    !(t is Operator) && t != TkModel::Bracket(Bracket::LSquare) && t != TkModel::Bracket(Bracket::LBracket)
}

/// The additive operators `+` and `-`.
pub open spec fn additive(t: TkModel) -> bool {
    t == TkModel::Operator(Operator::Plus) || t == TkModel::Operator(Operator::Minus)
}

/// The multiplicative operators `*`, `/` and `%`.
pub open spec fn multiplicative(t: TkModel) -> bool {
    t == TkModel::Operator(Operator::Asterisk) || t == TkModel::Operator(Operator::Slash) || t
        == TkModel::Operator(Operator::Module)
}

/// Whether `w` is the leaf of the operand token at position `k`.
pub open spec fn is_leaf(w: WrapperModel, ts: Seq<TokenModel>, k: int) -> bool {
    w.node == AstModel::PrimaryNode(ts[k])
}

/// Whether `w` applies the operator token at position `k` to `x` and `y`, in that order.
pub open spec fn applies(w: WrapperModel, ts: Seq<TokenModel>, k: int, x: WrapperModel, y: WrapperModel) -> bool {
    w.node == AstModel::BinaryNode(ts[k], Box::new(x), Box::new(y))
}

/// An operand on its own, followed by something that is no indexing or call, is a leaf.
proof fn lemma_operand_alone(ts: Seq<TokenModel>, k: int)
    requires
        simple_operand(tk(ts, k)),
        tk(ts, k + 1) != TkModel::Bracket(Bracket::LSquare),
        tk(ts, k + 1) != TkModel::Bracket(Bracket::LBracket),
    ensures
        0 <= k < ts.len(),
        p_cast(ts, k) == Ok::<(WrapperModel, int), int>((node_at(ts, k, AstModel::PrimaryNode(ts[k])), k + 1)),
{
    let a = node_at(ts, k, AstModel::PrimaryNode(ts[k]));
    assert(p_primary(ts, k) == Ok::<(WrapperModel, int), int>((a, k + 1)));
    assert(p_post_ops(ts, k + 1, a) == Ok::<(WrapperModel, int), int>((a, k + 1)));
    assert(p_postfix(ts, k) == Ok::<(WrapperModel, int), int>((a, k + 1)));
    assert(p_unary(ts, k) == Ok::<(WrapperModel, int), int>((a, k + 1)));
}

/// Above the level of `+` and `-`, an expression that ends where no operator follows is what
/// that level gave.
proof fn lemma_outer_levels(ts: Seq<TokenModel>, i: int, l: int, r: (WrapperModel, int))
    requires
        0 <= l <= 4,
        p_level(ts, i, 4) == Ok::<(WrapperModel, int), int>(r),
        i <= r.1 <= ts.len(),
        ends_expression(tk(ts, r.1)),
    ensures
        p_level(ts, i, l) == Ok::<(WrapperModel, int), int>(r),
    decreases 4 - l,
{
    if l < 4 {
        lemma_outer_levels(ts, i, l + 1, r);
        assert(p_operand(ts, i, l) == Ok::<(WrapperModel, int), int>(r));
        assert(p_level_rest(ts, r.1, l, r.0) == Ok::<(WrapperModel, int), int>(r));
    }
}

/// A multiplicative operator after an additive one takes the operand between them: `a + b * c`
/// (also with `-`, `/` and `%`) is `a + (b * c)`.
pub proof fn lemma_multiplicative_binds_tighter_on_the_right(ts: Seq<TokenModel>, i: int)
    requires
        0 <= i,
        simple_operand(tk(ts, i)),
        additive(tk(ts, i + 1)),
        simple_operand(tk(ts, i + 2)),
        multiplicative(tk(ts, i + 3)),
        simple_operand(tk(ts, i + 4)),
        ends_expression(tk(ts, i + 5)),
    ensures
        p_expr(ts, i) matches Ok((w, j)) && (w.node matches AstModel::BinaryNode(_, x, y) && (
        y.node matches AstModel::BinaryNode(_, u, v) && j == i + 5 && is_leaf(*x, ts, i) && is_leaf(
            *u,
            ts,
            i + 2,
        ) && is_leaf(*v, ts, i + 4) && applies(*y, ts, i + 3, *u, *v) && applies(w, ts, i + 1, *x, *y))),
{
    lemma_operand_alone(ts, i);
    lemma_operand_alone(ts, i + 2);
    lemma_operand_alone(ts, i + 4);
    let a = node_at(ts, i, AstModel::PrimaryNode(ts[i]));
    let b = node_at(ts, i + 2, AstModel::PrimaryNode(ts[i + 2]));
    let c = node_at(ts, i + 4, AstModel::PrimaryNode(ts[i + 4]));
    let bc = crate::parser::parser::node_from(b, AstModel::BinaryNode(ts[i + 3], Box::new(b), Box::new(c)));
    let abc = crate::parser::parser::node_from(a, AstModel::BinaryNode(ts[i + 1], Box::new(a), Box::new(bc)));
    assert(p_operand(ts, i, 5) == Ok::<(WrapperModel, int), int>((a, i + 1)));
    assert(p_level_rest(ts, i + 1, 5, a) == Ok::<(WrapperModel, int), int>((a, i + 1)));
    assert(p_level(ts, i, 5) == Ok::<(WrapperModel, int), int>((a, i + 1)));
    assert(p_operand(ts, i, 4) == Ok::<(WrapperModel, int), int>((a, i + 1)));
    assert(p_operand(ts, i + 2, 5) == Ok::<(WrapperModel, int), int>((b, i + 3)));
    assert(p_operand(ts, i + 4, 5) == Ok::<(WrapperModel, int), int>((c, i + 5)));
    assert(p_level_rest(ts, i + 5, 5, bc) == Ok::<(WrapperModel, int), int>((bc, i + 5)));
    assert(p_level_rest(ts, i + 3, 5, b) == Ok::<(WrapperModel, int), int>((bc, i + 5)));
    assert(p_level(ts, i + 2, 5) == Ok::<(WrapperModel, int), int>((bc, i + 5)));
    assert(p_operand(ts, i + 2, 4) == Ok::<(WrapperModel, int), int>((bc, i + 5)));
    assert(p_level_rest(ts, i + 5, 4, abc) == Ok::<(WrapperModel, int), int>((abc, i + 5)));
    assert(p_level_rest(ts, i + 1, 4, a) == Ok::<(WrapperModel, int), int>((abc, i + 5)));
    assert(p_level(ts, i, 4) == Ok::<(WrapperModel, int), int>((abc, i + 5)));
    lemma_outer_levels(ts, i, 0, (abc, i + 5));
    assert(p_expr(ts, i) == Ok::<(WrapperModel, int), int>((abc, i + 5)));
}

/// A multiplicative operator before an additive one keeps its two operands: `a * b + c` (also
/// with `/`, `%` and `-`) is `(a * b) + c`.
pub proof fn lemma_multiplicative_binds_tighter_on_the_left(ts: Seq<TokenModel>, i: int)
    requires
        0 <= i,
        simple_operand(tk(ts, i)),
        multiplicative(tk(ts, i + 1)),
        simple_operand(tk(ts, i + 2)),
        additive(tk(ts, i + 3)),
        simple_operand(tk(ts, i + 4)),
        ends_expression(tk(ts, i + 5)),
    ensures
        p_expr(ts, i) matches Ok((w, j)) && (w.node matches AstModel::BinaryNode(_, x, y) && (
        x.node matches AstModel::BinaryNode(_, u, v) && j == i + 5 && is_leaf(*y, ts, i + 4) && is_leaf(
            *u,
            ts,
            i,
        ) && is_leaf(*v, ts, i + 2) && applies(*x, ts, i + 1, *u, *v) && applies(w, ts, i + 3, *x, *y))),
{
    lemma_operand_alone(ts, i);
    lemma_operand_alone(ts, i + 2);
    lemma_operand_alone(ts, i + 4);
    let a = node_at(ts, i, AstModel::PrimaryNode(ts[i]));
    let b = node_at(ts, i + 2, AstModel::PrimaryNode(ts[i + 2]));
    let c = node_at(ts, i + 4, AstModel::PrimaryNode(ts[i + 4]));
    let ab = crate::parser::parser::node_from(a, AstModel::BinaryNode(ts[i + 1], Box::new(a), Box::new(b)));
    let abc = crate::parser::parser::node_from(ab, AstModel::BinaryNode(ts[i + 3], Box::new(ab), Box::new(c)));
    assert(p_operand(ts, i, 5) == Ok::<(WrapperModel, int), int>((a, i + 1)));
    assert(p_operand(ts, i + 2, 5) == Ok::<(WrapperModel, int), int>((b, i + 3)));
    assert(p_level_rest(ts, i + 3, 5, ab) == Ok::<(WrapperModel, int), int>((ab, i + 3)));
    assert(p_level_rest(ts, i + 1, 5, a) == Ok::<(WrapperModel, int), int>((ab, i + 3)));
    assert(p_level(ts, i, 5) == Ok::<(WrapperModel, int), int>((ab, i + 3)));
    assert(p_operand(ts, i, 4) == Ok::<(WrapperModel, int), int>((ab, i + 3)));
    assert(p_operand(ts, i + 4, 5) == Ok::<(WrapperModel, int), int>((c, i + 5)));
    assert(p_level_rest(ts, i + 5, 5, c) == Ok::<(WrapperModel, int), int>((c, i + 5)));
    assert(p_level(ts, i + 4, 5) == Ok::<(WrapperModel, int), int>((c, i + 5)));
    assert(p_operand(ts, i + 4, 4) == Ok::<(WrapperModel, int), int>((c, i + 5)));
    assert(p_level_rest(ts, i + 5, 4, abc) == Ok::<(WrapperModel, int), int>((abc, i + 5)));
    assert(p_level_rest(ts, i + 3, 4, ab) == Ok::<(WrapperModel, int), int>((abc, i + 5)));
    assert(p_level(ts, i, 4) == Ok::<(WrapperModel, int), int>((abc, i + 5)));
    lemma_outer_levels(ts, i, 0, (abc, i + 5));
    assert(p_expr(ts, i) == Ok::<(WrapperModel, int), int>((abc, i + 5)));
}

/// The tier of a binary operator in the grammar, from the loosest to the tightest: 1 for `&`,
/// `|` and `^`, 2 for `==` and `!=`, 3 for `<`, `>`, `<=` and `>=`, 4 for `<<` and `>>`, 5 for `+`
/// and `-`, 6 for `*`, `/` and `%`; 0 for a token that is no binary operator.
pub open spec fn binding_tier(t: TkModel) -> int {
    match t {
        TkModel::Operator(o) => match o {
            Operator::AndOp | Operator::OrOp | Operator::XorOp => 1,
            Operator::EqualCompare | Operator::DiffCompare => 2,
            Operator::LTCompare | Operator::GTCompare | Operator::LECompare | Operator::GECompare => 3,
            Operator::LShift | Operator::RShift => 4,
            Operator::Plus | Operator::Minus => 5,
            Operator::Asterisk | Operator::Slash | Operator::Module => 6,
            _ => 0,
        },
        _ => 0,
    }
}

/// The parser takes a binary operator at the level of its tier, and at no other.
proof fn lemma_level_of_tier(t: TkModel, l: int)
    requires
        0 <= l <= 5,
    ensures
        level_op(l, t) == (binding_tier(t) == l + 1),
{
}

/// Levels at which the token after an expression is no operator leave the expression as it is.
proof fn lemma_stop_levels(ts: Seq<TokenModel>, i: int, lo: int, hi: int, r: (WrapperModel, int))
    requires
        0 <= lo <= hi <= 5,
        p_level(ts, i, hi) == Ok::<(WrapperModel, int), int>(r),
        i <= r.1 <= ts.len(),
        forall|l: int| lo <= l < hi ==> !level_op(l, #[trigger] tk(ts, r.1 + 0 * l)),
    ensures
        p_level(ts, i, lo) == Ok::<(WrapperModel, int), int>(r),
    decreases hi - lo,
{
    if lo < hi {
        lemma_stop_levels(ts, i, lo + 1, hi, r);
        assert(!level_op(lo, tk(ts, r.1 + 0 * lo)));
        assert(p_operand(ts, i, lo) == Ok::<(WrapperModel, int), int>(r));
        assert(p_level_rest(ts, r.1, lo, r.0) == Ok::<(WrapperModel, int), int>(r));
    }
}

/// An operand on its own, followed by an operator of a tier looser than the levels from `lo` on
/// or by no operator, is a leaf at those levels.
proof fn lemma_leaf_levels(ts: Seq<TokenModel>, k: int, lo: int)
    requires
        0 <= lo <= 5,
        simple_operand(tk(ts, k)),
        tk(ts, k + 1) != TkModel::Bracket(Bracket::LSquare),
        tk(ts, k + 1) != TkModel::Bracket(Bracket::LBracket),
        binding_tier(tk(ts, k + 1)) <= lo,
    ensures
        0 <= k < ts.len(),
        p_level(ts, k, lo) == Ok::<(WrapperModel, int), int>((node_at(ts, k, AstModel::PrimaryNode(ts[k])), k + 1)),
        lo < 5 ==> p_operand(ts, k, lo) == Ok::<(WrapperModel, int), int>((node_at(ts, k, AstModel::PrimaryNode(ts[k])), k + 1)),
{
    lemma_operand_alone(ts, k);
    let a = node_at(ts, k, AstModel::PrimaryNode(ts[k]));
    lemma_level_of_tier(tk(ts, k + 1), 5);
    assert(p_operand(ts, k, 5) == Ok::<(WrapperModel, int), int>((a, k + 1)));
    assert(p_level_rest(ts, k + 1, 5, a) == Ok::<(WrapperModel, int), int>((a, k + 1)));
    assert(p_level(ts, k, 5) == Ok::<(WrapperModel, int), int>((a, k + 1)));
    assert forall|l: int| lo <= l < 5 implies !level_op(l, #[trigger] tk(ts, (k + 1) + 0 * l)) by {
        lemma_level_of_tier(tk(ts, k + 1), l);
    }
    lemma_stop_levels(ts, k, lo, 5, (a, k + 1));
    if lo < 5 {
        lemma_stop_levels(ts, k, lo + 1, 5, (a, k + 1));
    }
}

/// An operand of level `l` on its own, followed by no operator: a leaf.
proof fn lemma_last_operand(ts: Seq<TokenModel>, k: int, l: int)
    requires
        0 <= l <= 5,
        simple_operand(tk(ts, k)),
        ends_expression(tk(ts, k + 1)),
    ensures
        p_operand(ts, k, l) == Ok::<(WrapperModel, int), int>((node_at(ts, k, AstModel::PrimaryNode(ts[k])), k + 1)),
{
    lemma_operand_alone(ts, k);
    if l < 5 {
        lemma_leaf_levels(ts, k, l + 1);
    }
}

/// Two binary operators between three operands group by the tiers of the grammar: when the
/// second is of a tighter tier it takes the middle operand, `a op1 (b op2 c)`; otherwise the
/// first does, `(a op1 b) op2 c`.
pub proof fn lemma_grouping_by_tier(ts: Seq<TokenModel>, i: int)
    requires
        0 <= i,
        simple_operand(tk(ts, i)),
        binding_tier(tk(ts, i + 1)) > 0,
        simple_operand(tk(ts, i + 2)),
        binding_tier(tk(ts, i + 3)) > 0,
        simple_operand(tk(ts, i + 4)),
        ends_expression(tk(ts, i + 5)),
    ensures
        binding_tier(tk(ts, i + 1)) < binding_tier(tk(ts, i + 3)) ==> (p_expr(ts, i) matches Ok((w, j)) && (
        w.node matches AstModel::BinaryNode(_, x, y) && (y.node matches AstModel::BinaryNode(_, u, v) && j == i
            + 5 && is_leaf(*x, ts, i) && is_leaf(*u, ts, i + 2) && is_leaf(*v, ts, i + 4) && applies(
            *y,
            ts,
            i + 3,
            *u,
            *v,
        ) && applies(w, ts, i + 1, *x, *y)))),
        binding_tier(tk(ts, i + 1)) >= binding_tier(tk(ts, i + 3)) ==> (p_expr(ts, i) matches Ok((w, j)) && (
        w.node matches AstModel::BinaryNode(_, x, y) && (x.node matches AstModel::BinaryNode(_, u, v) && j == i
            + 5 && is_leaf(*y, ts, i + 4) && is_leaf(*u, ts, i) && is_leaf(*v, ts, i + 2) && applies(
            *x,
            ts,
            i + 1,
            *u,
            *v,
        ) && applies(w, ts, i + 3, *x, *y)))),
{
    let l1 = binding_tier(tk(ts, i + 1)) - 1;
    let l2 = binding_tier(tk(ts, i + 3)) - 1;
    let a = node_at(ts, i, AstModel::PrimaryNode(ts[i]));
    let b = node_at(ts, i + 2, AstModel::PrimaryNode(ts[i + 2]));
    let c = node_at(ts, i + 4, AstModel::PrimaryNode(ts[i + 4]));
    lemma_level_of_tier(tk(ts, i + 1), l1);
    lemma_level_of_tier(tk(ts, i + 3), l2);
    lemma_level_of_tier(tk(ts, i + 3), l1);
    if l1 < 5 {
        lemma_leaf_levels(ts, i, l1 + 1);
    } else {
        lemma_operand_alone(ts, i);
    }
    assert(p_operand(ts, i, l1) == Ok::<(WrapperModel, int), int>((a, i + 1)));
    assert forall|l: int| 0 <= l <= 5 implies !level_op(l, #[trigger] tk(ts, (i + 5) + 0 * l)) by {
        lemma_level_of_tier(tk(ts, i + 5), l);
    }
    lemma_last_operand(ts, i + 4, l2);
    if l1 < l2 {
        let bc = node_from(b, AstModel::BinaryNode(ts[i + 3], Box::new(b), Box::new(c)));
        let abc = node_from(a, AstModel::BinaryNode(ts[i + 1], Box::new(a), Box::new(bc)));
        if l2 < 5 {
            lemma_leaf_levels(ts, i + 2, l2 + 1);
        } else {
            lemma_operand_alone(ts, i + 2);
        }
        assert(p_operand(ts, i + 2, l2) == Ok::<(WrapperModel, int), int>((b, i + 3)));
        assert(p_level_rest(ts, i + 5, l2, bc) == Ok::<(WrapperModel, int), int>((bc, i + 5)));
        assert(p_level_rest(ts, i + 3, l2, b) == Ok::<(WrapperModel, int), int>((bc, i + 5)));
        assert(p_level(ts, i + 2, l2) == Ok::<(WrapperModel, int), int>((bc, i + 5)));
        lemma_stop_levels(ts, i + 2, l1 + 1, l2, (bc, i + 5));
        assert(p_operand(ts, i + 2, l1) == Ok::<(WrapperModel, int), int>((bc, i + 5)));
        assert(p_level_rest(ts, i + 5, l1, abc) == Ok::<(WrapperModel, int), int>((abc, i + 5)));
        assert(p_level_rest(ts, i + 1, l1, a) == Ok::<(WrapperModel, int), int>((abc, i + 5)));
        assert(p_level(ts, i, l1) == Ok::<(WrapperModel, int), int>((abc, i + 5)));
        lemma_stop_levels(ts, i, 0, l1, (abc, i + 5));
        assert(p_expr(ts, i) == Ok::<(WrapperModel, int), int>((abc, i + 5)));
    } else {
        let ab = node_from(a, AstModel::BinaryNode(ts[i + 1], Box::new(a), Box::new(b)));
        let abc = node_from(ab, AstModel::BinaryNode(ts[i + 3], Box::new(ab), Box::new(c)));
        if l1 < 5 {
            lemma_leaf_levels(ts, i + 2, l1 + 1);
        } else {
            lemma_operand_alone(ts, i + 2);
        }
        assert(p_operand(ts, i + 2, l1) == Ok::<(WrapperModel, int), int>((b, i + 3)));
        if l2 == l1 {
            assert(p_level_rest(ts, i + 5, l1, abc) == Ok::<(WrapperModel, int), int>((abc, i + 5)));
            assert(p_level_rest(ts, i + 3, l1, ab) == Ok::<(WrapperModel, int), int>((abc, i + 5)));
            assert(p_level_rest(ts, i + 1, l1, a) == Ok::<(WrapperModel, int), int>((abc, i + 5)));
            assert(p_level(ts, i, l1) == Ok::<(WrapperModel, int), int>((abc, i + 5)));
            lemma_stop_levels(ts, i, 0, l1, (abc, i + 5));
        } else {
            assert(p_level_rest(ts, i + 3, l1, ab) == Ok::<(WrapperModel, int), int>((ab, i + 3)));
            assert(p_level_rest(ts, i + 1, l1, a) == Ok::<(WrapperModel, int), int>((ab, i + 3)));
            assert(p_level(ts, i, l1) == Ok::<(WrapperModel, int), int>((ab, i + 3)));
            assert forall|l: int| l2 + 1 <= l < l1 implies !level_op(l, #[trigger] tk(ts, (i + 3) + 0 * l)) by {
                lemma_level_of_tier(tk(ts, i + 3), l);
            }
            lemma_stop_levels(ts, i, l2 + 1, l1, (ab, i + 3));
            assert(p_operand(ts, i, l2) == Ok::<(WrapperModel, int), int>((ab, i + 3)));
            assert(p_level_rest(ts, i + 5, l2, abc) == Ok::<(WrapperModel, int), int>((abc, i + 5)));
            assert(p_level_rest(ts, i + 3, l2, ab) == Ok::<(WrapperModel, int), int>((abc, i + 5)));
            assert(p_level(ts, i, l2) == Ok::<(WrapperModel, int), int>((abc, i + 5)));
            lemma_stop_levels(ts, i, 0, l2, (abc, i + 5));
        }
        assert(p_expr(ts, i) == Ok::<(WrapperModel, int), int>((abc, i + 5)));
    }
}

} // verus!
