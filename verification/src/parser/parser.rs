//! The recursive descent parser: from the tokens of a source to its syntax tree, following the
//! grammar of the language. Declarations carry their types; expressions are left untyped.

use vstd::prelude::*;
use crate::ast::ast_impl::{
    default_source_ref, lemma_list_model_push, list_model, null_wrapper, token_source_ref, AstModel,
    AstNode, AstNodeWrapper, SourceReference, WrapperModel,
};
use crate::ast::type_wrapper::{default_type, is_type_token, native_of_token, TypeNative, TypeWrapper};
use crate::lexer::token::{Bracket, Keyword, Operator, Tk, TkModel, Token, TokenModel};

verus! {

/// The models of a list of tokens.
pub open spec fn token_models(v: Seq<Token>) -> Seq<TokenModel> {
    v.map_values(|t: Token| t@)
}

/// The kind of the token at position `i`; the end of file past the last token.
pub open spec fn tk(ts: Seq<TokenModel>, i: int) -> TkModel {
    if 0 <= i < ts.len() {
        ts[i].tk
    } else {
        TkModel::EOF
    }
}

/// The source text of the token at position `i`.
pub open spec fn src_at(ts: Seq<TokenModel>, i: int) -> SourceReference {
    if 0 <= i < ts.len() {
        token_source_ref(ts[i])
    } else {
        default_source_ref()
    }
}

/// A node starting at the token at position `i`, not typed.
pub open spec fn node_at(ts: Seq<TokenModel>, i: int, node: AstModel) -> WrapperModel {
    WrapperModel { node, source_ref: src_at(ts, i), type_ref: default_type() }
}

/// A node built from a first part, with the source of that part, not typed.
pub open spec fn node_from(first: WrapperModel, node: AstModel) -> WrapperModel {
    WrapperModel { node, source_ref: first.source_ref, type_ref: default_type() }
}

/// The outcome of parsing a phrase: the tree and the position after it, or the position of the
/// token at fault.
pub type PRes = Result<(WrapperModel, int), int>;

/// The outcome of parsing a list of phrases.
pub type PList = Result<(Seq<WrapperModel>, int), int>;

/// Whether the token kind is `(`.
pub open spec fn is_open(t: TkModel) -> bool {
    t == TkModel::Bracket(Bracket::LBracket)
}

/// Whether the token kind is `)`.
pub open spec fn is_close(t: TkModel) -> bool {
    t == TkModel::Bracket(Bracket::RBracket)
}

/// Whether a type declaration starts with the token kind: `const` or a type name.
pub open spec fn starts_type(t: TkModel) -> bool {
    t == TkModel::Keyword(Keyword::Const) || is_type_token(t)
}

/// The number of `*` from position `i` on.
pub open spec fn stars(ts: Seq<TokenModel>, i: int) -> nat
    decreases ts.len() - i,
{
    if 0 <= i < ts.len() && ts[i].tk == TkModel::Operator(Operator::Asterisk) {
        1 + stars(ts, i + 1)
    } else {
        0
    }
}

/// A type declaration from position `i`: an optional `const`, a type name and its `*`.
pub open spec fn p_type(ts: Seq<TokenModel>, i: int) -> Result<(TypeWrapper, int), int> {
    let c = tk(ts, i) == TkModel::Keyword(Keyword::Const);
    let j = if c {
        i + 1
    } else {
        i
    };
    if is_type_token(tk(ts, j)) {
        let n = stars(ts, j + 1);
        Ok((TypeWrapper { type_native: native_of_token(tk(ts, j)), pointer: n as u32, constant: c }, j + 1 + n))
    } else {
        Err(j)
    }
}

/// The operators of the binary level `l`, from the loosest (0) to the tightest (5).
pub open spec fn level_op(l: int, t: TkModel) -> bool {
    match t {
        TkModel::Operator(o) => if l == 0 {
            o == Operator::AndOp || o == Operator::OrOp || o == Operator::XorOp
        } else if l == 1 {
            o == Operator::EqualCompare || o == Operator::DiffCompare
        } else if l == 2 {
            o == Operator::GTCompare || o == Operator::LTCompare || o == Operator::GECompare || o
                == Operator::LECompare
        } else if l == 3 {
            o == Operator::LShift || o == Operator::RShift
        } else if l == 4 {
            o == Operator::Plus || o == Operator::Minus
        } else {
            o == Operator::Asterisk || o == Operator::Slash || o == Operator::Module
        },
        _ => false,
    }
}

/// The prefix operators: `+`, `-`, `!`, `&` and `*`.
pub open spec fn unary_op(t: TkModel) -> bool {
    match t {
        TkModel::Operator(o) => o == Operator::Plus || o == Operator::Minus || o == Operator::Not || o
            == Operator::AndOp || o == Operator::Asterisk,
        _ => false,
    }
}

/// The tokens of a primary expression on their own: identifiers, numbers and characters.
pub open spec fn literal_token(t: TkModel) -> bool {
    t is Identifier || t is IntegerLiteral || t is Char
}

/// An expression: a logical expression, or an assignment of an expression to it.
pub open spec fn p_expr(ts: Seq<TokenModel>, i: int) -> PRes
    decreases ts.len() - i, 41int,
{
    match p_level(ts, i, 0) {
        Ok((a, j)) => if tk(ts, j) == TkModel::Operator(Operator::Assign) {
            if j < i {
                Err(j)
            } else {
                match p_expr(ts, j + 1) {
                    Ok((b, k)) => Ok((node_from(a, AstModel::BinaryNode(ts[j], Box::new(a), Box::new(b))), k)),
                    Err(e) => Err(e),
                }
            }
        } else {
            Ok((a, j))
        },
        Err(e) => Err(e),
    }
}

/// An expression of binary level `l`: operands of the next level joined by operators of the
/// level, grouped from the left.
pub open spec fn p_level(ts: Seq<TokenModel>, i: int, l: int) -> PRes
    decreases ts.len() - i, 40 - 2 * l,
{
    if l < 0 || l > 5 {
        Err(i)
    } else {
        match p_operand(ts, i, l) {
            Ok((a, j)) => if j < i || j > ts.len() {
                Err(j)
            } else {
                p_level_rest(ts, j, l, a)
            },
            Err(e) => Err(e),
        }
    }
}

/// An operand of binary level `l`: an expression of the next level, or a cast at the last one.
pub open spec fn p_operand(ts: Seq<TokenModel>, i: int, l: int) -> PRes
    decreases ts.len() - i, 39 - 2 * l,
{
    if l < 0 || l > 5 {
        Err(i)
    } else if l == 5 {
        p_cast(ts, i)
    } else {
        p_level(ts, i, l + 1)
    }
}

/// The operators of level `l` and their right operands, from position `i` on, applied to the
/// left operand `a`.
pub open spec fn p_level_rest(ts: Seq<TokenModel>, i: int, l: int, a: WrapperModel) -> PRes
    decreases ts.len() - i, 38 - 2 * l,
{
    if l < 0 || l > 5 {
        Err(i)
    } else if level_op(l, tk(ts, i)) {
        match p_operand(ts, i + 1, l) {
            Ok((b, k)) => if k <= i || k > ts.len() {
                Err(k)
            } else {
                p_level_rest(ts, k, l, node_from(a, AstModel::BinaryNode(ts[i], Box::new(a), Box::new(b))))
            },
            Err(e) => Err(e),
        }
    } else {
        Ok((a, i))
    }
}

/// A cast, `(` type `)` before an expression, or a prefix expression.
pub open spec fn p_cast(ts: Seq<TokenModel>, i: int) -> PRes
    decreases ts.len() - i, 23int,
{
    if is_open(tk(ts, i)) && starts_type(tk(ts, i + 1)) {
        match p_type(ts, i + 1) {
            Ok((tw, j)) => if !is_close(tk(ts, j)) || j < i {
                Err(j)
            } else {
                match p_cast(ts, j + 1) {
                    Ok((e, k)) => {
                        let t = WrapperModel {
                            node: AstModel::TypeNode(tw),
                            source_ref: src_at(ts, i + 1),
                            type_ref: tw,
                        };
                        Ok(
                            (
                                WrapperModel {
                                    node: AstModel::CastNode(Box::new(t), Box::new(e)),
                                    source_ref: src_at(ts, i),
                                    type_ref: tw,
                                },
                                k,
                            ),
                        )
                    },
                    Err(e) => Err(e),
                }
            },
            Err(e) => Err(e),
        }
    } else {
        p_unary(ts, i)
    }
}

/// A prefix expression: a prefix operator before a prefix expression, or a postfix expression.
pub open spec fn p_unary(ts: Seq<TokenModel>, i: int) -> PRes
    decreases ts.len() - i, 22int,
{
    if unary_op(tk(ts, i)) {
        match p_unary(ts, i + 1) {
            Ok((e, j)) => Ok((node_at(ts, i, AstModel::PrefixNode(ts[i], Box::new(e))), j)),
            Err(e) => Err(e),
        }
    } else {
        p_postfix(ts, i)
    }
}

/// A primary expression followed by its indexings and calls.
pub open spec fn p_postfix(ts: Seq<TokenModel>, i: int) -> PRes
    decreases ts.len() - i, 21int,
{
    match p_primary(ts, i) {
        Ok((b, j)) => if j < i || j > ts.len() {
            Err(j)
        } else {
            p_post_ops(ts, j, b)
        },
        Err(e) => Err(e),
    }
}

/// An identifier, a number, a character, or an expression in brackets.
pub open spec fn p_primary(ts: Seq<TokenModel>, i: int) -> PRes
    decreases ts.len() - i, 20int,
{
    if literal_token(tk(ts, i)) {
        Ok((node_at(ts, i, AstModel::PrimaryNode(ts[i])), i + 1))
    } else if is_open(tk(ts, i)) {
        match p_expr(ts, i + 1) {
            Ok((e, j)) => if is_close(tk(ts, j)) {
                Ok((e, j + 1))
            } else {
                Err(j)
            },
            Err(e) => Err(e),
        }
    } else {
        Err(i)
    }
}

/// The indexings `[` expression `]` and calls `(` arguments `)` applied, from position `i`
/// on, to the expression `b`.
pub open spec fn p_post_ops(ts: Seq<TokenModel>, i: int, b: WrapperModel) -> PRes
    decreases ts.len() - i, 19int,
{
    if tk(ts, i) == TkModel::Bracket(Bracket::LSquare) {
        match p_expr(ts, i + 1) {
            Ok((e, k)) => if tk(ts, k) != TkModel::Bracket(Bracket::RSquare) || k < i {
                Err(k)
            } else {
                p_post_ops(ts, k + 1, node_from(b, AstModel::SelectorNode(Box::new(b), Box::new(e))))
            },
            Err(e) => Err(e),
        }
    } else if is_open(tk(ts, i)) {
        if is_close(tk(ts, i + 1)) {
            p_post_ops(ts, i + 2, node_from(b, AstModel::ProcedureNode(Box::new(b), Seq::empty())))
        } else {
            match p_args(ts, i + 1) {
                Ok((args, k)) => if !is_close(tk(ts, k)) || k < i {
                    Err(k)
                } else {
                    p_post_ops(ts, k + 1, node_from(b, AstModel::ProcedureNode(Box::new(b), args)))
                },
                Err(e) => Err(e),
            }
        }
    } else {
        Ok((b, i))
    }
}

/// The arguments of a call: expressions separated by `,`.
pub open spec fn p_args(ts: Seq<TokenModel>, i: int) -> PList
    decreases ts.len() - i, 42int,
{
    match p_expr(ts, i) {
        Ok((e, j)) => if tk(ts, j) == TkModel::Operator(Operator::Comma) {
            if j < i {
                Err(j)
            } else {
                match p_args(ts, j + 1) {
                    Ok((rest, k)) => Ok((seq![e] + rest, k)),
                    Err(e) => Err(e),
                }
            }
        } else {
            Ok((seq![e], j))
        },
        Err(e) => Err(e),
    }
}

/// The sizes of an array, `[` expression `]` one or more times; several sizes multiply.
pub open spec fn p_dims(ts: Seq<TokenModel>, i: int) -> PRes
    decreases ts.len() - i,
{
    if tk(ts, i) != TkModel::Bracket(Bracket::LSquare) {
        Err(i)
    } else {
        match p_level(ts, i + 1, 0) {
            Ok((e, j)) => if tk(ts, j) != TkModel::Bracket(Bracket::RSquare) || j < i {
                Err(j)
            } else if tk(ts, j + 1) == TkModel::Bracket(Bracket::LSquare) {
                match p_dims(ts, j + 1) {
                    Ok((rest, k)) => {
                        let times = TokenModel { tk: TkModel::Operator(Operator::Asterisk), ..ts[j + 1] };
                        Ok((node_from(e, AstModel::BinaryNode(times, Box::new(e), Box::new(rest))), k))
                    },
                    Err(e) => Err(e),
                }
            } else {
                Ok((e, j + 1))
            },
            Err(e) => Err(e),
        }
    }
}

/// A parameter: its type and its name.
pub open spec fn p_param(ts: Seq<TokenModel>, i: int) -> PRes {
    match p_type(ts, i) {
        Ok((tw, j)) => if tk(ts, j) is Identifier {
            let t = WrapperModel { node: AstModel::TypeNode(tw), source_ref: src_at(ts, i), type_ref: tw };
            Ok((WrapperModel { node: AstModel::ParameterNode(ts[j], Box::new(t)), source_ref: src_at(ts, i), type_ref: tw }, j + 1))
        } else {
            Err(j)
        },
        Err(e) => Err(e),
    }
}

/// One or more parameters separated by `,`.
pub open spec fn p_param_list(ts: Seq<TokenModel>, i: int) -> PList
    decreases ts.len() - i,
{
    match p_param(ts, i) {
        Ok((p, j)) => if tk(ts, j) == TkModel::Operator(Operator::Comma) {
            if j < i {
                Err(j)
            } else {
                match p_param_list(ts, j + 1) {
                    Ok((rest, k)) => Ok((seq![p] + rest, k)),
                    Err(e) => Err(e),
                }
            }
        } else {
            Ok((seq![p], j))
        },
        Err(e) => Err(e),
    }
}

/// The parameters of a function: none before `)`, else a list of them.
pub open spec fn p_params(ts: Seq<TokenModel>, i: int) -> PList {
    if is_close(tk(ts, i)) {
        Ok((Seq::empty(), i))
    } else {
        p_param_list(ts, i)
    }
}

/// An optional expression: none before `;` or `)`.
pub open spec fn p_opt_expr(ts: Seq<TokenModel>, i: int) -> PRes {
    if tk(ts, i) is Semicolon || is_close(tk(ts, i)) {
        Ok((null_wrapper(), i))
    } else {
        p_expr(ts, i)
    }
}

/// A declaration: a type and a name, then `;`, an initial value, the parameters of a function
/// with its body or `;`, or the sizes of an array.
pub open spec fn p_decl(ts: Seq<TokenModel>, i: int) -> PRes
    decreases ts.len() - i, 3int,
{
    match p_type(ts, i) {
        Ok((tw, j)) => if !(tk(ts, j) is Identifier) || j < i {
            Err(j)
        } else {
            let t = WrapperModel { node: AstModel::TypeNode(tw), source_ref: src_at(ts, i), type_ref: tw };
            let name = ts[j];
            let k = j + 1;
            let decl = |n: AstModel| WrapperModel { node: n, source_ref: src_at(ts, i), type_ref: tw };
            if tk(ts, k) is Semicolon {
                Ok((decl(AstModel::VarDeclNode(Box::new(t), name, Box::new(null_wrapper()))), k + 1))
            } else if tk(ts, k) == TkModel::Operator(Operator::Assign) {
                match p_expr(ts, k + 1) {
                    Ok((e, m)) => if tk(ts, m) is Semicolon {
                        Ok((decl(AstModel::VarDeclNode(Box::new(t), name, Box::new(e))), m + 1))
                    } else {
                        Err(m)
                    },
                    Err(e) => Err(e),
                }
            } else if is_open(tk(ts, k)) {
                match p_params(ts, k + 1) {
                    Ok((ps, m)) => if !is_close(tk(ts, m)) || m < i {
                        Err(m)
                    } else if tk(ts, m + 1) is Semicolon {
                        Ok(
                            (
                                decl(AstModel::FuncDeclNode(Box::new(t), name, ps, Box::new(null_wrapper()))),
                                m + 2,
                            ),
                        )
                    } else {
                        match p_compound(ts, m + 1) {
                            Ok((body, n)) => Ok((decl(AstModel::FuncDeclNode(Box::new(t), name, ps, Box::new(body))), n)),
                            Err(e) => Err(e),
                        }
                    },
                    Err(e) => Err(e),
                }
            } else if tk(ts, k) == TkModel::Bracket(Bracket::LSquare) {
                match p_dims(ts, k) {
                    Ok((size, m)) => if tk(ts, m) is Semicolon {
                        Ok((decl(AstModel::ArrayDeclNode(Box::new(t), name, Box::new(size))), m + 1))
                    } else {
                        Err(m)
                    },
                    Err(e) => Err(e),
                }
            } else {
                Err(k)
            }
        },
        Err(e) => Err(e),
    }
}

/// A block: `{`, statements, `}`.
pub open spec fn p_compound(ts: Seq<TokenModel>, i: int) -> PRes
    decreases ts.len() - i, 4int,
{
    if tk(ts, i) != TkModel::Bracket(Bracket::LCurly) {
        Err(i)
    } else {
        match p_stmts(ts, i + 1) {
            Ok((list, j)) => if tk(ts, j) == TkModel::Bracket(Bracket::RCurly) {
                Ok((node_at(ts, i, AstModel::CompoundNode(list)), j + 1))
            } else {
                Err(j)
            },
            Err(e) => Err(e),
        }
    }
}

/// The statements of a block, up to its `}`; an empty statement `;` gives no node.
pub open spec fn p_stmts(ts: Seq<TokenModel>, i: int) -> PList
    decreases ts.len() - i, 6int,
{
    if tk(ts, i) == TkModel::Bracket(Bracket::RCurly) {
        Ok((Seq::empty(), i))
    } else if tk(ts, i) is Semicolon {
        p_stmts(ts, i + 1)
    } else {
        match p_statement(ts, i) {
            Ok((s, j)) => if j <= i || j > ts.len() {
                Err(j)
            } else {
                match p_stmts(ts, j) {
                    Ok((rest, k)) => Ok((seq![s] + rest, k)),
                    Err(e) => Err(e),
                }
            },
            Err(e) => Err(e),
        }
    }
}

/// A statement: a block, a declaration, a conditional, a loop, a jump, or an optional
/// expression ended by `;`.
pub open spec fn p_statement(ts: Seq<TokenModel>, i: int) -> PRes
    decreases ts.len() - i, 5int,
{
    let t = tk(ts, i);
    if t == TkModel::Bracket(Bracket::LCurly) {
        p_compound(ts, i)
    } else if starts_type(t) {
        p_decl(ts, i)
    } else if t == TkModel::Keyword(Keyword::If) || t == TkModel::Keyword(Keyword::While) {
        if !is_open(tk(ts, i + 1)) {
            Err(i + 1)
        } else {
            match p_expr(ts, i + 2) {
                Ok((c, j)) => if !is_close(tk(ts, j)) || j < i {
                    Err(j)
                } else {
                    match p_compound(ts, j + 1) {
                        Ok((b, k)) => if t == TkModel::Keyword(Keyword::While) {
                            Ok((node_at(ts, i, AstModel::WhileNode(Box::new(c), Box::new(b))), k))
                        } else if tk(ts, k) == TkModel::Keyword(Keyword::Else) {
                            if k < i {
                                Err(k)
                            } else {
                                match p_compound(ts, k + 1) {
                                    Ok((e, m)) => Ok(
                                        (node_at(ts, i, AstModel::IfNode(Box::new(c), Box::new(b), Box::new(e))), m),
                                    ),
                                    Err(e) => Err(e),
                                }
                            }
                        } else {
                            Ok(
                                (
                                    node_at(ts, i, AstModel::IfNode(Box::new(c), Box::new(b), Box::new(null_wrapper()))),
                                    k,
                                ),
                            )
                        },
                        Err(e) => Err(e),
                    }
                },
                Err(e) => Err(e),
            }
        }
    } else if t == TkModel::Keyword(Keyword::For) {
        if !is_open(tk(ts, i + 1)) {
            Err(i + 1)
        } else {
            match p_opt_expr(ts, i + 2) {
                Ok((a, j)) => if !(tk(ts, j) is Semicolon) {
                    Err(j)
                } else {
                    match p_opt_expr(ts, j + 1) {
                        Ok((b, k)) => if !(tk(ts, k) is Semicolon) {
                            Err(k)
                        } else {
                            match p_opt_expr(ts, k + 1) {
                                Ok((c, m)) => if !is_close(tk(ts, m)) || m < i {
                                    Err(m)
                                } else {
                                    match p_compound(ts, m + 1) {
                                        Ok((body, n)) => Ok(
                                            (
                                                node_at(
                                                    ts,
                                                    i,
                                                    AstModel::ForNode(Box::new(a), Box::new(b), Box::new(c), Box::new(body)),
                                                ),
                                                n,
                                            ),
                                        ),
                                        Err(e) => Err(e),
                                    }
                                },
                                Err(e) => Err(e),
                            }
                        },
                        Err(e) => Err(e),
                    }
                },
                Err(e) => Err(e),
            }
        }
    } else if t == TkModel::Keyword(Keyword::Return) {
        if tk(ts, i + 1) is Semicolon {
            Ok((node_at(ts, i, AstModel::JumpNode(ts[i], Box::new(null_wrapper()))), i + 2))
        } else {
            match p_expr(ts, i + 1) {
                Ok((e, j)) => if tk(ts, j) is Semicolon {
                    Ok((node_at(ts, i, AstModel::JumpNode(ts[i], Box::new(e))), j + 1))
                } else {
                    Err(j)
                },
                Err(e) => Err(e),
            }
        }
    } else if t == TkModel::Keyword(Keyword::Break) || t == TkModel::Keyword(Keyword::Continue) {
        if tk(ts, i + 1) is Semicolon {
            Ok((node_at(ts, i, AstModel::JumpNode(ts[i], Box::new(null_wrapper()))), i + 2))
        } else {
            Err(i + 1)
        }
    } else if t is Semicolon {
        Ok((null_wrapper(), i + 1))
    } else {
        match p_expr(ts, i) {
            Ok((e, j)) => if tk(ts, j) is Semicolon {
                Ok((node_from(e, AstModel::ExprStatementNode(Box::new(e))), j + 1))
            } else {
                Err(j)
            },
            Err(e) => Err(e),
        }
    }
}

/// The declarations of a program, up to the end of file.
pub open spec fn p_decls(ts: Seq<TokenModel>, i: int) -> PList
    decreases ts.len() - i,
{
    match p_decl(ts, i) {
        Ok((d, j)) => if j <= i || j > ts.len() {
            Err(j)
        } else if tk(ts, j) is EOF {
            Ok((seq![d], j))
        } else {
            match p_decls(ts, j) {
                Ok((rest, k)) => Ok((seq![d] + rest, k)),
                Err(e) => Err(e),
            }
        },
        Err(e) => Err(e),
    }
}

/// A program: one or more declarations, then the end of file. Its tree is the list of the
/// declarations; on failure, the position of the token at fault.
pub open spec fn p_program(ts: Seq<TokenModel>) -> Result<WrapperModel, int> {
    match p_decls(ts, 0) {
        Ok((list, _)) => Ok(node_at(ts, 0, AstModel::DeclarationList(list))),
        Err(e) => Err(e),
    }
}

/// The outcome of an exec parse of a phrase as a mathematical value.
pub open spec fn res_model(r: Result<(AstNodeWrapper, usize), usize>) -> PRes {
    match r {
        Ok((w, j)) => Ok((w@, j as int)),
        Err(e) => Err(e as int),
    }
}

/// The outcome of an exec parse of a list of phrases as a mathematical value.
pub open spec fn list_res_model(r: Result<(Vec<AstNodeWrapper>, usize), usize>) -> PList {
    match r {
        Ok((v, j)) => Ok((list_model(v@), j as int)),
        Err(e) => Err(e as int),
    }
}

/// The kind of the token at position `i`, the end of file past the last one.
fn kind(ts: &Vec<Token>, i: usize) -> (r: Tk)
    ensures
        r@ == tk(token_models(ts@), i as int),
{
    if i < ts.len() {
        ts[i].tk.duplicate()
    } else {
        Tk::EOF
    }
}

/// The source text of the token at position `i`.
fn source_at(ts: &Vec<Token>, i: usize) -> (r: SourceReference)
    ensures
        r == src_at(token_models(ts@), i as int),
{
    if i < ts.len() {
        SourceReference::from_token(&ts[i])
    } else {
        SourceReference::default()
    }
}

/// A node starting at the token at position `i`, not typed.
fn at(ts: &Vec<Token>, i: usize, node: AstNode) -> (r: AstNodeWrapper)
    ensures
        r@ == node_at(token_models(ts@), i as int, node@),
{
    AstNodeWrapper { node, source_ref: source_at(ts, i), type_ref: TypeWrapper::default() }
}

/// A node built from a first part, with its source, not typed.
fn from(first: &AstNodeWrapper, node: AstNode) -> (r: AstNodeWrapper)
    ensures
        r@ == node_from(first@, node@),
{
    AstNodeWrapper { node, source_ref: first.source_ref, type_ref: TypeWrapper::default() }
}

/// The null node, for an absent part.
fn null_node() -> (r: AstNodeWrapper)
    ensures
        r@ == null_wrapper(),
{
    AstNodeWrapper { node: AstNode::NullNode, source_ref: SourceReference::default(), type_ref: TypeWrapper::default() }
}

fn is_bracket(t: &Tk, b: Bracket) -> (r: bool)
    ensures
        r == (t@ == TkModel::Bracket(b)),
{
    match t {
        Tk::Bracket(x) => *x == b,
        _ => false,
    }
}

fn is_operator(t: &Tk, o: Operator) -> (r: bool)
    ensures
        r == (t@ == TkModel::Operator(o)),
{
    match t {
        Tk::Operator(x) => *x == o,
        _ => false,
    }
}

fn is_keyword(t: &Tk, k: Keyword) -> (r: bool)
    ensures
        r == (t@ == TkModel::Keyword(k)),
{
    match t {
        Tk::Keyword(x) => *x == k,
        _ => false,
    }
}

fn is_semicolon(t: &Tk) -> (r: bool)
    ensures
        r == (t@ is Semicolon),
{
    match t {
        Tk::Semicolon => true,
        _ => false,
    }
}

fn is_identifier(t: &Tk) -> (r: bool)
    ensures
        r == (t@ is Identifier),
{
    match t {
        Tk::Identifier(_) => true,
        _ => false,
    }
}

fn is_eof(t: &Tk) -> (r: bool)
    ensures
        r == (t@ is EOF),
{
    match t {
        Tk::EOF => true,
        _ => false,
    }
}

fn is_literal(t: &Tk) -> (r: bool)
    ensures
        r == literal_token(t@),
{
    match t {
        Tk::Identifier(_) | Tk::IntegerLiteral(_) | Tk::Char(_) => true,
        _ => false,
    }
}

fn is_type_name(t: &Tk) -> (r: bool)
    ensures
        r == is_type_token(t@),
{
    match t {
        Tk::Keyword(k) => match k {
            Keyword::U8 | Keyword::U16 | Keyword::U32 | Keyword::I8 | Keyword::I16 | Keyword::I32
            | Keyword::Void => true,
            _ => false,
        },
        _ => false,
    }
}

fn is_unary_op(t: &Tk) -> (r: bool)
    ensures
        r == unary_op(t@),
{
    match t {
        Tk::Operator(o) => *o == Operator::Plus || *o == Operator::Minus || *o == Operator::Not || *o
            == Operator::AndOp || *o == Operator::Asterisk,
        _ => false,
    }
}

fn is_level_op(l: usize, t: &Tk) -> (r: bool)
    ensures
        r == level_op(l as int, t@),
{
    match t {
        Tk::Operator(o) => {
            let o = *o;
            if l == 0 {
                o == Operator::AndOp || o == Operator::OrOp || o == Operator::XorOp
            } else if l == 1 {
                o == Operator::EqualCompare || o == Operator::DiffCompare
            } else if l == 2 {
                o == Operator::GTCompare || o == Operator::LTCompare || o == Operator::GECompare || o
                    == Operator::LECompare
            } else if l == 3 {
                o == Operator::LShift || o == Operator::RShift
            } else if l == 4 {
                o == Operator::Plus || o == Operator::Minus
            } else {
                o == Operator::Asterisk || o == Operator::Slash || o == Operator::Module
            }
        },
        _ => false,
    }
}

/// Parses a type declaration (see `p_type`).
fn parse_type(ts: &Vec<Token>, i: usize) -> (r: Result<(TypeWrapper, usize), usize>)
    requires
        i <= ts.len() < u32::MAX,
    ensures
        match r {
            Ok((t, j)) => p_type(token_models(ts@), i as int) == Ok::<(TypeWrapper, int), int>((t, j as int))
                && i <= j <= ts.len(),
            Err(e) => p_type(token_models(ts@), i as int) == Err::<(TypeWrapper, int), int>(e as int),
        },
{
    let ghost m = token_models(ts@);
    let c = is_keyword(&kind(ts, i), Keyword::Const);
    let j = if c {
        i + 1
    } else {
        i
    };
    let t = kind(ts, j);
    if !is_type_name(&t) {
        return Err(j);
    }
    let native = TypeNative::from_token(&ts[j]);
    let start = j + 1;
    let mut k: usize = start;
    let mut n: u32 = 0;
    while k < ts.len() && is_operator(&ts[k].tk, Operator::Asterisk)
        invariant
            start <= k <= ts.len() < u32::MAX,
            k == start + n,
            m == token_models(ts@),
            stars(m, start as int) == n + stars(m, k as int),
        decreases ts.len() - k,
    {
        k = k + 1;
        n = n + 1;
    }
    Ok((TypeWrapper { type_native: native, pointer: n, constant: c }, k))
}

/// Parses an expression (see `p_expr`).
fn parse_expr(ts: &Vec<Token>, i: usize) -> (r: Result<(AstNodeWrapper, usize), usize>)
    requires
        i <= ts.len() < u32::MAX,
    ensures
        res_model(r) == p_expr(token_models(ts@), i as int),
        r matches Ok((_, j)) ==> i <= j <= ts.len(),
    decreases ts.len() - i, 41nat,
{
    match parse_level(ts, i, 0) {
        Ok((a, j)) => {
            if is_operator(&kind(ts, j), Operator::Assign) {
                match parse_expr(ts, j + 1) {
                    Ok((b, k)) => {
                        let node = AstNode::BinaryNode(ts[j].duplicate(), Box::new(a.duplicate()), Box::new(b));
                        Ok((from(&a, node), k))
                    },
                    Err(e) => Err(e),
                }
            } else {
                Ok((a, j))
            }
        },
        Err(e) => Err(e),
    }
}

/// Parses an expression of binary level `l` (see `p_level`).
fn parse_level(ts: &Vec<Token>, i: usize, l: usize) -> (r: Result<(AstNodeWrapper, usize), usize>)
    requires
        i <= ts.len() < u32::MAX,
        l <= 5,
    ensures
        res_model(r) == p_level(token_models(ts@), i as int, l as int),
        r matches Ok((_, j)) ==> i <= j <= ts.len(),
    decreases ts.len() - i, 40 - 2 * l,
{
    match parse_operand(ts, i, l) {
        Ok((a, j)) => parse_level_rest(ts, j, l, a),
        Err(e) => Err(e),
    }
}

/// Parses an operand of binary level `l` (see `p_operand`).
fn parse_operand(ts: &Vec<Token>, i: usize, l: usize) -> (r: Result<(AstNodeWrapper, usize), usize>)
    requires
        i <= ts.len() < u32::MAX,
        l <= 5,
    ensures
        res_model(r) == p_operand(token_models(ts@), i as int, l as int),
        r matches Ok((_, j)) ==> i <= j <= ts.len(),
    decreases ts.len() - i, 39 - 2 * l,
{
    if l == 5 {
        parse_cast(ts, i)
    } else {
        parse_level(ts, i, l + 1)
    }
}

/// Parses the operators of level `l` applied to `a` (see `p_level_rest`).
fn parse_level_rest(ts: &Vec<Token>, i: usize, l: usize, a: AstNodeWrapper) -> (r: Result<(AstNodeWrapper, usize), usize>)
    requires
        i <= ts.len() < u32::MAX,
        l <= 5,
    ensures
        res_model(r) == p_level_rest(token_models(ts@), i as int, l as int, a@),
        r matches Ok((_, j)) ==> i <= j <= ts.len(),
    decreases ts.len() - i, 38 - 2 * l,
{
    if is_level_op(l, &kind(ts, i)) {
        match parse_operand(ts, i + 1, l) {
            Ok((b, k)) => {
                let node = AstNode::BinaryNode(ts[i].duplicate(), Box::new(a.duplicate()), Box::new(b));
                parse_level_rest(ts, k, l, from(&a, node))
            },
            Err(e) => Err(e),
        }
    } else {
        Ok((a, i))
    }
}

/// Parses a cast or a prefix expression (see `p_cast`).
fn parse_cast(ts: &Vec<Token>, i: usize) -> (r: Result<(AstNodeWrapper, usize), usize>)
    requires
        i <= ts.len() < u32::MAX,
    ensures
        res_model(r) == p_cast(token_models(ts@), i as int),
        r matches Ok((_, j)) ==> i <= j <= ts.len(),
    decreases ts.len() - i, 23nat,
{
    let t1 = kind(ts, i);
    if is_bracket(&t1, Bracket::LBracket) {
        let t2 = kind(ts, i + 1);
        if is_keyword(&t2, Keyword::Const) || is_type_name(&t2) {
            match parse_type(ts, i + 1) {
                Ok((tw, j)) => {
                    if !is_bracket(&kind(ts, j), Bracket::RBracket) {
                        return Err(j);
                    }
                    match parse_cast(ts, j + 1) {
                        Ok((e, k)) => {
                            let t = AstNodeWrapper {
                                node: AstNode::TypeNode(tw),
                                source_ref: source_at(ts, i + 1),
                                type_ref: tw,
                            };
                            let w = AstNodeWrapper {
                                node: AstNode::CastNode(Box::new(t), Box::new(e)),
                                source_ref: source_at(ts, i),
                                type_ref: tw,
                            };
                            proof {
                                let m = token_models(ts@);
                                assert(p_type(m, i + 1) == Ok::<(TypeWrapper, int), int>((tw, j as int)));
                                assert(is_open(tk(m, i as int)));
                                assert(starts_type(tk(m, i + 1)));
                                assert(is_close(tk(m, j as int)));
                                assert(p_cast(m, j + 1) == Ok::<(WrapperModel, int), int>((e@, k as int)));
                                assert(w@.node == AstModel::CastNode(Box::new(t@), Box::new(e@)));
                            }
                            return Ok((w, k));
                        },
                        Err(e) => {
                            return Err(e);
                        },
                    }
                },
                Err(e) => {
                    return Err(e);
                },
            }
        }
    }
    parse_unary(ts, i)
}

/// Parses a prefix expression (see `p_unary`).
fn parse_unary(ts: &Vec<Token>, i: usize) -> (r: Result<(AstNodeWrapper, usize), usize>)
    requires
        i <= ts.len() < u32::MAX,
    ensures
        res_model(r) == p_unary(token_models(ts@), i as int),
        r matches Ok((_, j)) ==> i <= j <= ts.len(),
    decreases ts.len() - i, 22nat,
{
    if is_unary_op(&kind(ts, i)) {
        match parse_unary(ts, i + 1) {
            Ok((e, j)) => {
                let node = AstNode::PrefixNode(ts[i].duplicate(), Box::new(e));
                Ok((at(ts, i, node), j))
            },
            Err(e) => Err(e),
        }
    } else {
        parse_postfix(ts, i)
    }
}

/// Parses a postfix expression (see `p_postfix`).
fn parse_postfix(ts: &Vec<Token>, i: usize) -> (r: Result<(AstNodeWrapper, usize), usize>)
    requires
        i <= ts.len() < u32::MAX,
    ensures
        res_model(r) == p_postfix(token_models(ts@), i as int),
        r matches Ok((_, j)) ==> i <= j <= ts.len(),
    decreases ts.len() - i, 21nat,
{
    match parse_primary(ts, i) {
        Ok((b, j)) => parse_post_ops(ts, j, b),
        Err(e) => Err(e),
    }
}

/// Parses a primary expression (see `p_primary`).
fn parse_primary(ts: &Vec<Token>, i: usize) -> (r: Result<(AstNodeWrapper, usize), usize>)
    requires
        i <= ts.len() < u32::MAX,
    ensures
        res_model(r) == p_primary(token_models(ts@), i as int),
        r matches Ok((_, j)) ==> i <= j <= ts.len(),
    decreases ts.len() - i, 20nat,
{
    let t = kind(ts, i);
    if is_literal(&t) {
        let node = AstNode::PrimaryNode(ts[i].duplicate());
        Ok((at(ts, i, node), i + 1))
    } else if is_bracket(&t, Bracket::LBracket) {
        match parse_expr(ts, i + 1) {
            Ok((e, j)) => {
                if is_bracket(&kind(ts, j), Bracket::RBracket) {
                    Ok((e, j + 1))
                } else {
                    Err(j)
                }
            },
            Err(e) => Err(e),
        }
    } else {
        Err(i)
    }
}

/// Parses the indexings and calls applied to `b` (see `p_post_ops`).
fn parse_post_ops(ts: &Vec<Token>, i: usize, b: AstNodeWrapper) -> (r: Result<(AstNodeWrapper, usize), usize>)
    requires
        i <= ts.len() < u32::MAX,
    ensures
        res_model(r) == p_post_ops(token_models(ts@), i as int, b@),
        r matches Ok((_, j)) ==> i <= j <= ts.len(),
    decreases ts.len() - i, 19nat,
{
    let t = kind(ts, i);
    if is_bracket(&t, Bracket::LSquare) {
        match parse_expr(ts, i + 1) {
            Ok((e, k)) => {
                if !is_bracket(&kind(ts, k), Bracket::RSquare) {
                    return Err(k);
                }
                let node = AstNode::SelectorNode(Box::new(b.duplicate()), Box::new(e));
                parse_post_ops(ts, k + 1, from(&b, node))
            },
            Err(e) => Err(e),
        }
    } else if is_bracket(&t, Bracket::LBracket) {
        if is_bracket(&kind(ts, i + 1), Bracket::RBracket) {
            let args: Vec<AstNodeWrapper> = Vec::new();
            assert(list_model(args@) =~= Seq::<WrapperModel>::empty());
            let node = AstNode::ProcedureNode(Box::new(b.duplicate()), args);
            parse_post_ops(ts, i + 2, from(&b, node))
        } else {
            match parse_args(ts, i + 1) {
                Ok((args, k)) => {
                    if !is_bracket(&kind(ts, k), Bracket::RBracket) {
                        return Err(k);
                    }
                    let node = AstNode::ProcedureNode(Box::new(b.duplicate()), args);
                    parse_post_ops(ts, k + 1, from(&b, node))
                },
                Err(e) => Err(e),
            }
        }
    } else {
        Ok((b, i))
    }
}

/// Parses the arguments of a call (see `p_args`).
fn parse_args(ts: &Vec<Token>, i: usize) -> (r: Result<(Vec<AstNodeWrapper>, usize), usize>)
    requires
        i <= ts.len() < u32::MAX,
    ensures
        list_res_model(r) == p_args(token_models(ts@), i as int),
        r matches Ok((_, j)) ==> i <= j <= ts.len(),
    decreases ts.len() - i, 42nat,
{
    match parse_expr(ts, i) {
        Ok((e, j)) => {
            if is_operator(&kind(ts, j), Operator::Comma) {
                match parse_args(ts, j + 1) {
                    Ok((rest, k)) => Ok((prepend(e, rest), k)),
                    Err(err) => Err(err),
                }
            } else {
                let mut v: Vec<AstNodeWrapper> = Vec::new();
                let ghost em = e@;
                v.push(e);
                proof {
                    lemma_list_model_push(Seq::empty(), v@[0]);
                    assert(Seq::<AstNodeWrapper>::empty().push(v@[0]) =~= v@);
                    assert(list_model(Seq::<AstNodeWrapper>::empty()) =~= Seq::<WrapperModel>::empty());
                    assert(list_model(v@) =~= seq![em]);
                }
                Ok((v, j))
            }
        },
        Err(e) => Err(e),
    }
}

/// The node `e` followed by the nodes of `rest`.
fn prepend(e: AstNodeWrapper, rest: Vec<AstNodeWrapper>) -> (r: Vec<AstNodeWrapper>)
    ensures
        list_model(r@) == seq![e@] + list_model(rest@),
{
    let ghost em = e@;
    let ghost rs = rest@;
    let mut r: Vec<AstNodeWrapper> = Vec::new();
    r.push(e);
    let mut rest = rest;
    r.append(&mut rest);
    proof {
        crate::ast::ast_impl::lemma_list_model(r@);
        crate::ast::ast_impl::lemma_list_model(rs);
        assert(r@.len() == rs.len() + 1);
        assert forall|k: int| 0 <= k < r@.len() implies #[trigger] list_model(r@)[k] == (seq![em] + list_model(rs))[k] by {
            if k > 0 {
                assert(r@[k] == rs[k - 1]);
            }
        }
        assert(list_model(r@) =~= seq![em] + list_model(rs));
    }
    r
}

/// A one-element list.
fn single(e: AstNodeWrapper) -> (r: Vec<AstNodeWrapper>)
    ensures
        list_model(r@) == seq![e@],
{
    let ghost em = e@;
    let mut v: Vec<AstNodeWrapper> = Vec::new();
    v.push(e);
    proof {
        lemma_list_model_push(Seq::empty(), v@[0]);
        assert(Seq::<AstNodeWrapper>::empty().push(v@[0]) =~= v@);
        assert(list_model(Seq::<AstNodeWrapper>::empty()) =~= Seq::<WrapperModel>::empty());
        assert(list_model(v@) =~= seq![em]);
    }
    v
}

/// An empty list.
fn empty_list() -> (r: Vec<AstNodeWrapper>)
    ensures
        list_model(r@) == Seq::<WrapperModel>::empty(),
{
    let v: Vec<AstNodeWrapper> = Vec::new();
    assert(list_model(v@) =~= Seq::<WrapperModel>::empty());
    v
}

/// Parses the sizes of an array (see `p_dims`).
fn parse_dims(ts: &Vec<Token>, i: usize) -> (r: Result<(AstNodeWrapper, usize), usize>)
    requires
        i <= ts.len() < u32::MAX,
    ensures
        res_model(r) == p_dims(token_models(ts@), i as int),
        r matches Ok((_, j)) ==> i <= j <= ts.len(),
    decreases ts.len() - i,
{
    if !is_bracket(&kind(ts, i), Bracket::LSquare) {
        return Err(i);
    }
    match parse_level(ts, i + 1, 0) {
        Ok((e, j)) => {
            if !is_bracket(&kind(ts, j), Bracket::RSquare) {
                return Err(j);
            }
            if is_bracket(&kind(ts, j + 1), Bracket::LSquare) {
                match parse_dims(ts, j + 1) {
                    Ok((rest, k)) => {
                        let times = Token {
                            tk: Tk::Operator(Operator::Asterisk),
                            line_number: ts[j + 1].line_number,
                            last_character: ts[j + 1].last_character,
                            first_character: ts[j + 1].first_character,
                        };
                        let node = AstNode::BinaryNode(times, Box::new(e.duplicate()), Box::new(rest));
                        Ok((from(&e, node), k))
                    },
                    Err(err) => Err(err),
                }
            } else {
                Ok((e, j + 1))
            }
        },
        Err(e) => Err(e),
    }
}

/// Parses a parameter (see `p_param`).
fn parse_param(ts: &Vec<Token>, i: usize) -> (r: Result<(AstNodeWrapper, usize), usize>)
    requires
        i <= ts.len() < u32::MAX,
    ensures
        res_model(r) == p_param(token_models(ts@), i as int),
        r matches Ok((_, j)) ==> i < j <= ts.len(),
{
    match parse_type(ts, i) {
        Ok((tw, j)) => {
            if !is_identifier(&kind(ts, j)) {
                return Err(j);
            }
            let t = AstNodeWrapper { node: AstNode::TypeNode(tw), source_ref: source_at(ts, i), type_ref: tw };
            let name = ts[j].duplicate();
            let w = AstNodeWrapper {
                node: AstNode::ParameterNode(name, Box::new(t)),
                source_ref: source_at(ts, i),
                type_ref: tw,
            };
            proof {
                let m = token_models(ts@);
                assert(p_type(m, i as int) == Ok::<(TypeWrapper, int), int>((tw, j as int)));
                assert(m[j as int] == name@);
                assert(w@.node == AstModel::ParameterNode(m[j as int], Box::new(t@)));
            }
            Ok((w, j + 1))
        },
        Err(e) => Err(e),
    }
}

/// Parses one or more parameters (see `p_param_list`).
fn parse_param_list(ts: &Vec<Token>, i: usize) -> (r: Result<(Vec<AstNodeWrapper>, usize), usize>)
    requires
        i <= ts.len() < u32::MAX,
    ensures
        list_res_model(r) == p_param_list(token_models(ts@), i as int),
        r matches Ok((_, j)) ==> i <= j <= ts.len(),
    decreases ts.len() - i,
{
    match parse_param(ts, i) {
        Ok((p, j)) => {
            if is_operator(&kind(ts, j), Operator::Comma) {
                match parse_param_list(ts, j + 1) {
                    Ok((rest, k)) => Ok((prepend(p, rest), k)),
                    Err(e) => Err(e),
                }
            } else {
                Ok((single(p), j))
            }
        },
        Err(e) => Err(e),
    }
}

/// Parses the parameters of a function (see `p_params`).
fn parse_params(ts: &Vec<Token>, i: usize) -> (r: Result<(Vec<AstNodeWrapper>, usize), usize>)
    requires
        i <= ts.len() < u32::MAX,
    ensures
        list_res_model(r) == p_params(token_models(ts@), i as int),
        r matches Ok((_, j)) ==> i <= j <= ts.len(),
{
    if is_bracket(&kind(ts, i), Bracket::RBracket) {
        Ok((empty_list(), i))
    } else {
        parse_param_list(ts, i)
    }
}

/// Parses an optional expression (see `p_opt_expr`).
fn parse_opt_expr(ts: &Vec<Token>, i: usize) -> (r: Result<(AstNodeWrapper, usize), usize>)
    requires
        i <= ts.len() < u32::MAX,
    ensures
        res_model(r) == p_opt_expr(token_models(ts@), i as int),
        r matches Ok((_, j)) ==> i <= j <= ts.len(),
{
    let t = kind(ts, i);
    if is_semicolon(&t) || is_bracket(&t, Bracket::RBracket) {
        Ok((null_node(), i))
    } else {
        parse_expr(ts, i)
    }
}

/// A declaration node of type `tw` starting at position `i`.
fn decl_node(ts: &Vec<Token>, i: usize, tw: TypeWrapper, node: AstNode) -> (r: AstNodeWrapper)
    ensures
        r@ == (WrapperModel { node: node@, source_ref: src_at(token_models(ts@), i as int), type_ref: tw }),
{
    AstNodeWrapper { node, source_ref: source_at(ts, i), type_ref: tw }
}

/// Parses a declaration (see `p_decl`).
#[verifier::rlimit(40)]
fn parse_decl(ts: &Vec<Token>, i: usize) -> (r: Result<(AstNodeWrapper, usize), usize>)
    requires
        i <= ts.len() < u32::MAX,
    ensures
        res_model(r) == p_decl(token_models(ts@), i as int),
        r matches Ok((_, j)) ==> i < j <= ts.len(),
    decreases ts.len() - i, 3nat,
{
    let ghost m = token_models(ts@);
    match parse_type(ts, i) {
        Ok((tw, j)) => {
            if !is_identifier(&kind(ts, j)) {
                return Err(j);
            }
            let ghost tm = WrapperModel { node: AstModel::TypeNode(tw), source_ref: src_at(m, i as int), type_ref: tw };
            let t = AstNodeWrapper { node: AstNode::TypeNode(tw), source_ref: source_at(ts, i), type_ref: tw };
            assert(t@ == tm);
            let name = ts[j].duplicate();
            assert(name@ == m[j as int]);
            let k = j + 1;
            let tk_k = kind(ts, k);
            if is_semicolon(&tk_k) {
                let node = AstNode::VarDeclNode(Box::new(t), name, Box::new(null_node()));
                Ok((decl_node(ts, i, tw, node), k + 1))
            } else if is_operator(&tk_k, Operator::Assign) {
                match parse_expr(ts, k + 1) {
                    Ok((e, n)) => {
                        if is_semicolon(&kind(ts, n)) {
                            let node = AstNode::VarDeclNode(Box::new(t), name, Box::new(e));
                            Ok((decl_node(ts, i, tw, node), n + 1))
                        } else {
                            Err(n)
                        }
                    },
                    Err(e) => Err(e),
                }
            } else if is_bracket(&tk_k, Bracket::LBracket) {
                match parse_params(ts, k + 1) {
                    Ok((ps, n)) => {
                        if !is_bracket(&kind(ts, n), Bracket::RBracket) {
                            return Err(n);
                        }
                        if is_semicolon(&kind(ts, n + 1)) {
                            let node = AstNode::FuncDeclNode(Box::new(t), name, ps, Box::new(null_node()));
                            Ok((decl_node(ts, i, tw, node), n + 2))
                        } else {
                            match parse_compound(ts, n + 1) {
                                Ok((body, q)) => {
                                    let node = AstNode::FuncDeclNode(Box::new(t), name, ps, Box::new(body));
                                    Ok((decl_node(ts, i, tw, node), q))
                                },
                                Err(e) => Err(e),
                            }
                        }
                    },
                    Err(e) => Err(e),
                }
            } else if is_bracket(&tk_k, Bracket::LSquare) {
                match parse_dims(ts, k) {
                    Ok((size, n)) => {
                        if is_semicolon(&kind(ts, n)) {
                            let node = AstNode::ArrayDeclNode(Box::new(t), name, Box::new(size));
                            Ok((decl_node(ts, i, tw, node), n + 1))
                        } else {
                            Err(n)
                        }
                    },
                    Err(e) => Err(e),
                }
            } else {
                Err(k)
            }
        },
        Err(e) => Err(e),
    }
}

/// Parses a block (see `p_compound`).
fn parse_compound(ts: &Vec<Token>, i: usize) -> (r: Result<(AstNodeWrapper, usize), usize>)
    requires
        i <= ts.len() < u32::MAX,
    ensures
        res_model(r) == p_compound(token_models(ts@), i as int),
        r matches Ok((_, j)) ==> i < j <= ts.len(),
    decreases ts.len() - i, 4nat,
{
    if !is_bracket(&kind(ts, i), Bracket::LCurly) {
        return Err(i);
    }
    match parse_stmts(ts, i + 1) {
        Ok((list, j)) => {
            if is_bracket(&kind(ts, j), Bracket::RCurly) {
                Ok((at(ts, i, AstNode::CompoundNode(list)), j + 1))
            } else {
                Err(j)
            }
        },
        Err(e) => Err(e),
    }
}

/// Parses the statements of a block (see `p_stmts`).
fn parse_stmts(ts: &Vec<Token>, i: usize) -> (r: Result<(Vec<AstNodeWrapper>, usize), usize>)
    requires
        i <= ts.len() < u32::MAX,
    ensures
        list_res_model(r) == p_stmts(token_models(ts@), i as int),
        r matches Ok((_, j)) ==> i <= j <= ts.len(),
    decreases ts.len() - i, 6nat,
{
    if is_bracket(&kind(ts, i), Bracket::RCurly) {
        return Ok((empty_list(), i));
    }
    if is_semicolon(&kind(ts, i)) {
        return parse_stmts(ts, i + 1);
    }
    match parse_statement(ts, i) {
        Ok((st, j)) => match parse_stmts(ts, j) {
            Ok((rest, k)) => Ok((prepend(st, rest), k)),
            Err(e) => Err(e),
        },
        Err(e) => Err(e),
    }
}

/// Parses a statement (see `p_statement`).
#[verifier::rlimit(60)]
fn parse_statement(ts: &Vec<Token>, i: usize) -> (r: Result<(AstNodeWrapper, usize), usize>)
    requires
        i <= ts.len() < u32::MAX,
    ensures
        res_model(r) == p_statement(token_models(ts@), i as int),
        r matches Ok((_, j)) ==> i < j <= ts.len(),
    decreases ts.len() - i, 5nat,
{
    let ghost m = token_models(ts@);
    let t = kind(ts, i);
    if is_bracket(&t, Bracket::LCurly) {
        parse_compound(ts, i)
    } else if is_keyword(&t, Keyword::Const) || is_type_name(&t) {
        parse_decl(ts, i)
    } else if is_keyword(&t, Keyword::If) || is_keyword(&t, Keyword::While) {
        if !is_bracket(&kind(ts, i + 1), Bracket::LBracket) {
            return Err(i + 1);
        }
        match parse_expr(ts, i + 2) {
            Ok((c, j)) => {
                if !is_bracket(&kind(ts, j), Bracket::RBracket) {
                    return Err(j);
                }
                match parse_compound(ts, j + 1) {
                    Ok((b, k)) => {
                        if is_keyword(&t, Keyword::While) {
                            Ok((at(ts, i, AstNode::WhileNode(Box::new(c), Box::new(b))), k))
                        } else if is_keyword(&kind(ts, k), Keyword::Else) {
                            match parse_compound(ts, k + 1) {
                                Ok((e, n)) => Ok((at(ts, i, AstNode::IfNode(Box::new(c), Box::new(b), Box::new(e))), n)),
                                Err(e) => Err(e),
                            }
                        } else {
                            Ok((at(ts, i, AstNode::IfNode(Box::new(c), Box::new(b), Box::new(null_node()))), k))
                        }
                    },
                    Err(e) => Err(e),
                }
            },
            Err(e) => Err(e),
        }
    } else if is_keyword(&t, Keyword::For) {
        if !is_bracket(&kind(ts, i + 1), Bracket::LBracket) {
            return Err(i + 1);
        }
        let (a, j) = match parse_opt_expr(ts, i + 2) {
            Ok(x) => x,
            Err(e) => {
                return Err(e);
            },
        };
        if !is_semicolon(&kind(ts, j)) {
            return Err(j);
        }
        let (b, k) = match parse_opt_expr(ts, j + 1) {
            Ok(x) => x,
            Err(e) => {
                return Err(e);
            },
        };
        if !is_semicolon(&kind(ts, k)) {
            return Err(k);
        }
        let (c, n) = match parse_opt_expr(ts, k + 1) {
            Ok(x) => x,
            Err(e) => {
                return Err(e);
            },
        };
        if !is_bracket(&kind(ts, n), Bracket::RBracket) {
            return Err(n);
        }
        match parse_compound(ts, n + 1) {
            Ok((body, q)) => {
                let node = AstNode::ForNode(Box::new(a), Box::new(b), Box::new(c), Box::new(body));
                Ok((at(ts, i, node), q))
            },
            Err(e) => Err(e),
        }
    } else if is_keyword(&t, Keyword::Return) {
        if is_semicolon(&kind(ts, i + 1)) {
            let node = AstNode::JumpNode(ts[i].duplicate(), Box::new(null_node()));
            Ok((at(ts, i, node), i + 2))
        } else {
            match parse_expr(ts, i + 1) {
                Ok((e, j)) => {
                    if is_semicolon(&kind(ts, j)) {
                        let node = AstNode::JumpNode(ts[i].duplicate(), Box::new(e));
                        Ok((at(ts, i, node), j + 1))
                    } else {
                        Err(j)
                    }
                },
                Err(e) => Err(e),
            }
        }
    } else if is_keyword(&t, Keyword::Break) || is_keyword(&t, Keyword::Continue) {
        if is_semicolon(&kind(ts, i + 1)) {
            let node = AstNode::JumpNode(ts[i].duplicate(), Box::new(null_node()));
            Ok((at(ts, i, node), i + 2))
        } else {
            Err(i + 1)
        }
    } else if is_semicolon(&t) {
        Ok((null_node(), i + 1))
    } else {
        match parse_expr(ts, i) {
            Ok((e, j)) => {
                if is_semicolon(&kind(ts, j)) {
                    let node = AstNode::ExprStatementNode(Box::new(e.duplicate()));
                    Ok((from(&e, node), j + 1))
                } else {
                    Err(j)
                }
            },
            Err(e) => Err(e),
        }
    }
}

/// Parses the declarations of a program (see `p_decls`).
fn parse_decls(ts: &Vec<Token>, i: usize) -> (r: Result<(Vec<AstNodeWrapper>, usize), usize>)
    requires
        i <= ts.len() < u32::MAX,
    ensures
        list_res_model(r) == p_decls(token_models(ts@), i as int),
        r matches Ok((_, j)) ==> i <= j <= ts.len(),
    decreases ts.len() - i,
{
    match parse_decl(ts, i) {
        Ok((d, j)) => {
            if is_eof(&kind(ts, j)) {
                Ok((single(d), j))
            } else {
                match parse_decls(ts, j) {
                    Ok((rest, k)) => Ok((prepend(d, rest), k)),
                    Err(e) => Err(e),
                }
            }
        },
        Err(e) => Err(e),
    }
}

/// A syntax error: the position of the token at fault in the list, its line and first column,
/// and its kind (the end of file past the last token).
pub struct ParseError {
    pub position: usize,
    pub line_number: u32,
    pub first_character: u32,
    pub found: Tk,
}

/// Whether `err` describes the token at position `e` of `ts`.
pub open spec fn describes(err: ParseError, ts: Seq<TokenModel>, e: int) -> bool {
    &&& err.position == e
    &&& err.found@ == tk(ts, e)
    &&& err.line_number == (if 0 <= e < ts.len() { ts[e].line_number } else { 0 })
    &&& err.first_character == (if 0 <= e < ts.len() { ts[e].first_character } else { 0 })
}

/// The syntax tree of a program, a list of declarations (see `p_program`), or the syntax error
/// at the first token where the grammar cannot go on.
pub fn parse(tokens: &Vec<Token>) -> (r: Result<AstNodeWrapper, Vec<ParseError>>)
    requires
        tokens.len() < u32::MAX,
    ensures
        match r {
            Ok(w) => p_program(token_models(tokens@)) == Ok::<WrapperModel, int>(w@),
            Err(errs) => p_program(token_models(tokens@)) matches Err(e) && errs@.len() == 1 && describes(
                errs@[0],
                token_models(tokens@),
                e,
            ),
        },
{
    match parse_decls(tokens, 0) {
        Ok((list, _)) => Ok(at(tokens, 0, AstNode::DeclarationList(list))),
        Err(e) => {
            let (line_number, first_character) = if e < tokens.len() {
                (tokens[e].line_number, tokens[e].first_character)
            } else {
                (0, 0)
            };
            let err = ParseError { position: e, line_number, first_character, found: kind(tokens, e) };
            let mut errs: Vec<ParseError> = Vec::new();
            errs.push(err);
            Err(errs)
        },
    }
}

/// The parser of the tokens of one file.
pub struct Parser {
    token_list: Vec<Token>,
    file_name: String,
}

impl Parser {
    /// A parser of the tokens of the file `file_name`.
    pub fn new(token_list: Vec<Token>, file_name: String) -> (r: Parser)
        ensures
            r.tokens() == token_models(token_list@),
            r.file_name()@ == file_name@,
    {
        Parser { token_list, file_name }
    }

    /// The tokens to parse.
    pub closed spec fn tokens(&self) -> Seq<TokenModel> {
        token_models(self.token_list@)
    }

    /// The name of the file the tokens come from.
    pub closed spec fn file_name(&self) -> String {
        self.file_name
    }

    /// The name of the file the tokens come from, for the error messages.
    pub fn get_file_name(&self) -> (r: &String)
        ensures
            r@ == self.file_name()@,
    {
        &self.file_name
    }

    /// Parses the tokens (see `parse`).
    pub fn parse(&self) -> (r: Result<AstNodeWrapper, Vec<ParseError>>)
        requires
            self.tokens().len() < u32::MAX,
        ensures
            match r {
                Ok(w) => p_program(self.tokens()) == Ok::<WrapperModel, int>(w@),
                Err(errs) => p_program(self.tokens()) matches Err(e) && errs@.len() == 1 && describes(
                    errs@[0],
                    self.tokens(),
                    e,
                ),
            },
    {
        parse(&self.token_list)
    }
}

} // verus!
