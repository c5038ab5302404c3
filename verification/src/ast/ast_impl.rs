//! Nodes of the abstract syntax tree, their constructors and their printing as source text.

use vstd::prelude::*;
use crate::ast::type_wrapper::{default_type, repeat_char, type_text};
use crate::lexer::token::{tk_text, Token, TokenModel};
use crate::text::push_str;
use vstd::string::StrSliceExecFns;

pub use crate::ast::type_wrapper::{TypeNative, TypeWrapper};

verus! {

/// A node of the abstract syntax tree.
#[derive(Debug, PartialEq, Eq, PartialOrd, Ord)]
pub enum AstNode {
    ArrayDeclNode(Box<AstNodeWrapper>, Token, Box<AstNodeWrapper>),
    BinaryNode(Token, Box<AstNodeWrapper>, Box<AstNodeWrapper>),
    CastNode(Box<AstNodeWrapper>, Box<AstNodeWrapper>),
    CompoundNode(Vec<AstNodeWrapper>),
    DeclarationList(Vec<AstNodeWrapper>),
    ExprStatementNode(Box<AstNodeWrapper>),
    ForNode(Box<AstNodeWrapper>, Box<AstNodeWrapper>, Box<AstNodeWrapper>, Box<AstNodeWrapper>),
    FuncDeclNode(Box<AstNodeWrapper>, Token, Vec<AstNodeWrapper>, Box<AstNodeWrapper>),
    IfNode(Box<AstNodeWrapper>, Box<AstNodeWrapper>, Box<AstNodeWrapper>),
    JumpNode(Token, Box<AstNodeWrapper>),
    NullNode,
    ParameterNode(Token, Box<AstNodeWrapper>),
    PrefixNode(Token, Box<AstNodeWrapper>),
    PrimaryNode(Token),
    ProcedureNode(Box<AstNodeWrapper>, Vec<AstNodeWrapper>),
    SelectorNode(Box<AstNodeWrapper>, Box<AstNodeWrapper>),
    TypeNode(TypeWrapper),
    VarDeclNode(Box<AstNodeWrapper>, Token, Box<AstNodeWrapper>),
    WhileNode(Box<AstNodeWrapper>, Box<AstNodeWrapper>),
}

/// The stretch of source text a node comes from: the line and column where it starts and the
/// line and column where it ends.
#[derive(Clone, Copy, Debug, PartialEq, Eq, Structural, PartialOrd, Ord)]
pub struct SourceReference {
    pub init_line: u32,
    pub init_char: u32,
    pub last_char: u32,
    pub last_line: u32,
}

/// A node of the tree with the source text it comes from and its type.
#[derive(Debug, PartialEq, Eq, PartialOrd, Ord)]
pub struct AstNodeWrapper {
    pub node: AstNode,
    pub source_ref: SourceReference,
    pub type_ref: TypeWrapper,
}

/// A node of the tree as a mathematical value: tokens are seen through their models and lists of
/// nodes are sequences.
pub enum AstModel {
    ArrayDeclNode(Box<WrapperModel>, TokenModel, Box<WrapperModel>),
    BinaryNode(TokenModel, Box<WrapperModel>, Box<WrapperModel>),
    CastNode(Box<WrapperModel>, Box<WrapperModel>),
    CompoundNode(Seq<WrapperModel>),
    DeclarationList(Seq<WrapperModel>),
    ExprStatementNode(Box<WrapperModel>),
    ForNode(Box<WrapperModel>, Box<WrapperModel>, Box<WrapperModel>, Box<WrapperModel>),
    FuncDeclNode(Box<WrapperModel>, TokenModel, Seq<WrapperModel>, Box<WrapperModel>),
    IfNode(Box<WrapperModel>, Box<WrapperModel>, Box<WrapperModel>),
    JumpNode(TokenModel, Box<WrapperModel>),
    NullNode,
    ParameterNode(TokenModel, Box<WrapperModel>),
    PrefixNode(TokenModel, Box<WrapperModel>),
    PrimaryNode(TokenModel),
    ProcedureNode(Box<WrapperModel>, Seq<WrapperModel>),
    SelectorNode(Box<WrapperModel>, Box<WrapperModel>),
    TypeNode(TypeWrapper),
    VarDeclNode(Box<WrapperModel>, TokenModel, Box<WrapperModel>),
    WhileNode(Box<WrapperModel>, Box<WrapperModel>),
}

/// A wrapped node as a mathematical value.
pub struct WrapperModel {
    pub node: AstModel,
    pub source_ref: SourceReference,
    pub type_ref: TypeWrapper,
}

/// The model of a node.
pub open spec fn node_model(n: AstNode) -> AstModel
    decreases n,
{
    match n {
        AstNode::ArrayDeclNode(a, t, b) => AstModel::ArrayDeclNode(
            Box::new(wrapper_model(*a)),
            t@,
            Box::new(wrapper_model(*b)),
        ),
        AstNode::BinaryNode(t, a, b) => AstModel::BinaryNode(
            t@,
            Box::new(wrapper_model(*a)),
            Box::new(wrapper_model(*b)),
        ),
        AstNode::CastNode(a, b) => AstModel::CastNode(
            Box::new(wrapper_model(*a)),
            Box::new(wrapper_model(*b)),
        ),
        AstNode::CompoundNode(v) => AstModel::CompoundNode(list_model(v@)),
        AstNode::DeclarationList(v) => AstModel::DeclarationList(list_model(v@)),
        AstNode::ExprStatementNode(a) => AstModel::ExprStatementNode(Box::new(wrapper_model(*a))),
        AstNode::ForNode(a, b, c, d) => AstModel::ForNode(
            Box::new(wrapper_model(*a)),
            Box::new(wrapper_model(*b)),
            Box::new(wrapper_model(*c)),
            Box::new(wrapper_model(*d)),
        ),
        AstNode::FuncDeclNode(a, t, v, b) => AstModel::FuncDeclNode(
            Box::new(wrapper_model(*a)),
            t@,
            list_model(v@),
            Box::new(wrapper_model(*b)),
        ),
        AstNode::IfNode(a, b, c) => AstModel::IfNode(
            Box::new(wrapper_model(*a)),
            Box::new(wrapper_model(*b)),
            Box::new(wrapper_model(*c)),
        ),
        AstNode::JumpNode(t, a) => AstModel::JumpNode(t@, Box::new(wrapper_model(*a))),
        AstNode::NullNode => AstModel::NullNode,
        AstNode::ParameterNode(t, a) => AstModel::ParameterNode(t@, Box::new(wrapper_model(*a))),
        AstNode::PrefixNode(t, a) => AstModel::PrefixNode(t@, Box::new(wrapper_model(*a))),
        AstNode::PrimaryNode(t) => AstModel::PrimaryNode(t@),
        AstNode::ProcedureNode(a, v) => AstModel::ProcedureNode(
            Box::new(wrapper_model(*a)),
            list_model(v@),
        ),
        AstNode::SelectorNode(a, b) => AstModel::SelectorNode(
            Box::new(wrapper_model(*a)),
            Box::new(wrapper_model(*b)),
        ),
        AstNode::TypeNode(t) => AstModel::TypeNode(t),
        AstNode::VarDeclNode(a, t, b) => AstModel::VarDeclNode(
            Box::new(wrapper_model(*a)),
            t@,
            Box::new(wrapper_model(*b)),
        ),
        AstNode::WhileNode(a, b) => AstModel::WhileNode(
            Box::new(wrapper_model(*a)),
            Box::new(wrapper_model(*b)),
        ),
    }
}

/// The model of a wrapped node.
pub open spec fn wrapper_model(w: AstNodeWrapper) -> WrapperModel
    decreases w,
{
    WrapperModel { node: node_model(w.node), source_ref: w.source_ref, type_ref: w.type_ref }
}

/// The models of a sequence of wrapped nodes, in order.
pub open spec fn list_model(s: Seq<AstNodeWrapper>) -> Seq<WrapperModel>
    decreases s,
{
    if s.len() == 0 {
        Seq::empty()
    } else {
        list_model(s.subrange(0, s.len() - 1)).push(wrapper_model(s[s.len() - 1]))
    }
}

impl View for AstNode {
    type V = AstModel;

    open spec fn view(&self) -> AstModel {
        node_model(*self)
    }
}

impl View for AstNodeWrapper {
    type V = WrapperModel;

    open spec fn view(&self) -> WrapperModel {
        wrapper_model(*self)
    }
}

/// The model of a wrapped node is made of the model of its node and its own positions and type.
pub proof fn lemma_wrapper_model(w: AstNodeWrapper)
    ensures
        w@.node == w.node@,
        w@.type_ref == w.type_ref,
        w@.source_ref == w.source_ref,
{
}

/// The models of a sequence of nodes are the models of its elements.
pub proof fn lemma_list_model(s: Seq<AstNodeWrapper>)
    ensures
        list_model(s).len() == s.len(),
        forall|i: int| 0 <= i < s.len() ==> #[trigger] list_model(s)[i] == wrapper_model(s[i]),
    decreases s.len(),
{
    if s.len() > 0 {
        let p = s.subrange(0, s.len() - 1);
        lemma_list_model(p);
        assert forall|i: int| 0 <= i < s.len() implies #[trigger] list_model(s)[i] == wrapper_model(
            s[i],
        ) by {
            if i < s.len() - 1 {
                assert(p[i] == s[i]);
            }
        }
    }
}

/// The model of a sequence extended by one node is the extended sequence of models.
pub proof fn lemma_list_model_push(s: Seq<AstNodeWrapper>, w: AstNodeWrapper)
    ensures
        list_model(s.push(w)) == list_model(s).push(wrapper_model(w)),
{
    assert(s.push(w).subrange(0, s.len() as int) =~= s);
}

/// The indentation of a line at depth `n`: two spaces per level.
pub open spec fn indent_text(n: nat) -> Seq<char> {
    repeat_char(' ', 2 * n)
}

/// The text of a node printed at indentation depth `indent`. Every node but a block starts with
/// the indentation; expressions are fully parenthesised; statements end with a newline; blocks
/// print their statements one level deeper; an `else` branch is printed only when its text is
/// longer than the indentation alone.
pub open spec fn wrapper_text(m: WrapperModel, indent: nat) -> Seq<char>
    decreases m, 1nat,
{
    let prefix = if m.node is CompoundNode { Seq::empty() } else { indent_text(indent) };
    prefix + node_text(m, indent)
}

/// The text of a node without its indentation.
pub open spec fn node_text(m: WrapperModel, indent: nat) -> Seq<char>
    decreases m, 0nat,
{
    match m.node {
        AstModel::NullNode => Seq::empty(),
        AstModel::PrimaryNode(t) => tk_text(t.tk),
        AstModel::BinaryNode(t, a, b) => "("@ + wrapper_text(*a, 0) + " "@ + tk_text(t.tk) + " "@
            + wrapper_text(*b, 0) + ")"@,
        AstModel::PrefixNode(t, a) => "("@ + tk_text(t.tk) + wrapper_text(*a, 0) + ")"@,
        AstModel::CastNode(c, a) => "(("@ + wrapper_text(*c, 0) + ")"@ + wrapper_text(*a, 0)
            + ")"@,
        AstModel::TypeNode(t) => type_text(t),
        AstModel::ProcedureNode(e, args) => "("@ + wrapper_text(*e, 0) + ")("@ + join_text(args)
            + ")"@,
        AstModel::SelectorNode(e, a) => "(("@ + wrapper_text(*e, 0) + ")"@ + "["@ + wrapper_text(
            *a,
            0,
        ) + "])"@,
        AstModel::CompoundNode(v) => if v.len() == 0 {
            "{}\n"@
        } else {
            "{\n"@ + list_text(v, indent + 1) + indent_text(indent) + "}\n"@
        },
        AstModel::ExprStatementNode(e) => (if e.node is NullNode {
            Seq::empty()
        } else {
            wrapper_text(*e, 0)
        }) + ";\n"@,
        AstModel::IfNode(c, t, e) => "if("@ + wrapper_text(*c, 0) + ")"@ + wrapper_text(*t, indent)
            + (if wrapper_text(*e, indent).len() > 2 * indent {
            indent_text(indent) + "else"@ + wrapper_text(*e, indent)
        } else {
            Seq::empty()
        }),
        AstModel::WhileNode(c, b) => "while("@ + wrapper_text(*c, 0) + ")"@ + wrapper_text(
            *b,
            indent,
        ),
        AstModel::ForNode(d, c, a, b) => "for("@ + wrapper_text(*d, 0) + "; "@ + wrapper_text(*c, 0)
            + "; "@ + wrapper_text(*a, 0) + ")"@ + wrapper_text(*b, indent),
        AstModel::JumpNode(k, e) => if e.node is NullNode {
            tk_text(k.tk) + ";\n"@
        } else {
            tk_text(k.tk) + " "@ + wrapper_text(*e, 0) + ";\n"@
        },
        AstModel::VarDeclNode(t, id, e) => wrapper_text(*t, 0) + " "@ + tk_text(id.tk) + (if e.node is NullNode {
            ";\n"@
        } else {
            " = "@ + wrapper_text(*e, 0) + ";\n"@
        }),
        AstModel::FuncDeclNode(t, id, args, b) => wrapper_text(*t, 0) + " "@ + tk_text(id.tk) + "("@
            + join_text(args) + ")"@ + (if b.node is NullNode {
            ";\n"@
        } else {
            wrapper_text(*b, indent)
        }),
        AstModel::ParameterNode(id, t) => wrapper_text(*t, 0) + " "@ + tk_text(id.tk),
        AstModel::ArrayDeclNode(t, id, a) => wrapper_text(*t, 0) + " "@ + tk_text(id.tk) + "["@
            + wrapper_text(*a, 0) + "];\n"@,
        AstModel::DeclarationList(v) => list_text(v, indent),
    }
}

/// The texts of a sequence of nodes at the same indentation, one after the other.
pub open spec fn list_text(s: Seq<WrapperModel>, indent: nat) -> Seq<char>
    decreases s, 2nat,
{
    if s.len() == 0 {
        Seq::empty()
    } else {
        list_text(s.subrange(0, s.len() - 1), indent) + wrapper_text(s[s.len() - 1], indent)
    }
}

/// The texts of a sequence of expressions printed without indentation, separated by commas.
pub open spec fn join_text(s: Seq<WrapperModel>) -> Seq<char>
    decreases s, 2nat,
{
    if s.len() == 0 {
        Seq::empty()
    } else if s.len() == 1 {
        wrapper_text(s[0], 0)
    } else {
        join_text(s.subrange(0, s.len() - 1)) + ","@ + wrapper_text(s[s.len() - 1], 0)
    }
}

/// The height of a node: zero for a node without children, else one more than the highest child.
pub open spec fn height(m: WrapperModel) -> nat
    decreases m, 0nat,
{
    match m.node {
        AstModel::NullNode | AstModel::PrimaryNode(_) | AstModel::TypeNode(_) => 0,
        AstModel::BinaryNode(_, a, b) => 1 + max2(height(*a), height(*b)),
        AstModel::PrefixNode(_, a) => 1 + height(*a),
        AstModel::CastNode(a, b) => 1 + max2(height(*a), height(*b)),
        AstModel::ProcedureNode(e, v) => 1 + max2(height(*e), list_height(v)),
        AstModel::SelectorNode(a, b) => 1 + max2(height(*a), height(*b)),
        AstModel::CompoundNode(v) => 1 + list_height(v),
        AstModel::ExprStatementNode(a) => 1 + height(*a),
        AstModel::IfNode(a, b, c) => 1 + max2(height(*a), max2(height(*b), height(*c))),
        AstModel::WhileNode(a, b) => 1 + max2(height(*a), height(*b)),
        AstModel::ForNode(a, b, c, d) => 1 + max2(
            max2(height(*a), height(*b)),
            max2(height(*c), height(*d)),
        ),
        AstModel::JumpNode(_, a) => 1 + height(*a),
        AstModel::VarDeclNode(a, _, b) => 1 + max2(height(*a), height(*b)),
        AstModel::FuncDeclNode(a, _, v, b) => 1 + max2(max2(height(*a), list_height(v)), height(*b)),
        AstModel::ParameterNode(_, a) => 1 + height(*a),
        AstModel::ArrayDeclNode(a, _, b) => 1 + max2(height(*a), height(*b)),
        AstModel::DeclarationList(v) => 1 + list_height(v),
    }
}

/// The greatest height of the nodes of a sequence, zero when it is empty.
pub open spec fn list_height(s: Seq<WrapperModel>) -> nat
    decreases s, 1nat,
{
    if s.len() == 0 {
        0
    } else {
        max2(list_height(s.subrange(0, s.len() - 1)), height(s[s.len() - 1]))
    }
}

/// The greater of two natural numbers.
pub open spec fn max2(a: nat, b: nat) -> nat {
    if a >= b { a } else { b }
}

/// No node of a sequence is higher than the sequence.
pub proof fn lemma_list_height(s: Seq<WrapperModel>, i: int)
    requires
        0 <= i < s.len(),
    ensures
        height(s[i]) <= list_height(s),
    decreases s.len(),
{
    if i < s.len() - 1 {
        let p = s.subrange(0, s.len() - 1);
        lemma_list_height(p, i);
        assert(p[i] == s[i]);
    }
}

/// The text of a sequence extended by one node is the text of the sequence followed by the text
/// of the node.
pub proof fn lemma_list_text_push(s: Seq<WrapperModel>, m: WrapperModel, indent: nat)
    ensures
        list_text(s.push(m), indent) == list_text(s, indent) + wrapper_text(m, indent),
{
    assert(s.push(m).subrange(0, s.len() as int) =~= s);
}

/// The comma-separated text of a sequence extended by one node.
pub proof fn lemma_join_text_push(s: Seq<WrapperModel>, m: WrapperModel)
    ensures
        join_text(s.push(m)) == if s.len() == 0 {
            wrapper_text(m, 0)
        } else {
            join_text(s) + ","@ + wrapper_text(m, 0)
        },
{
    assert(s.push(m).subrange(0, s.len() as int) =~= s);
}


/// The model of the empty wrapped node: a null node with no source text and no type.
pub open spec fn null_wrapper() -> WrapperModel {
    WrapperModel {
        node: AstModel::NullNode,
        source_ref: default_source_ref(),
        type_ref: default_type(),
    }
}

/// The source reference of a node built by hand: every position zero.
pub open spec fn default_source_ref() -> SourceReference {
    SourceReference { init_line: 0, init_char: 0, last_char: 0, last_line: 0 }
}

impl Default for SourceReference {
    /// A source reference with every position zero.
    fn default() -> (r: SourceReference)
        ensures
            r == default_source_ref(),
    {
        SourceReference { init_line: 0, init_char: 0, last_char: 0, last_line: 0 }
    }
}

impl Default for AstNode {
    /// The default node is the null node.
    fn default() -> (r: AstNode)
        ensures
            r@ == AstModel::NullNode,
    {
        AstNode::NullNode
    }
}

impl Default for AstNodeWrapper {
    /// A null node with no source text and no type.
    fn default() -> (r: AstNodeWrapper)
        ensures
            r@ == null_wrapper(),
    {
        AstNodeWrapper {
            node: AstNode::NullNode,
            source_ref: SourceReference::default(),
            type_ref: TypeWrapper::default(),
        }
    }
}

/// A copy of a sequence of nodes.
fn duplicate_list(v: &Vec<AstNodeWrapper>) -> (r: Vec<AstNodeWrapper>)
    ensures
        list_model(r@) == list_model(v@),
    decreases v@, 0nat,
{
    let mut r: Vec<AstNodeWrapper> = Vec::new();
    let mut i: usize = 0;
    while i < v.len()
        invariant
            i <= v.len(),
            list_model(r@) == list_model(v@.subrange(0, i as int)),
        decreases v.len() - i,
    {
        assert(decreases_to!(v@ => v@[i as int]));
        let d = v[i].duplicate();
        proof {
            lemma_list_model_push(r@, d);
            lemma_list_model_push(v@.subrange(0, i as int), v@[i as int]);
            assert(v@.subrange(0, i as int).push(v@[i as int]) =~= v@.subrange(0, i + 1));
        }
        r.push(d);
        i = i + 1;
    }
    assert(v@.subrange(0, v.len() as int) =~= v@);
    r
}

/// Appends the texts of a sequence of nodes at the same indentation to `s`.
fn push_list_text(v: &Vec<AstNodeWrapper>, indent: u32, s: &mut String)
    requires
        indent + list_height(list_model(v@)) <= u32::MAX,
    ensures
        final(s)@ == old(s)@ + list_text(list_model(v@), indent as nat),
    decreases v@, 0nat,
{
    let ghost s0 = s@;
    proof {
        lemma_list_model(v@);
    }
    let mut i: usize = 0;
    while i < v.len()
        invariant
            i <= v.len(),
            indent + list_height(list_model(v@)) <= u32::MAX,
            list_model(v@).len() == v@.len(),
            forall|j: int| 0 <= j < v@.len() ==> #[trigger] list_model(v@)[j] == v@[j]@,
            s@ == s0 + list_text(list_model(v@.subrange(0, i as int)), indent as nat),
        decreases v.len() - i,
    {
        proof {
            lemma_list_height(list_model(v@), i as int);
        }
        assert(decreases_to!(v@ => v@[i as int]));
        v[i].push_text(indent, s);
        proof {
            let p = v@.subrange(0, i as int);
            assert(p.push(v@[i as int]) =~= v@.subrange(0, i + 1));
            lemma_list_model_push(p, v@[i as int]);
            lemma_list_text_push(list_model(p), v@[i as int]@, indent as nat);
        }
        i = i + 1;
    }
    assert(v@.subrange(0, v.len() as int) =~= v@);
}

/// Appends the comma-separated texts of a sequence of expressions to `s`.
fn push_join_text(v: &Vec<AstNodeWrapper>, s: &mut String)
    requires
        list_height(list_model(v@)) <= u32::MAX,
    ensures
        final(s)@ == old(s)@ + join_text(list_model(v@)),
    decreases v@, 0nat,
{
    let ghost s0 = s@;
    proof {
        lemma_list_model(v@);
    }
    let mut i: usize = 0;
    while i < v.len()
        invariant
            i <= v.len(),
            list_height(list_model(v@)) <= u32::MAX,
            list_model(v@).len() == v@.len(),
            forall|j: int| 0 <= j < v@.len() ==> #[trigger] list_model(v@)[j] == v@[j]@,
            s@ == s0 + join_text(list_model(v@.subrange(0, i as int))),
        decreases v.len() - i,
    {
        proof {
            lemma_list_height(list_model(v@), i as int);
        }
        let ghost before = s@;
        if i > 0 {
            push_str(s, ",");
        }
        assert(decreases_to!(v@ => v@[i as int]));
        v[i].push_text(0, s);
        proof {
            let p = v@.subrange(0, i as int);
            assert(p.push(v@[i as int]) =~= v@.subrange(0, i + 1));
            lemma_list_model_push(p, v@[i as int]);
            lemma_join_text_push(list_model(p), v@[i as int]@);
            assert(s@ =~= s0 + join_text(list_model(v@.subrange(0, i + 1))));
        }
        i = i + 1;
    }
    assert(v@.subrange(0, v.len() as int) =~= v@);
}

impl AstNodeWrapper {
    /// The indentation for depth `indent`: two spaces per level.
    fn get_indent(&self, indent: u32) -> (r: String)
        ensures
            r@ == indent_text(indent as nat),
    {
        let mut result = String::new();
        let mut i: u32 = 0;
        while i < indent
            invariant
                i <= indent,
                result@ == indent_text(i as nat),
            decreases indent - i,
        {
            push_str(&mut result, "  ");
            proof {
                reveal_strlit("  ");
                assert(repeat_char(' ', (2 * i + 1) as nat) == repeat_char(' ', 2 * i as nat).push(' '));
                assert(repeat_char(' ', (2 * i + 2) as nat) == repeat_char(' ', (2 * i + 1) as nat).push(' '));
                assert(result@ =~= indent_text((i + 1) as nat));
            }
            i = i + 1;
        }
        result
    }

    /// Whether the wrapped node is the null node.
    pub fn is_null(&self) -> (b: bool)
        ensures
            b == (self@.node is NullNode),
    {
        match self.node {
            AstNode::NullNode => true,
            _ => false,
        }
    }

    /// Appends the text of the node, printed at depth `indent`, to `s`.
    pub fn push_text(&self, indent: u32, s: &mut String)
        requires
            indent + height(self@) <= u32::MAX,
        ensures
            final(s)@ == old(s)@ + wrapper_text(self@, indent as nat),
        decreases *self, 1nat,
    {
        let ghost s0 = s@;
        match &self.node {
            AstNode::CompoundNode(_) => {},
            _ => push_str(s, self.get_indent(indent).as_str()),
        }
        let ghost s1 = s@;
        match &self.node {
            AstNode::NullNode | AstNode::PrimaryNode(..) | AstNode::BinaryNode(..) | AstNode::PrefixNode(..) | AstNode::CastNode(..) | AstNode::TypeNode(..) | AstNode::ProcedureNode(..) | AstNode::SelectorNode(..) => self.push_expr_text(indent, s),
            AstNode::CompoundNode(..) | AstNode::ExprStatementNode(..) => self.push_block_text(indent, s),
            AstNode::WhileNode(..) | AstNode::ForNode(..) | AstNode::JumpNode(..) => self.push_loop_text(indent, s),
            AstNode::IfNode(..) => self.push_cond_text(indent, s),
            AstNode::VarDeclNode(..) | AstNode::FuncDeclNode(..) | AstNode::ParameterNode(..) | AstNode::ArrayDeclNode(..) | AstNode::DeclarationList(..) => self.push_decl_text(indent, s),
        }
        assert(s@ =~= s0 + wrapper_text(self@, indent as nat));
    }

    /// Appends the text of an expression node, without its indentation, to `s`.
    #[verifier::spinoff_prover]
    fn push_expr_text(&self, indent: u32, s: &mut String)
        requires
            indent + height(self@) <= u32::MAX,
            self@.node is NullNode || self@.node is PrimaryNode || self@.node is BinaryNode || self@.node is PrefixNode || self@.node is CastNode || self@.node is TypeNode || self@.node is ProcedureNode || self@.node is SelectorNode,
        ensures
            final(s)@ == old(s)@ + node_text(self@, indent as nat),
        decreases *self, 0nat,
    {
        let ghost s0 = s@;
        let ghost m = self@;
        match &self.node {
            AstNode::NullNode => {
                assert(s@ =~= s0 + node_text(m, indent as nat));
            },
            AstNode::PrimaryNode(value) => {
                value.tk.push_text(s);
                assert(s@ =~= s0 + node_text(m, indent as nat));
            },
            AstNode::BinaryNode(tk, expr1, expr2) => {
                push_str(s, "(");
                expr1.push_text(0, s);
                push_str(s, " ");
                tk.tk.push_text(s);
                push_str(s, " ");
                expr2.push_text(0, s);
                push_str(s, ")");
                assert(s@ =~= s0 + node_text(m, indent as nat));
            },
            AstNode::PrefixNode(tk, expr) => {
                push_str(s, "(");
                tk.tk.push_text(s);
                expr.push_text(0, s);
                push_str(s, ")");
                assert(s@ =~= s0 + node_text(m, indent as nat));
            },
            AstNode::CastNode(cn, expr) => {
                push_str(s, "((");
                cn.push_text(0, s);
                push_str(s, ")");
                expr.push_text(0, s);
                push_str(s, ")");
                assert(s@ =~= s0 + node_text(m, indent as nat));
            },
            AstNode::TypeNode(tt) => {
                tt.push_text(s);
                assert(s@ =~= s0 + node_text(m, indent as nat));
            },
            AstNode::ProcedureNode(expr, args) => {
                push_str(s, "(");
                expr.push_text(0, s);
                push_str(s, ")(");
                push_join_text(args, s);
                push_str(s, ")");
                assert(s@ =~= s0 + node_text(m, indent as nat));
            },
            AstNode::SelectorNode(expr, args) => {
                push_str(s, "((");
                expr.push_text(0, s);
                push_str(s, ")");
                push_str(s, "[");
                args.push_text(0, s);
                push_str(s, "])");
                assert(s@ =~= s0 + node_text(m, indent as nat));
            },
            _ => {},
        }
    }

    /// Appends the text of a statement node, without its indentation, to `s`.
    #[verifier::spinoff_prover]
    fn push_block_text(&self, indent: u32, s: &mut String)
        requires
            indent + height(self@) <= u32::MAX,
            self@.node is CompoundNode || self@.node is ExprStatementNode,
        ensures
            final(s)@ == old(s)@ + node_text(self@, indent as nat),
        decreases *self, 0nat,
    {
        let ghost s0 = s@;
        let ghost m = self@;
        match &self.node {
            AstNode::CompoundNode(value) => {
                proof {
                    lemma_list_model(value@);
                }
                if value.len() == 0 {
                    push_str(s, "{}\n");
                } else {
                    push_str(s, "{\n");
                    push_list_text(value, indent + 1, s);
                    push_str(s, self.get_indent(indent).as_str());
                    push_str(s, "}\n");
                }
                assert(s@ =~= s0 + node_text(m, indent as nat));
            },
            AstNode::ExprStatementNode(expr) => {
                if !expr.is_null() {
                    expr.push_text(0, s);
                }
                push_str(s, ";\n");
                assert(s@ =~= s0 + node_text(m, indent as nat));
            },
            _ => {},
        }
    }

    /// Appends the text of a loop or jump node, without its indentation, to `s`.
    #[verifier::spinoff_prover]
    fn push_loop_text(&self, indent: u32, s: &mut String)
        requires
            indent + height(self@) <= u32::MAX,
            self@.node is WhileNode || self@.node is ForNode || self@.node is JumpNode,
        ensures
            final(s)@ == old(s)@ + node_text(self@, indent as nat),
        decreases *self, 0nat,
    {
        let ghost s0 = s@;
        let ghost m = self@;
        match &self.node {
            AstNode::WhileNode(expr, statements) => {
                push_str(s, "while(");
                expr.push_text(0, s);
                push_str(s, ")");
                statements.push_text(indent, s);
                assert(s@ =~= s0 + node_text(m, indent as nat));
            },
            AstNode::ForNode(decl, expr, ass, statements) => {
                push_str(s, "for(");
                decl.push_text(0, s);
                push_str(s, "; ");
                expr.push_text(0, s);
                push_str(s, "; ");
                ass.push_text(0, s);
                push_str(s, ")");
                statements.push_text(indent, s);
                assert(s@ =~= s0 + node_text(m, indent as nat));
            },
            AstNode::JumpNode(kw, expr) => {
                if expr.is_null() {
                    kw.tk.push_text(s);
                    push_str(s, ";\n");
                } else {
                    kw.tk.push_text(s);
                    push_str(s, " ");
                    expr.push_text(0, s);
                    push_str(s, ";\n");
                }
                assert(s@ =~= s0 + node_text(m, indent as nat));
            },
            _ => {},
        }
    }

    /// Appends the text of a conditional node, without its indentation, to `s`.
    #[verifier::spinoff_prover]
    fn push_cond_text(&self, indent: u32, s: &mut String)
        requires
            indent + height(self@) <= u32::MAX,
            self@.node is IfNode,
        ensures
            final(s)@ == old(s)@ + node_text(self@, indent as nat),
        decreases *self, 0nat,
    {
        let ghost s0 = s@;
        let ghost m = self@;
        match &self.node {
            AstNode::IfNode(expr, statements_if, statements_else) => {
                push_str(s, "if(");
                expr.push_text(0, s);
                push_str(s, ")");
                statements_if.push_text(indent, s);
                let mut else_print = String::new();
                statements_else.push_text(indent, &mut else_print);
                assert(else_print@ =~= wrapper_text(statements_else@, indent as nat));
                let else_len = else_print.as_str().unicode_len();
                if else_len as u64 > 2 * (indent as u64) {
                    push_str(s, self.get_indent(indent).as_str());
                    push_str(s, "else");
                    push_str(s, else_print.as_str());
                }
                assert(s@ =~= s0 + node_text(m, indent as nat));
            },
            _ => {},
        }
    }

    /// Appends the text of a declaration node, without its indentation, to `s`.
    #[verifier::spinoff_prover]
    fn push_decl_text(&self, indent: u32, s: &mut String)
        requires
            indent + height(self@) <= u32::MAX,
            self@.node is VarDeclNode || self@.node is FuncDeclNode || self@.node is ParameterNode || self@.node is ArrayDeclNode || self@.node is DeclarationList,
        ensures
            final(s)@ == old(s)@ + node_text(self@, indent as nat),
        decreases *self, 0nat,
    {
        let ghost s0 = s@;
        let ghost m = self@;
        match &self.node {
            AstNode::VarDeclNode(tt, id, expr) => {
                tt.push_text(0, s);
                push_str(s, " ");
                id.tk.push_text(s);
                if expr.is_null() {
                    push_str(s, ";\n");
                } else {
                    push_str(s, " = ");
                    expr.push_text(0, s);
                    push_str(s, ";\n");
                }
                assert(s@ =~= s0 + node_text(m, indent as nat));
            },
            AstNode::FuncDeclNode(tt, id, args, body) => {
                tt.push_text(0, s);
                push_str(s, " ");
                id.tk.push_text(s);
                push_str(s, "(");
                push_join_text(args, s);
                push_str(s, ")");
                if body.is_null() {
                    push_str(s, ";\n");
                } else {
                    body.push_text(indent, s);
                }
                assert(s@ =~= s0 + node_text(m, indent as nat));
            },
            AstNode::ParameterNode(id, tt) => {
                tt.push_text(0, s);
                push_str(s, " ");
                id.tk.push_text(s);
                assert(s@ =~= s0 + node_text(m, indent as nat));
            },
            AstNode::ArrayDeclNode(tt, id, arg) => {
                tt.push_text(0, s);
                push_str(s, " ");
                id.tk.push_text(s);
                push_str(s, "[");
                arg.push_text(0, s);
                push_str(s, "];\n");
                assert(s@ =~= s0 + node_text(m, indent as nat));
            },
            AstNode::DeclarationList(list) => {
                push_list_text(list, indent, s);
                assert(s@ =~= s0 + node_text(m, indent as nat));
            },
            _ => {},
        }
    }

    /// The node printed as source text at depth `indent`: every line of a statement is indented by
    /// two spaces per level, expressions are fully parenthesised.
    pub fn to_string(&self, indent: u32) -> (r: String)
        requires
            indent + height(self@) <= u32::MAX,
        ensures
            r@ == wrapper_text(self@, indent as nat),
    {
        let mut result = String::new();
        self.push_text(indent, &mut result);
        assert(result@ =~= wrapper_text(self@, indent as nat));
        result
    }
}

impl Clone for AstNodeWrapper {
    /// A copy of the wrapped node, with the same model.
    fn clone(&self) -> (r: AstNodeWrapper)
        ensures
            r@ == self@,
    {
        self.duplicate()
    }
}

impl Clone for AstNode {
    /// A copy of the node, with the same model.
    fn clone(&self) -> (r: AstNode)
        ensures
            r@ == self@,
    {
        self.duplicate()
    }
}

impl AstNodeWrapper {
    /// A copy of the wrapped node.
    pub fn duplicate(&self) -> (r: AstNodeWrapper)
        ensures
            r@ == self@,
        decreases *self, 1nat,
    {
        AstNodeWrapper {
            node: self.node.duplicate(),
            source_ref: self.source_ref,
            type_ref: self.type_ref,
        }
    }
}

impl AstNode {
    /// A copy of the node.
    #[verifier::rlimit(60)]
    #[verifier::spinoff_prover]
    pub fn duplicate(&self) -> (r: AstNode)
        ensures
            r@ == self@,
        decreases *self, 1nat,
    {
        match self {
            AstNode::ArrayDeclNode(a, t, b) => AstNode::ArrayDeclNode(
                Box::new(a.duplicate()),
                t.duplicate(),
                Box::new(b.duplicate()),
            ),
            AstNode::BinaryNode(t, a, b) => AstNode::BinaryNode(
                t.duplicate(),
                Box::new(a.duplicate()),
                Box::new(b.duplicate()),
            ),
            AstNode::CastNode(a, b) => AstNode::CastNode(
                Box::new(a.duplicate()),
                Box::new(b.duplicate()),
            ),
            AstNode::CompoundNode(v) => AstNode::CompoundNode(duplicate_list(v)),
            AstNode::DeclarationList(v) => AstNode::DeclarationList(duplicate_list(v)),
            AstNode::ExprStatementNode(a) => AstNode::ExprStatementNode(Box::new(a.duplicate())),
            AstNode::ForNode(a, b, c, d) => AstNode::ForNode(
                Box::new(a.duplicate()),
                Box::new(b.duplicate()),
                Box::new(c.duplicate()),
                Box::new(d.duplicate()),
            ),
            AstNode::FuncDeclNode(a, t, v, b) => AstNode::FuncDeclNode(
                Box::new(a.duplicate()),
                t.duplicate(),
                duplicate_list(v),
                Box::new(b.duplicate()),
            ),
            AstNode::IfNode(a, b, c) => AstNode::IfNode(
                Box::new(a.duplicate()),
                Box::new(b.duplicate()),
                Box::new(c.duplicate()),
            ),
            AstNode::JumpNode(t, a) => AstNode::JumpNode(t.duplicate(), Box::new(a.duplicate())),
            AstNode::NullNode => AstNode::NullNode,
            AstNode::ParameterNode(t, a) => AstNode::ParameterNode(
                t.duplicate(),
                Box::new(a.duplicate()),
            ),
            AstNode::PrefixNode(t, a) => AstNode::PrefixNode(t.duplicate(), Box::new(a.duplicate())),
            AstNode::PrimaryNode(t) => AstNode::PrimaryNode(t.duplicate()),
            AstNode::ProcedureNode(a, v) => AstNode::ProcedureNode(
                Box::new(a.duplicate()),
                duplicate_list(v),
            ),
            AstNode::SelectorNode(a, b) => AstNode::SelectorNode(
                Box::new(a.duplicate()),
                Box::new(b.duplicate()),
            ),
            AstNode::TypeNode(t) => AstNode::TypeNode(*t),
            AstNode::VarDeclNode(a, t, b) => AstNode::VarDeclNode(
                Box::new(a.duplicate()),
                t.duplicate(),
                Box::new(b.duplicate()),
            ),
            AstNode::WhileNode(a, b) => AstNode::WhileNode(
                Box::new(a.duplicate()),
                Box::new(b.duplicate()),
            ),
        }
    }
}

impl AstNode {
    /// The null node, standing for an absent part of the tree.
    pub fn new_null() -> (r: AstNode)
        ensures
            r@ == AstModel::NullNode,
    {
        AstNode::NullNode
    }

    /// A list of global declarations.
    pub fn new_declaration_list(an1: &Vec<AstNodeWrapper>) -> (r: AstNode)
        ensures
            r@ == AstModel::DeclarationList(list_model(an1@)),
    {
        AstNode::DeclarationList(duplicate_list(an1))
    }

    /// A primary expression: an identifier or a literal.
    pub fn new_primary(tk: &Token) -> (r: AstNode)
        ensures
            r@ == AstModel::PrimaryNode(tk@),
    {
        AstNode::PrimaryNode(tk.duplicate())
    }

    /// A binary expression: the operator and its two operands.
    pub fn new_binary(an1: &Token, an2: &AstNodeWrapper, an3: &AstNodeWrapper) -> (r: AstNode)
        ensures
            r@ == AstModel::BinaryNode(an1@, Box::new(an2@), Box::new(an3@)),
    {
        AstNode::BinaryNode(an1.duplicate(), Box::new(an2.duplicate()), Box::new(an3.duplicate()))
    }

    /// A prefix expression: the operator and its operand.
    pub fn new_prefix(an1: &Token, an2: &AstNodeWrapper) -> (r: AstNode)
        ensures
            r@ == AstModel::PrefixNode(an1@, Box::new(an2@)),
    {
        AstNode::PrefixNode(an1.duplicate(), Box::new(an2.duplicate()))
    }

    /// A cast: the type cast to and the expression cast.
    pub fn new_cast(an1: &AstNodeWrapper, an2: &AstNodeWrapper) -> (r: AstNode)
        ensures
            r@ == AstModel::CastNode(Box::new(an1@), Box::new(an2@)),
    {
        AstNode::CastNode(Box::new(an1.duplicate()), Box::new(an2.duplicate()))
    }

    /// A type.
    pub fn new_type(an1: &TypeWrapper) -> (r: AstNode)
        ensures
            r@ == AstModel::TypeNode(*an1),
    {
        AstNode::TypeNode(*an1)
    }

    /// A call: the called expression and the arguments.
    pub fn new_procedure(an1: &AstNodeWrapper, an2: &Vec<AstNodeWrapper>) -> (r: AstNode)
        ensures
            r@ == AstModel::ProcedureNode(Box::new(an1@), list_model(an2@)),
    {
        AstNode::ProcedureNode(Box::new(an1.duplicate()), duplicate_list(an2))
    }

    /// An indexing: the indexed expression and the index.
    pub fn new_selector(an1: &AstNodeWrapper, an2: &AstNodeWrapper) -> (r: AstNode)
        ensures
            r@ == AstModel::SelectorNode(Box::new(an1@), Box::new(an2@)),
    {
        AstNode::SelectorNode(Box::new(an1.duplicate()), Box::new(an2.duplicate()))
    }

    /// A block of statements.
    pub fn new_compound(an1: &Vec<AstNodeWrapper>) -> (r: AstNode)
        ensures
            r@ == AstModel::CompoundNode(list_model(an1@)),
    {
        AstNode::CompoundNode(duplicate_list(an1))
    }

    /// An expression used as a statement.
    pub fn new_expr_statement(an1: &AstNodeWrapper) -> (r: AstNode)
        ensures
            r@ == AstModel::ExprStatementNode(Box::new(an1@)),
    {
        AstNode::ExprStatementNode(Box::new(an1.duplicate()))
    }

    /// A conditional: the condition, the branch taken when it holds and the other branch.
    pub fn new_if(an1: &AstNodeWrapper, an2: &AstNodeWrapper, an3: &AstNodeWrapper) -> (r: AstNode)
        ensures
            r@ == AstModel::IfNode(Box::new(an1@), Box::new(an2@), Box::new(an3@)),
    {
        AstNode::IfNode(
            Box::new(an1.duplicate()),
            Box::new(an2.duplicate()),
            Box::new(an3.duplicate()),
        )
    }

    /// A while loop: the condition and the body.
    pub fn new_while(an1: &AstNodeWrapper, an2: &AstNodeWrapper) -> (r: AstNode)
        ensures
            r@ == AstModel::WhileNode(Box::new(an1@), Box::new(an2@)),
    {
        AstNode::WhileNode(Box::new(an1.duplicate()), Box::new(an2.duplicate()))
    }

    /// A for loop: the initialisation, the condition, the step and the body.
    pub fn new_for(
        an1: &AstNodeWrapper,
        an2: &AstNodeWrapper,
        an3: &AstNodeWrapper,
        an4: &AstNodeWrapper,
    ) -> (r: AstNode)
        ensures
            r@ == AstModel::ForNode(Box::new(an1@), Box::new(an2@), Box::new(an3@), Box::new(an4@)),
    {
        AstNode::ForNode(
            Box::new(an1.duplicate()),
            Box::new(an2.duplicate()),
            Box::new(an3.duplicate()),
            Box::new(an4.duplicate()),
        )
    }

    /// A jump statement (`return`, `break`, `continue`) with its optional expression.
    pub fn new_jump(an1: &Token, an2: &AstNodeWrapper) -> (r: AstNode)
        ensures
            r@ == AstModel::JumpNode(an1@, Box::new(an2@)),
    {
        AstNode::JumpNode(an1.duplicate(), Box::new(an2.duplicate()))
    }

    /// A parameter of a function: its name and its type.
    pub fn new_parameter(an1: &Token, an2: &AstNodeWrapper) -> (r: AstNode)
        ensures
            r@ == AstModel::ParameterNode(an1@, Box::new(an2@)),
    {
        AstNode::ParameterNode(an1.duplicate(), Box::new(an2.duplicate()))
    }

    /// A variable declaration: its type, its name and its initial value.
    pub fn new_var_decl(an1: &AstNodeWrapper, an2: &Token, an3: &AstNodeWrapper) -> (r: AstNode)
        ensures
            r@ == AstModel::VarDeclNode(Box::new(an1@), an2@, Box::new(an3@)),
    {
        AstNode::VarDeclNode(Box::new(an1.duplicate()), an2.duplicate(), Box::new(an3.duplicate()))
    }

    /// A function declaration: its return type, its name, its parameters and its body.
    pub fn new_func_decl(
        an1: &AstNodeWrapper,
        an2: &Token,
        an3: &Vec<AstNodeWrapper>,
        an4: &AstNodeWrapper,
    ) -> (r: AstNode)
        ensures
            r@ == AstModel::FuncDeclNode(Box::new(an1@), an2@, list_model(an3@), Box::new(an4@)),
    {
        AstNode::FuncDeclNode(
            Box::new(an1.duplicate()),
            an2.duplicate(),
            duplicate_list(an3),
            Box::new(an4.duplicate()),
        )
    }

    /// An array declaration: its element type, its name and its size.
    pub fn new_array_decl(an1: &AstNodeWrapper, an2: &Token, an3: &AstNodeWrapper) -> (r: AstNode)
        ensures
            r@ == AstModel::ArrayDeclNode(Box::new(an1@), an2@, Box::new(an3@)),
    {
        AstNode::ArrayDeclNode(
            Box::new(an1.duplicate()),
            an2.duplicate(),
            Box::new(an3.duplicate()),
        )
    }
}

/// The source reference covering from the first to the last character of a token.
pub open spec fn token_source_ref(tk: TokenModel) -> SourceReference {
    SourceReference {
        last_line: tk.line_number,
        init_line: tk.line_number,
        last_char: tk.last_character,
        init_char: tk.first_character,
    }
}

/// Whether `a` starts strictly before `b`: on an earlier line, or on the same line at an earlier
/// column.
pub open spec fn starts_before(a: SourceReference, b: SourceReference) -> bool {
    a.init_line < b.init_line || (a.init_line == b.init_line && a.init_char < b.init_char)
}

/// The source reference spanning from the start of the one that starts first to the end of the
/// other; when both start at the same place, from the start of `b` to the end of `a`.
pub open spec fn merged(a: SourceReference, b: SourceReference) -> SourceReference {
    let (first, second) = if starts_before(a, b) { (a, b) } else { (b, a) };
    SourceReference {
        init_line: first.init_line,
        init_char: first.init_char,
        last_line: second.last_line,
        last_char: second.last_char,
    }
}

impl SourceReference {
    /// The source reference of a token: its line, and its first and last columns.
    pub fn from_token(tk: &Token) -> (r: SourceReference)
        ensures
            r == token_source_ref(tk@),
    {
        SourceReference {
            last_line: tk.line_number,
            init_line: tk.line_number,
            last_char: tk.last_character,
            init_char: tk.first_character,
        }
    }

    /// The source reference spanning two others, from the start of the one that starts first to
    /// the end of the other.
    pub fn merge(sr1: &SourceReference, sr2: &SourceReference) -> (r: SourceReference)
        ensures
            r == merged(*sr1, *sr2),
    {
        let mut result = SourceReference::default();
        if sr1.init_line < sr2.init_line {
            result.init_line = sr1.init_line;
            result.init_char = sr1.init_char;
            result.last_line = sr2.last_line;
            result.last_char = sr2.last_char;
        } else if sr1.init_line > sr2.init_line {
            result.init_line = sr2.init_line;
            result.init_char = sr2.init_char;
            result.last_line = sr1.last_line;
            result.last_char = sr1.last_char;
        } else {
            if sr1.init_char < sr2.init_char {
                result.init_line = sr1.init_line;
                result.init_char = sr1.init_char;
                result.last_line = sr2.last_line;
                result.last_char = sr2.last_char;
            } else {
                result.init_line = sr2.init_line;
                result.init_char = sr2.init_char;
                result.last_line = sr1.last_line;
                result.last_char = sr1.last_char;
            }
        }
        result
    }
}

} // verus!
