//! The linear intermediate representation: its nodes, the registers they read and write, and
//! their printing.

use vstd::prelude::*;
use crate::ast::type_wrapper::{type_text, TypeWrapper};
use crate::lexer::token::{Operator, Tk, TkModel, Token};
use crate::text::{decimal, push_char, push_decimal, push_str};

verus! {

/// The condition under which a branch is taken.
#[derive(Clone, Copy, Debug, PartialEq, Eq, Structural, PartialOrd, Ord)]
pub enum CompareType {
    Always,
    GT,
    GE,
    LT,
    LE,
    EQ,
    NE,
    S,
    NS,
}

/// Whether a branch with condition `ct` is taken on the source values `a` and `b`: always, when
/// `a` compares with `b` as the condition says, when `a` is set (non-zero) or when it is not.
pub open spec fn branch_taken(ct: CompareType, a: int, b: int) -> bool {
    match ct {
        CompareType::Always => true,
        CompareType::GT => a > b,
        CompareType::GE => a >= b,
        CompareType::LT => a < b,
        CompareType::LE => a <= b,
        CompareType::EQ => a == b,
        CompareType::NE => a != b,
        CompareType::S => a != 0,
        CompareType::NS => a == 0,
    }
}

/// The comparison performed by a comparison operator, if it is one.
pub open spec fn compare_of_token(t: TkModel) -> Option<CompareType> {
    match t {
        TkModel::Operator(Operator::GECompare) => Some(CompareType::GE),
        TkModel::Operator(Operator::GTCompare) => Some(CompareType::GT),
        TkModel::Operator(Operator::LECompare) => Some(CompareType::LE),
        TkModel::Operator(Operator::LTCompare) => Some(CompareType::LT),
        TkModel::Operator(Operator::EqualCompare) => Some(CompareType::EQ),
        TkModel::Operator(Operator::DiffCompare) => Some(CompareType::NE),
        _ => None,
    }
}

/// The suffix naming a condition in a branch instruction.
pub open spec fn compare_text(ct: CompareType) -> Seq<char> {
    match ct {
        CompareType::Always => Seq::empty(),
        CompareType::GT => "gt"@,
        CompareType::GE => "ge"@,
        CompareType::LT => "lt"@,
        CompareType::LE => "le"@,
        CompareType::S => "s"@,
        CompareType::NS => "ns"@,
        CompareType::EQ => "eq"@,
        CompareType::NE => "ne"@,
    }
}

/// The condition that holds exactly when `ct` does not; `Always` is its own opposite.
pub open spec fn opposite_of(ct: CompareType) -> CompareType {
    match ct {
        CompareType::Always => CompareType::Always,
        CompareType::GT => CompareType::LE,
        CompareType::GE => CompareType::LT,
        CompareType::LT => CompareType::GE,
        CompareType::LE => CompareType::GT,
        CompareType::S => CompareType::NS,
        CompareType::NS => CompareType::S,
        CompareType::EQ => CompareType::NE,
        CompareType::NE => CompareType::EQ,
    }
}

impl CompareType {
    /// The condition computed by a comparison operator token, `None` for any other token.
    pub fn from_token(t: &Token) -> (r: Option<CompareType>)
        ensures
            r == compare_of_token(t.tk@),
    {
        match t.tk {
            Tk::Operator(Operator::GECompare) => Some(CompareType::GE),
            Tk::Operator(Operator::GTCompare) => Some(CompareType::GT),
            Tk::Operator(Operator::LECompare) => Some(CompareType::LE),
            Tk::Operator(Operator::LTCompare) => Some(CompareType::LT),
            Tk::Operator(Operator::EqualCompare) => Some(CompareType::EQ),
            Tk::Operator(Operator::DiffCompare) => Some(CompareType::NE),
            _ => None,
        }
    }

    /// Appends the suffix naming the condition to `s`.
    pub fn push_text(&self, s: &mut String)
        ensures
            final(s)@ == old(s)@ + compare_text(*self),
    {
        match *self {
            CompareType::Always => {
                assert(old(s)@ + compare_text(*self) =~= old(s)@);
            },
            CompareType::GT => push_str(s, "gt"),
            CompareType::GE => push_str(s, "ge"),
            CompareType::LT => push_str(s, "lt"),
            CompareType::LE => push_str(s, "le"),
            CompareType::S => push_str(s, "s"),
            CompareType::NS => push_str(s, "ns"),
            CompareType::EQ => push_str(s, "eq"),
            CompareType::NE => push_str(s, "ne"),
        }
    }

    /// The suffix naming the condition in a branch: empty for `Always`.
    pub fn to_string(&self) -> (r: String)
        ensures
            r@ == compare_text(*self),
    {
        let mut s = String::new();
        self.push_text(&mut s);
        assert(Seq::<char>::empty() + compare_text(*self) =~= compare_text(*self));
        s
    }

    /// The opposite condition, taken exactly when this one is not; `Always` stays `Always`.
    pub fn opposite(&self) -> (r: CompareType)
        ensures
            r == opposite_of(*self),
    {
        match *self {
            CompareType::Always => CompareType::Always,
            CompareType::GT => CompareType::LE,
            CompareType::GE => CompareType::LT,
            CompareType::LT => CompareType::GE,
            CompareType::LE => CompareType::GT,
            CompareType::S => CompareType::NS,
            CompareType::NS => CompareType::S,
            CompareType::EQ => CompareType::NE,
            CompareType::NE => CompareType::EQ,
        }
    }
}

/// Every condition but `Always` is negated by its opposite, and taking the opposite twice gives
/// back the condition.
pub proof fn lemma_opposite(ct: CompareType, a: int, b: int)
    ensures
        opposite_of(opposite_of(ct)) == ct,
        ct != CompareType::Always ==> branch_taken(opposite_of(ct), a, b) == !branch_taken(ct, a, b),
{
}

/// A node of the linear intermediate representation. Registers are numbered from 1; register 0
/// stands for "none".
#[derive(Debug, PartialEq, Eq, PartialOrd, Ord)]
pub enum IrNode {
    /// The functions of a program.
    Program(Vec<IrNode>),
    /// Name, return type, argument types and body of a function.
    FunctionDeclaration(String, TypeWrapper, Vec<TypeWrapper>, Vec<IrNode>),
    /// Type, destination, initial value, whether global, size, whether the size is a register,
    /// and the name of the allocated variable.
    Alloc(TypeWrapper, u32, u32, bool, u32, bool, String),
    /// Type and source of a returned value.
    Return(TypeWrapper, u32),
    /// Type, destination and constant value.
    MovC(TypeWrapper, u32, u32),
    /// Destination type, source type, destination and source.
    Cast(TypeWrapper, TypeWrapper, u32, u32),
    /// Type, destination address and source.
    Store(TypeWrapper, u32, u32),
    /// Type, destination and source label.
    LoadA(TypeWrapper, u32, String),
    /// Type, destination and source address.
    LoadR(TypeWrapper, u32, u32),
    /// A label.
    Label(u32),
    /// Called function, return type, arguments and destination.
    Call(String, TypeWrapper, Vec<u32>, u32),
    /// Condition, type, first and second source, target label.
    Branch(CompareType, TypeWrapper, u32, u32, u32),
    /// Operator, type, destination, first and second source.
    Binary(Operator, TypeWrapper, u32, u32, u32),
    /// Type, operator, destination and source.
    Unary(TypeWrapper, Operator, u32, u32),
}

/// A node of the intermediate representation as a mathematical value.
pub enum IrModel {
    Program(Seq<IrModel>),
    FunctionDeclaration(Seq<char>, TypeWrapper, Seq<TypeWrapper>, Seq<IrModel>),
    Alloc(TypeWrapper, u32, u32, bool, u32, bool, Seq<char>),
    Return(TypeWrapper, u32),
    MovC(TypeWrapper, u32, u32),
    Cast(TypeWrapper, TypeWrapper, u32, u32),
    Store(TypeWrapper, u32, u32),
    LoadA(TypeWrapper, u32, Seq<char>),
    LoadR(TypeWrapper, u32, u32),
    Label(u32),
    Call(Seq<char>, TypeWrapper, Seq<u32>, u32),
    Branch(CompareType, TypeWrapper, u32, u32, u32),
    Binary(Operator, TypeWrapper, u32, u32, u32),
    Unary(TypeWrapper, Operator, u32, u32),
}

/// The model of a node.
pub open spec fn ir_model(n: IrNode) -> IrModel
    decreases n,
{
    match n {
        IrNode::Program(v) => IrModel::Program(ir_list_model(v@)),
        IrNode::FunctionDeclaration(name, t, args, v) => IrModel::FunctionDeclaration(
            name@,
            t,
            args@,
            ir_list_model(v@),
        ),
        IrNode::Alloc(t, d, s, g, z, f, n) => IrModel::Alloc(t, d, s, g, z, f, n@),
        IrNode::Return(t, s) => IrModel::Return(t, s),
        IrNode::MovC(t, d, c) => IrModel::MovC(t, d, c),
        IrNode::Cast(t1, t2, d, s) => IrModel::Cast(t1, t2, d, s),
        IrNode::Store(t, d, s) => IrModel::Store(t, d, s),
        IrNode::LoadA(t, d, l) => IrModel::LoadA(t, d, l@),
        IrNode::LoadR(t, d, s) => IrModel::LoadR(t, d, s),
        IrNode::Label(l) => IrModel::Label(l),
        IrNode::Call(name, t, args, r) => IrModel::Call(name@, t, args@, r),
        IrNode::Branch(c, t, a, b, l) => IrModel::Branch(c, t, a, b, l),
        IrNode::Binary(o, t, d, a, b) => IrModel::Binary(o, t, d, a, b),
        IrNode::Unary(t, o, d, a) => IrModel::Unary(t, o, d, a),
    }
}

/// The models of a sequence of nodes, in order.
pub open spec fn ir_list_model(s: Seq<IrNode>) -> Seq<IrModel>
    decreases s,
{
    if s.len() == 0 {
        Seq::empty()
    } else {
        ir_list_model(s.subrange(0, s.len() - 1)).push(ir_model(s[s.len() - 1]))
    }
}

impl View for IrNode {
    type V = IrModel;

    open spec fn view(&self) -> IrModel {
        ir_model(*self)
    }
}

/// The models of a sequence of nodes are the models of its elements.
pub proof fn lemma_ir_list_model(s: Seq<IrNode>)
    ensures
        ir_list_model(s).len() == s.len(),
        forall|i: int| 0 <= i < s.len() ==> #[trigger] ir_list_model(s)[i] == ir_model(s[i]),
    decreases s.len(),
{
    if s.len() > 0 {
        let p = s.subrange(0, s.len() - 1);
        lemma_ir_list_model(p);
        assert forall|i: int| 0 <= i < s.len() implies #[trigger] ir_list_model(s)[i] == ir_model(
            s[i],
        ) by {
            if i < s.len() - 1 {
                assert(p[i] == s[i]);
            }
        }
    }
}

/// The model of a sequence extended by one node is the extended sequence of models.
pub proof fn lemma_ir_list_model_push(s: Seq<IrNode>, n: IrNode)
    ensures
        ir_list_model(s.push(n)) == ir_list_model(s).push(ir_model(n)),
{
    assert(s.push(n).subrange(0, s.len() as int) =~= s);
}

/// The register a node writes, 0 when it writes none. A store names its destination address.
pub open spec fn dest_of(n: IrModel) -> u32 {
    match n {
        IrModel::Alloc(_, d, ..) => d,
        IrModel::MovC(_, d, ..) => d,
        IrModel::Cast(_, _, d, ..) => d,
        IrModel::Store(_, d, ..) => d,
        IrModel::LoadA(_, d, ..) => d,
        IrModel::LoadR(_, d, ..) => d,
        IrModel::Call(_, _, _, r) => r,
        IrModel::Unary(_, _, d, ..) => d,
        IrModel::Binary(_, _, d, ..) => d,
        _ => 0,
    }
}

/// The registers a node reads, in order.
pub open spec fn srcs_of(n: IrModel) -> Seq<u32> {
    match n {
        IrModel::Return(_, s) => seq![s],
        IrModel::Alloc(_, _, s, ..) => seq![s],
        IrModel::Cast(_, _, _, s) => seq![s],
        IrModel::Store(_, _, s) => seq![s],
        IrModel::LoadR(_, _, s) => seq![s],
        IrModel::Call(_, _, args, _) => args,
        IrModel::Branch(_, _, a, b, _) => seq![a, b],
        IrModel::Unary(_, _, _, s) => seq![s],
        IrModel::Binary(_, _, _, a, b) => seq![a, b],
        _ => Seq::empty(),
    }
}

/// A copy of a sequence of nodes.
fn duplicate_ir_list(v: &Vec<IrNode>) -> (r: Vec<IrNode>)
    ensures
        ir_list_model(r@) == ir_list_model(v@),
    decreases v@, 0nat,
{
    let mut r: Vec<IrNode> = Vec::new();
    let mut i: usize = 0;
    while i < v.len()
        invariant
            i <= v.len(),
            ir_list_model(r@) == ir_list_model(v@.subrange(0, i as int)),
        decreases v.len() - i,
    {
        assert(decreases_to!(v@ => v@[i as int]));
        let d = v[i].duplicate();
        proof {
            lemma_ir_list_model_push(r@, d);
            lemma_ir_list_model_push(v@.subrange(0, i as int), v@[i as int]);
            assert(v@.subrange(0, i as int).push(v@[i as int]) =~= v@.subrange(0, i + 1));
        }
        r.push(d);
        i = i + 1;
    }
    assert(v@.subrange(0, v.len() as int) =~= v@);
    r
}

/// A copy of a sequence of copyable values.
pub fn copy_vec<T: Copy>(v: &Vec<T>) -> (r: Vec<T>)
    ensures
        r@ == v@,
{
    let mut r: Vec<T> = Vec::new();
    let mut i: usize = 0;
    while i < v.len()
        invariant
            i <= v.len(),
            r@ == v@.subrange(0, i as int),
        decreases v.len() - i,
    {
        r.push(v[i]);
        i = i + 1;
    }
    assert(r@ =~= v@);
    r
}

impl IrNode {
    /// A copy of the node.
    pub fn duplicate(&self) -> (r: IrNode)
        ensures
            r@ == self@,
        decreases *self, 1nat,
    {
        match self {
            IrNode::Program(v) => IrNode::Program(duplicate_ir_list(v)),
            IrNode::FunctionDeclaration(name, t, args, v) => IrNode::FunctionDeclaration(
                name.clone(),
                *t,
                copy_vec(args),
                duplicate_ir_list(v),
            ),
            IrNode::Alloc(t, d, s, g, z, f, n) => IrNode::Alloc(*t, *d, *s, *g, *z, *f, n.clone()),
            IrNode::Return(t, s) => IrNode::Return(*t, *s),
            IrNode::MovC(t, d, c) => IrNode::MovC(*t, *d, *c),
            IrNode::Cast(t1, t2, d, s) => IrNode::Cast(*t1, *t2, *d, *s),
            IrNode::Store(t, d, s) => IrNode::Store(*t, *d, *s),
            IrNode::LoadA(t, d, l) => IrNode::LoadA(*t, *d, l.clone()),
            IrNode::LoadR(t, d, s) => IrNode::LoadR(*t, *d, *s),
            IrNode::Label(l) => IrNode::Label(*l),
            IrNode::Call(name, t, args, r) => IrNode::Call(name.clone(), *t, copy_vec(args), *r),
            IrNode::Branch(c, t, a, b, l) => IrNode::Branch(*c, *t, *a, *b, *l),
            IrNode::Binary(o, t, d, a, b) => IrNode::Binary(*o, *t, *d, *a, *b),
            IrNode::Unary(t, o, d, a) => IrNode::Unary(*t, *o, *d, *a),
        }
    }

    /// The register the node writes, 0 when it writes none; for a store, its destination
    /// address.
    pub fn get_dest(&self) -> (r: u32)
        ensures
            r == dest_of(self@),
    {
        match self {
            IrNode::Alloc(_, dest, ..) => *dest,
            IrNode::MovC(_, dest, ..) => *dest,
            IrNode::Cast(_, _, dest, ..) => *dest,
            IrNode::Store(_, dest, ..) => *dest,
            IrNode::LoadA(_, dest, ..) => *dest,
            IrNode::LoadR(_, dest, ..) => *dest,
            IrNode::Call(_, _, _, ret) => *ret,
            IrNode::Unary(_, _, dest, ..) => *dest,
            IrNode::Binary(_, _, dest, ..) => *dest,
            _ => 0,
        }
    }

    /// The registers the node reads, in order; empty when it reads none.
    pub fn get_src(&self) -> (r: Vec<u32>)
        ensures
            r@ == srcs_of(self@),
    {
        match self {
            IrNode::Return(_, src) => vec![*src],
            IrNode::Alloc(_, _, src, ..) => vec![*src],
            IrNode::Cast(_, _, _, src) => vec![*src],
            IrNode::Store(_, _, src) => vec![*src],
            IrNode::LoadR(_, _, src) => vec![*src],
            IrNode::Call(_, _, arguments, _) => copy_vec(arguments),
            IrNode::Branch(_, _, src1, src2, _) => vec![*src1, *src2],
            IrNode::Unary(_, _, _, src) => vec![*src],
            IrNode::Binary(_, _, _, src1, src2) => vec![*src1, *src2],
            _ => Vec::new(),
        }
    }
}

/// The name of a register.
pub open spec fn reg_text(r: u32) -> Seq<char> {
    "v"@ + decimal(r as nat)
}

/// The mnemonic of a unary operation, for the operators that have one.
pub open spec fn unary_name(o: Operator) -> Option<Seq<char>> {
    match o {
        Operator::Minus => Some("neg"@),
        Operator::Plus => Some("plus"@),
        Operator::Complement => Some("comp"@),
        Operator::Not => Some("not"@),
        _ => None,
    }
}

/// The mnemonic of a binary operation, for the operators that have one.
pub open spec fn binary_name(o: Operator) -> Option<Seq<char>> {
    match o {
        Operator::EqualCompare => Some("seq"@),
        Operator::DiffCompare => Some("sneq"@),
        Operator::LTCompare => Some("slt"@),
        Operator::GTCompare => Some("sgt"@),
        Operator::LECompare => Some("sle"@),
        Operator::GECompare => Some("sge"@),
        Operator::Minus => Some("sub"@),
        Operator::Plus => Some("add"@),
        Operator::Asterisk => Some("mul"@),
        Operator::Slash => Some("div"@),
        Operator::XorOp => Some("xor"@),
        Operator::AndOp => Some("and"@),
        Operator::OrOp => Some("or"@),
        Operator::Module => Some("rem"@),
        Operator::LShift => Some("sl"@),
        Operator::RShift => Some("sr"@),
        _ => None,
    }
}

/// Whether a node can be printed: every unary and binary operation in it has a mnemonic.
pub open spec fn ir_printable(m: IrModel) -> bool
    decreases m, 0nat,
{
    match m {
        IrModel::Program(list) => ir_list_printable(list),
        IrModel::FunctionDeclaration(_, _, _, nodes) => ir_list_printable(nodes),
        IrModel::Unary(_, o, _, _) => unary_name(o).is_some(),
        IrModel::Binary(o, _, _, _, _) => binary_name(o).is_some(),
        _ => true,
    }
}

/// Whether every node of a sequence can be printed.
pub open spec fn ir_list_printable(s: Seq<IrModel>) -> bool
    decreases s, 1nat,
{
    if s.len() == 0 {
        true
    } else {
        ir_list_printable(s.subrange(0, s.len() - 1)) && ir_printable(s[s.len() - 1])
    }
}

/// The arguments of a function declaration: `v1<type>, v2<type>, ...`.
pub open spec fn decl_args_text(a: Seq<TypeWrapper>) -> Seq<char>
    decreases a.len(),
{
    if a.len() == 0 {
        Seq::empty()
    } else {
        let item = "v"@ + decimal(a.len()) + "<"@ + type_text(a[a.len() - 1]) + ">"@;
        if a.len() == 1 {
            item
        } else {
            decl_args_text(a.subrange(0, a.len() - 1)) + ", "@ + item
        }
    }
}

/// The arguments of a call: the argument registers separated by `, `.
pub open spec fn call_args_text(a: Seq<u32>) -> Seq<char>
    decreases a.len(),
{
    if a.len() == 0 {
        Seq::empty()
    } else if a.len() == 1 {
        reg_text(a[0])
    } else {
        call_args_text(a.subrange(0, a.len() - 1)) + ", "@ + reg_text(a[a.len() - 1])
    }
}

/// The operands of a branch: none for `Always`, the first source for `S` and `NS`, both sources
/// otherwise, after the type.
pub open spec fn branch_operands_text(ct: CompareType, t: TypeWrapper, a: u32, b: u32) -> Seq<char> {
    match ct {
        CompareType::Always => Seq::empty(),
        CompareType::S | CompareType::NS => "<"@ + type_text(t) + "> "@ + reg_text(a),
        _ => "<"@ + type_text(t) + "> "@ + reg_text(a) + ", "@ + reg_text(b),
    }
}

/// The text of a return: the returned register, or nothing for a function without result.
pub open spec fn return_text(tt: TypeWrapper, src: u32) -> Seq<char> {
    if src != 0 {
        "\treturn<"@ + type_text(tt) + "> "@ + reg_text(src) + "\n"@
    } else {
        "\treturn\n"@
    }
}

/// The initial value of an allocation, if it has one.
pub open spec fn alloc_init_text(src: u32) -> Seq<char> {
    if src != 0 { reg_text(src) + " "@ } else { Seq::empty() }
}

/// The size register of an allocation, when its size is held in one.
pub open spec fn alloc_size_text(size: u32, fr: bool) -> Seq<char> {
    if fr { "["@ + reg_text(size) + "] "@ } else { Seq::empty() }
}

/// The mark of a global allocation.
pub open spec fn alloc_global_text(g: bool) -> Seq<char> {
    if g { " !global "@ } else { Seq::empty() }
}

/// The text of an allocation: its initial value if any, its size register if the size is one,
/// and a mark when it is global.
pub open spec fn alloc_text(tt: TypeWrapper, d: u32, src: u32, g: bool, size: u32, fr: bool) -> Seq<char> {
    "\t"@ + reg_text(d) + " = alloc<"@ + type_text(tt) + "> "@ + alloc_init_text(src)
        + alloc_size_text(size, fr) + alloc_global_text(g) + "\n"@
}

/// The text of a constant load.
pub open spec fn movc_text(tt: TypeWrapper, d: u32, c: u32) -> Seq<char> {
    "\t"@ + reg_text(d) + " = <"@ + type_text(tt) + "> $"@ + decimal(c as nat) + "\n"@
}

/// The text of a cast.
pub open spec fn cast_text(t1: TypeWrapper, t2: TypeWrapper, d: u32, src: u32) -> Seq<char> {
    "\t"@ + reg_text(d) + " = <"@ + type_text(t1) + "><"@ + type_text(t2) + "> "@ + reg_text(src)
        + "\n"@
}

/// The text of a store.
pub open spec fn store_text(tt: TypeWrapper, d: u32, src: u32) -> Seq<char> {
    "\tstore<"@ + type_text(tt) + "> "@ + reg_text(d) + ", "@ + reg_text(src) + "\n"@
}

/// The text of a load from a label.
pub open spec fn loada_text(tt: TypeWrapper, d: u32, l: Seq<char>) -> Seq<char> {
    "\t"@ + reg_text(d) + " = load<"@ + type_text(tt) + "> @"@ + l + "\n"@
}

/// The text of a load from an address register.
pub open spec fn loadr_text(tt: TypeWrapper, d: u32, src: u32) -> Seq<char> {
    "\t"@ + reg_text(d) + " = load<"@ + type_text(tt) + "> "@ + reg_text(src) + "\n"@
}

/// The text of a label.
pub open spec fn label_text(l: u32) -> Seq<char> {
    "\n\t%L_"@ + decimal(l as nat) + ":\n"@
}

/// The text of a call.
pub open spec fn call_text(name: Seq<char>, tt: TypeWrapper, args: Seq<u32>, r: u32) -> Seq<char> {
    "\t"@ + reg_text(r) + " = call<"@ + type_text(tt) + "> "@ + name + "("@ + call_args_text(args)
        + ")\n"@
}

/// The text of a branch.
pub open spec fn branch_text(ct: CompareType, tt: TypeWrapper, a: u32, b: u32, l: u32) -> Seq<char> {
    "\tj"@ + compare_text(ct) + branch_operands_text(ct, tt, a, b) + " %L_"@ + decimal(l as nat)
        + "\n"@
}

/// The text of a unary operation.
pub open spec fn unary_text(tt: TypeWrapper, o: Operator, d: u32, src: u32) -> Seq<char> {
    "\t"@ + reg_text(d) + " = "@ + unary_name(o).unwrap() + "<"@ + type_text(tt) + "> "@ + reg_text(
        src,
    ) + "\n"@
}

/// The text of a binary operation.
pub open spec fn binary_text(o: Operator, tt: TypeWrapper, d: u32, a: u32, b: u32) -> Seq<char> {
    "\t"@ + reg_text(d) + " = "@ + binary_name(o).unwrap() + " <"@ + type_text(tt) + "> "@
        + reg_text(a) + ", "@ + reg_text(b) + "\n"@
}

/// The text of a node: one line per instruction, each starting with a tab; a label on a line of
/// its own after an empty one; a function as its header, its instructions and a closing brace.
pub open spec fn ir_text(m: IrModel) -> Seq<char>
    decreases m, 0nat,
{
    match m {
        IrModel::Program(list) => ir_list_text(list),
        IrModel::FunctionDeclaration(name, tt, args, nodes) => "\nfunction<"@ + type_text(tt) + "> "@
            + name + " ("@ + decl_args_text(args) + ") {\n"@ + ir_list_text(nodes) + "}\n"@,
        IrModel::Return(tt, src) => return_text(tt, src),
        IrModel::Alloc(tt, d, src, g, size, fr, _) => alloc_text(tt, d, src, g, size, fr),
        IrModel::MovC(tt, d, c) => movc_text(tt, d, c),
        IrModel::Cast(t1, t2, d, src) => cast_text(t1, t2, d, src),
        IrModel::Store(tt, d, src) => store_text(tt, d, src),
        IrModel::LoadA(tt, d, l) => loada_text(tt, d, l),
        IrModel::LoadR(tt, d, src) => loadr_text(tt, d, src),
        IrModel::Label(l) => label_text(l),
        IrModel::Call(name, tt, args, r) => call_text(name, tt, args, r),
        IrModel::Branch(ct, tt, a, b, l) => branch_text(ct, tt, a, b, l),
        IrModel::Unary(tt, o, d, src) => unary_text(tt, o, d, src),
        IrModel::Binary(o, tt, d, a, b) => binary_text(o, tt, d, a, b),
    }
}

/// The texts of a sequence of nodes, one after the other.
pub open spec fn ir_list_text(s: Seq<IrModel>) -> Seq<char>
    decreases s, 1nat,
{
    if s.len() == 0 {
        Seq::empty()
    } else {
        ir_list_text(s.subrange(0, s.len() - 1)) + ir_text(s[s.len() - 1])
    }
}

/// Appends the name of a register to `s`.
fn push_reg(s: &mut String, r: u32)
    ensures
        final(s)@ == old(s)@ + reg_text(r),
{
    push_str(s, "v");
    push_decimal(s, r as u64);
    assert(s@ =~= old(s)@ + reg_text(r));
}

/// Appends the texts of a sequence of nodes to `s`.
fn push_ir_list_text(v: &Vec<IrNode>, s: &mut String)
    requires
        ir_list_printable(ir_list_model(v@)),
    ensures
        final(s)@ == old(s)@ + ir_list_text(ir_list_model(v@)),
    decreases v@, 0nat,
{
    let ghost s0 = s@;
    let mut i: usize = 0;
    while i < v.len()
        invariant
            i <= v.len(),
            ir_list_printable(ir_list_model(v@.subrange(0, i as int))) ==> ir_list_printable(
                ir_list_model(v@),
            ),
            ir_list_printable(ir_list_model(v@)),
            s@ == s0 + ir_list_text(ir_list_model(v@.subrange(0, i as int))),
        decreases v.len() - i,
    {
        proof {
            lemma_ir_list_model(v@);
            lemma_ir_list_printable(ir_list_model(v@), i as int);
        }
        assert(decreases_to!(v@ => v@[i as int]));
        v[i].push_text(s);
        proof {
            let p = v@.subrange(0, i as int);
            assert(p.push(v@[i as int]) =~= v@.subrange(0, i + 1));
            lemma_ir_list_model_push(p, v@[i as int]);
            let mp = ir_list_model(p);
            assert(mp.push(v@[i as int]@).subrange(0, mp.len() as int) =~= mp);
        }
        i = i + 1;
    }
    assert(v@.subrange(0, v.len() as int) =~= v@);
}

/// Every node of a printable sequence is printable.
pub proof fn lemma_ir_list_printable(s: Seq<IrModel>, i: int)
    requires
        ir_list_printable(s),
        0 <= i < s.len(),
    ensures
        ir_printable(s[i]),
    decreases s.len(),
{
    if i < s.len() - 1 {
        let p = s.subrange(0, s.len() - 1);
        lemma_ir_list_printable(p, i);
        assert(p[i] == s[i]);
    }
}

/// Appends the arguments of a function declaration to `s`.
fn push_decl_args(a: &Vec<TypeWrapper>, s: &mut String)
    ensures
        final(s)@ == old(s)@ + decl_args_text(a@),
{
    let ghost s0 = s@;
    let mut i: usize = 0;
    while i < a.len()
        invariant
            i <= a.len(),
            s@ == s0 + decl_args_text(a@.subrange(0, i as int)),
        decreases a.len() - i,
    {
        if i > 0 {
            push_str(s, ", ");
        }
        push_str(s, "v");
        push_decimal(s, (i + 1) as u64);
        push_str(s, "<");
        a[i].push_text(s);
        push_str(s, ">");
        proof {
            let q = a@.subrange(0, i + 1);
            assert(q.subrange(0, i as int) =~= a@.subrange(0, i as int));
            assert(q[i as int] == a@[i as int]);
            assert(s@ =~= s0 + decl_args_text(q));
        }
        i = i + 1;
    }
    assert(a@.subrange(0, a.len() as int) =~= a@);
}

/// Appends the arguments of a call to `s`.
fn push_call_args(a: &Vec<u32>, s: &mut String)
    ensures
        final(s)@ == old(s)@ + call_args_text(a@),
{
    let ghost s0 = s@;
    let mut i: usize = 0;
    while i < a.len()
        invariant
            i <= a.len(),
            s@ == s0 + call_args_text(a@.subrange(0, i as int)),
        decreases a.len() - i,
    {
        if i > 0 {
            push_str(s, ", ");
        }
        push_reg(s, a[i]);
        proof {
            let q = a@.subrange(0, i + 1);
            assert(q.subrange(0, i as int) =~= a@.subrange(0, i as int));
            assert(q[i as int] == a@[i as int]);
            assert(s@ =~= s0 + call_args_text(q));
        }
        i = i + 1;
    }
    assert(a@.subrange(0, a.len() as int) =~= a@);
}

/// Appends the text of a return to `s`.
fn push_return(s: &mut String, tt: &TypeWrapper, src: u32)
    ensures
        final(s)@ == old(s)@ + return_text(*tt, src),
{
    let ghost s0 = s@;
    if src != 0 {
        push_str(s, "\treturn<");
        tt.push_text(s);
        push_str(s, "> ");
        push_reg(s, src);
        push_str(s, "\n");
    } else {
        push_str(s, "\treturn\n");
    }
    assert(s@ =~= s0 + return_text(*tt, src));
}

/// Appends the initial value of an allocation to `s`.
fn push_alloc_init(s: &mut String, src: u32)
    ensures
        final(s)@ == old(s)@ + alloc_init_text(src),
{
    if src != 0 {
        push_reg(s, src);
        push_str(s, " ");
    }
    assert(s@ =~= old(s)@ + alloc_init_text(src));
}

/// Appends the size register of an allocation to `s`.
fn push_alloc_size(s: &mut String, size: u32, from_reg: bool)
    ensures
        final(s)@ == old(s)@ + alloc_size_text(size, from_reg),
{
    if from_reg {
        push_str(s, "[");
        push_reg(s, size);
        push_str(s, "] ");
    }
    assert(s@ =~= old(s)@ + alloc_size_text(size, from_reg));
}

/// Appends the mark of a global allocation to `s`.
fn push_alloc_global(s: &mut String, is_global: bool)
    ensures
        final(s)@ == old(s)@ + alloc_global_text(is_global),
{
    if is_global {
        push_str(s, " !global ");
    }
    assert(s@ =~= old(s)@ + alloc_global_text(is_global));
}

/// Appends the text of an allocation to `s`.
fn push_alloc(s: &mut String, tt: &TypeWrapper, dest: u32, src: u32, is_global: bool, size: u32, from_reg: bool)
    ensures
        final(s)@ == old(s)@ + alloc_text(*tt, dest, src, is_global, size, from_reg),
{
    let ghost s0 = s@;
    push_str(s, "\t");
    push_reg(s, dest);
    push_str(s, " = alloc<");
    tt.push_text(s);
    push_str(s, "> ");
    push_alloc_init(s, src);
    push_alloc_size(s, size, from_reg);
    push_alloc_global(s, is_global);
    push_str(s, "\n");
    assert(s@ =~= s0 + alloc_text(*tt, dest, src, is_global, size, from_reg));
}

/// Appends the text of a constant load to `s`.
fn push_movc(s: &mut String, tt: &TypeWrapper, dest: u32, src: u32)
    ensures
        final(s)@ == old(s)@ + movc_text(*tt, dest, src),
{
    let ghost s0 = s@;
    push_str(s, "\t");
    push_reg(s, dest);
    push_str(s, " = <");
    tt.push_text(s);
    push_str(s, "> $");
    push_decimal(s, src as u64);
    push_str(s, "\n");
    assert(s@ =~= s0 + movc_text(*tt, dest, src));
}

/// Appends the text of a cast to `s`.
fn push_cast(s: &mut String, ttd: &TypeWrapper, tts: &TypeWrapper, dest: u32, src: u32)
    ensures
        final(s)@ == old(s)@ + cast_text(*ttd, *tts, dest, src),
{
    let ghost s0 = s@;
    push_str(s, "\t");
    push_reg(s, dest);
    push_str(s, " = <");
    ttd.push_text(s);
    push_str(s, "><");
    tts.push_text(s);
    push_str(s, "> ");
    push_reg(s, src);
    push_str(s, "\n");
    assert(s@ =~= s0 + cast_text(*ttd, *tts, dest, src));
}

/// Appends the text of a store to `s`.
fn push_store(s: &mut String, tt: &TypeWrapper, dest: u32, src: u32)
    ensures
        final(s)@ == old(s)@ + store_text(*tt, dest, src),
{
    let ghost s0 = s@;
    push_str(s, "\tstore<");
    tt.push_text(s);
    push_str(s, "> ");
    push_reg(s, dest);
    push_str(s, ", ");
    push_reg(s, src);
    push_str(s, "\n");
    assert(s@ =~= s0 + store_text(*tt, dest, src));
}

/// Appends the text of a load from a label to `s`.
fn push_loada(s: &mut String, tt: &TypeWrapper, dest: u32, src: &String)
    ensures
        final(s)@ == old(s)@ + loada_text(*tt, dest, src@),
{
    let ghost s0 = s@;
    push_str(s, "\t");
    push_reg(s, dest);
    push_str(s, " = load<");
    tt.push_text(s);
    push_str(s, "> @");
    push_str(s, src.as_str());
    push_str(s, "\n");
    assert(s@ =~= s0 + loada_text(*tt, dest, src@));
}

/// Appends the text of a load from an address register to `s`.
fn push_loadr(s: &mut String, tt: &TypeWrapper, dest: u32, src: u32)
    ensures
        final(s)@ == old(s)@ + loadr_text(*tt, dest, src),
{
    let ghost s0 = s@;
    push_str(s, "\t");
    push_reg(s, dest);
    push_str(s, " = load<");
    tt.push_text(s);
    push_str(s, "> ");
    push_reg(s, src);
    push_str(s, "\n");
    assert(s@ =~= s0 + loadr_text(*tt, dest, src));
}

/// Appends the text of a label to `s`.
fn push_label(s: &mut String, l: u32)
    ensures
        final(s)@ == old(s)@ + label_text(l),
{
    let ghost s0 = s@;
    push_str(s, "\n\t%L_");
    push_decimal(s, l as u64);
    push_str(s, ":\n");
    assert(s@ =~= s0 + label_text(l));
}

/// Appends the text of a call to `s`.
fn push_call(s: &mut String, name: &String, tt: &TypeWrapper, arguments: &Vec<u32>, ret: u32)
    ensures
        final(s)@ == old(s)@ + call_text(name@, *tt, arguments@, ret),
{
    let ghost s0 = s@;
    push_str(s, "\t");
    push_reg(s, ret);
    push_str(s, " = call<");
    tt.push_text(s);
    push_str(s, "> ");
    push_str(s, name.as_str());
    push_str(s, "(");
    push_call_args(arguments, s);
    push_str(s, ")\n");
    assert(s@ =~= s0 + call_text(name@, *tt, arguments@, ret));
}

/// Appends the text of a branch to `s`.
fn push_branch(s: &mut String, ct: CompareType, tt: &TypeWrapper, src1: u32, src2: u32, name: u32)
    ensures
        final(s)@ == old(s)@ + branch_text(ct, *tt, src1, src2, name),
{
    let ghost s0 = s@;
    push_str(s, "\tj");
    ct.push_text(s);
    let ghost s1 = s@;
    match ct {
        CompareType::Always => {},
        CompareType::S | CompareType::NS => {
            push_str(s, "<");
            tt.push_text(s);
            push_str(s, "> ");
            push_reg(s, src1);
        },
        _ => {
            push_str(s, "<");
            tt.push_text(s);
            push_str(s, "> ");
            push_reg(s, src1);
            push_str(s, ", ");
            push_reg(s, src2);
        },
    }
    assert(s@ =~= s1 + branch_operands_text(ct, *tt, src1, src2));
    push_str(s, " %L_");
    push_decimal(s, name as u64);
    push_str(s, "\n");
    assert(s@ =~= s0 + branch_text(ct, *tt, src1, src2, name));
}

/// Appends the mnemonic of a unary operator to `s`.
fn push_unary_name(s: &mut String, tk: Operator)
    requires
        unary_name(tk).is_some(),
    ensures
        final(s)@ == old(s)@ + unary_name(tk).unwrap(),
{
    match tk {
        Operator::Minus => push_str(s, "neg"),
        Operator::Plus => push_str(s, "plus"),
        Operator::Complement => push_str(s, "comp"),
        _ => push_str(s, "not"),
    }
}

/// Appends the mnemonic of a binary operator to `s`.
fn push_binary_name(s: &mut String, tk: Operator)
    requires
        binary_name(tk).is_some(),
    ensures
        final(s)@ == old(s)@ + binary_name(tk).unwrap(),
{
    match tk {
        Operator::EqualCompare => push_str(s, "seq"),
        Operator::DiffCompare => push_str(s, "sneq"),
        Operator::LTCompare => push_str(s, "slt"),
        Operator::GTCompare => push_str(s, "sgt"),
        Operator::LECompare => push_str(s, "sle"),
        Operator::GECompare => push_str(s, "sge"),
        Operator::Minus => push_str(s, "sub"),
        Operator::Plus => push_str(s, "add"),
        Operator::Asterisk => push_str(s, "mul"),
        Operator::Slash => push_str(s, "div"),
        Operator::XorOp => push_str(s, "xor"),
        Operator::AndOp => push_str(s, "and"),
        Operator::OrOp => push_str(s, "or"),
        Operator::Module => push_str(s, "rem"),
        Operator::LShift => push_str(s, "sl"),
        _ => push_str(s, "sr"),
    }
}

/// Appends the text of a unary operation to `s`.
fn push_unary(s: &mut String, tt: &TypeWrapper, tk: Operator, dest: u32, src: u32)
    requires
        unary_name(tk).is_some(),
    ensures
        final(s)@ == old(s)@ + unary_text(*tt, tk, dest, src),
{
    let ghost s0 = s@;
    push_str(s, "\t");
    push_reg(s, dest);
    push_str(s, " = ");
    push_unary_name(s, tk);
    push_str(s, "<");
    tt.push_text(s);
    push_str(s, "> ");
    push_reg(s, src);
    push_str(s, "\n");
    assert(s@ =~= s0 + unary_text(*tt, tk, dest, src));
}

/// Appends the text of a binary operation to `s`.
fn push_binary(s: &mut String, tk: Operator, tt: &TypeWrapper, dest: u32, src1: u32, src2: u32)
    requires
        binary_name(tk).is_some(),
    ensures
        final(s)@ == old(s)@ + binary_text(tk, *tt, dest, src1, src2),
{
    let ghost s0 = s@;
    push_str(s, "\t");
    push_reg(s, dest);
    push_str(s, " = ");
    push_binary_name(s, tk);
    push_str(s, " <");
    tt.push_text(s);
    push_str(s, "> ");
    push_reg(s, src1);
    push_str(s, ", ");
    push_reg(s, src2);
    push_str(s, "\n");
    assert(s@ =~= s0 + binary_text(tk, *tt, dest, src1, src2));
}

impl IrNode {
    /// Appends the text of the node to `s`.
    pub fn push_text(&self, s: &mut String)
        requires
            ir_printable(self@),
        ensures
            final(s)@ == old(s)@ + ir_text(self@),
        decreases *self, 1nat,
    {
        let ghost s0 = s@;
        match self {
            IrNode::Program(list) => {
                push_ir_list_text(list, s);
            },
            IrNode::FunctionDeclaration(name, tt, arguments, nodes) => {
                push_str(s, "\nfunction<");
                tt.push_text(s);
                push_str(s, "> ");
                push_str(s, name.as_str());
                push_str(s, " (");
                push_decl_args(arguments, s);
                push_str(s, ") {\n");
                push_ir_list_text(nodes, s);
                push_str(s, "}\n");
                assert(s@ =~= s0 + ir_text(self@));
            },
            IrNode::Return(tt, src) => push_return(s, tt, *src),
            IrNode::Alloc(tt, dest, src, is_global, size, from_reg, _) => push_alloc(
                s,
                tt,
                *dest,
                *src,
                *is_global,
                *size,
                *from_reg,
            ),
            IrNode::MovC(tt, dest, src) => push_movc(s, tt, *dest, *src),
            IrNode::Cast(ttd, tts, dest, src) => push_cast(s, ttd, tts, *dest, *src),
            IrNode::Store(tt, dest, src) => push_store(s, tt, *dest, *src),
            IrNode::LoadA(tt, dest, src) => push_loada(s, tt, *dest, src),
            IrNode::LoadR(tt, dest, src) => push_loadr(s, tt, *dest, *src),
            IrNode::Label(l) => push_label(s, *l),
            IrNode::Call(name, tt, arguments, ret) => push_call(s, name, tt, arguments, *ret),
            IrNode::Branch(ct, tt, src1, src2, name) => push_branch(s, *ct, tt, *src1, *src2, *name),
            IrNode::Unary(tt, tk, dest, src) => push_unary(s, tt, *tk, *dest, *src),
            IrNode::Binary(tk, tt, dest, src1, src2) => push_binary(s, *tk, tt, *dest, *src1, *src2),
        }
    }

    /// The text of the node: one line per instruction; a program prints its functions, a
    /// function its header, its instructions and a closing brace.
    pub fn to_string(&self) -> (r: String)
        requires
            ir_printable(self@),
        ensures
            r@ == ir_text(self@),
    {
        let mut s = String::new();
        self.push_text(&mut s);
        assert(s@ =~= ir_text(self@));
        s
    }
}

impl Clone for IrNode {
    /// A copy of the node, with the same model.
    fn clone(&self) -> (r: IrNode)
        ensures
            r@ == self@,
    {
        self.duplicate()
    }
}

} // verus!
