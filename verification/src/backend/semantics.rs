//! What the generated instructions compute: the register-register and register-immediate
//! instructions of RV32IM, read from the mnemonic they are printed with as the instruction set
//! manual defines them, and the operators of the language on 32-bit words; laws that the code of
//! each operation computes that operation.

use vstd::prelude::*;
use crate::ast::type_wrapper::{is_signed_type, TypeWrapper};
use crate::backend::codegen_riscv::{binary_code, branch_code, convert, movc_code, unary_code, CgState, StackModel};
use crate::backend::riscv_isa::{opcode_of, InstrModel, X0};
use crate::lexer::token::Operator;
use crate::lirgen::irnode::{branch_taken, CompareType, IrModel};
use vstd::arithmetic::power2::pow2;

verus! {

/// An integer taken modulo 2^32.
pub open spec fn word(x: int) -> u32 {
    (x % 0x1_0000_0000) as u32
}

/// A word read in two's complement.
pub open spec fn signed_value(x: u32) -> int {
    if x < 0x8000_0000 {
        x as int
    } else {
        x - 0x1_0000_0000
    }
}

/// The absolute value.
pub open spec fn magnitude(x: int) -> int {
    if x < 0 {
        -x
    } else {
        x
    }
}

/// Division rounding toward zero.
pub open spec fn quotient(x: int, y: int) -> int {
    if (x < 0) == (y < 0) {
        magnitude(x) / magnitude(y)
    } else {
        -(magnitude(x) / magnitude(y))
    }
}

/// The remainder of the division rounding toward zero: it has the sign of `x`.
pub open spec fn remainder(x: int, y: int) -> int {
    x - y * quotient(x, y)
}

/// 1 for true, 0 for false.
pub open spec fn flag(b: bool) -> u32 {
    if b {
        1
    } else {
        0
    }
}

/// Whether the instruction printed as `m` takes its second operand from its immediate.
pub open spec fn takes_immediate(m: Seq<char>) -> bool {
    m == "addi"@ || m == "slti"@ || m == "sltiu"@ || m == "andi"@ || m == "ori"@ || m == "xori"@ || m
        == "slli"@ || m == "srli"@ || m == "srai"@ || m == "lui"@
}

/// The value that the RV32IM instruction printed as `m` writes to its destination, given the
/// value `x` of its first source and `y` of its second operand; `None` for any other mnemonic.
pub open spec fn rv32_result(m: Seq<char>, x: u32, y: u32) -> Option<u32> {
    if m == "add"@ || m == "addi"@ {
        Some(word(x + y))
    } else if m == "sub"@ {
        Some(word(x - y))
    } else if m == "mul"@ {
        Some(word(x * y))
    } else if m == "div"@ {
        Some(if y == 0 { 0xffff_ffff } else { word(quotient(signed_value(x), signed_value(y))) })
    } else if m == "divu"@ {
        Some(if y == 0 { 0xffff_ffff } else { x / y })
    } else if m == "rem"@ {
        Some(if y == 0 { x } else { word(remainder(signed_value(x), signed_value(y))) })
    } else if m == "remu"@ {
        Some(if y == 0 { x } else { x % y })
    } else if m == "and"@ || m == "andi"@ {
        Some(x & y)
    } else if m == "or"@ || m == "ori"@ {
        Some(x | y)
    } else if m == "xor"@ || m == "xori"@ {
        Some(x ^ y)
    } else if m == "slt"@ || m == "slti"@ {
        Some(flag(signed_value(x) < signed_value(y)))
    } else if m == "sltu"@ || m == "sltiu"@ {
        Some(flag(x < y))
    } else if m == "sll"@ || m == "slli"@ {
        Some(x << (y % 32))
    } else if m == "srl"@ || m == "srli"@ {
        Some(x >> (y % 32))
    } else if m == "sra"@ || m == "srai"@ {
        Some(word(signed_value(x) / (pow2((y % 32) as nat) as int)))
    } else if m == "lui"@ {
        Some(word(y * 4096))
    } else {
        None
    }
}

/// The value of a register: `x0` always reads zero.
pub open spec fn read(regs: spec_fn(i32) -> u32, r: i32) -> u32 {
    if r == X0 {
        0
    } else {
        regs(r)
    }
}

/// The registers after writing `v` to `r`.
pub open spec fn write(regs: spec_fn(i32) -> u32, r: i32, v: u32) -> spec_fn(i32) -> u32 {
    |k: i32|
        if k == r {
            v
        } else {
            regs(k)
        }
}

/// The registers after one instruction, read from the mnemonic it is printed with; `None` for an
/// instruction that is not an arithmetic, logic or comparison one.
pub open spec fn step(regs: spec_fn(i32) -> u32, ins: InstrModel) -> Option<spec_fn(i32) -> u32> {
    let m = opcode_of(ins.tt, ins.is_unsigned).drop_first();
    let x = read(regs, ins.src1);
    let y = if takes_immediate(m) {
        ins.immediate as u32
    } else {
        read(regs, ins.src2)
    };
    match rv32_result(m, x, y) {
        Some(v) => Some(write(regs, ins.dest, v)),
        None => None,
    }
}

/// The registers after running straight-line code.
pub open spec fn run(regs: spec_fn(i32) -> u32, code: Seq<InstrModel>) -> Option<spec_fn(i32) -> u32>
    decreases code.len(),
{
    if code.len() == 0 {
        Some(regs)
    } else {
        match step(regs, code[0]) {
            Some(r) => run(r, code.drop_first()),
            None => None,
        }
    }
}

/// The spelling of the mnemonics.
proof fn lemma_spellings()
    ensures
        "\t"@ == seq!['\t'],
        "u"@ == seq!['u'],
        "add"@ == seq!['a', 'd', 'd'],
        "addi"@ == seq!['a', 'd', 'd', 'i'],
        "sub"@ == seq!['s', 'u', 'b'],
        "mul"@ == seq!['m', 'u', 'l'],
        "div"@ == seq!['d', 'i', 'v'],
        "divu"@ == seq!['d', 'i', 'v', 'u'],
        "rem"@ == seq!['r', 'e', 'm'],
        "remu"@ == seq!['r', 'e', 'm', 'u'],
        "and"@ == seq!['a', 'n', 'd'],
        "andi"@ == seq!['a', 'n', 'd', 'i'],
        "or"@ == seq!['o', 'r'],
        "ori"@ == seq!['o', 'r', 'i'],
        "xor"@ == seq!['x', 'o', 'r'],
        "xori"@ == seq!['x', 'o', 'r', 'i'],
        "slt"@ == seq!['s', 'l', 't'],
        "slti"@ == seq!['s', 'l', 't', 'i'],
        "sltu"@ == seq!['s', 'l', 't', 'u'],
        "sltiu"@ == seq!['s', 'l', 't', 'i', 'u'],
        "sll"@ == seq!['s', 'l', 'l'],
        "slli"@ == seq!['s', 'l', 'l', 'i'],
        "srl"@ == seq!['s', 'r', 'l'],
        "srli"@ == seq!['s', 'r', 'l', 'i'],
        "srai"@ == seq!['s', 'r', 'a', 'i'],
        "sra"@ == seq!['s', 'r', 'a'],
        "lui"@ == seq!['l', 'u', 'i'],
        "beq"@ == seq!['b', 'e', 'q'],
        "bne"@ == seq!['b', 'n', 'e'],
        "blt"@ == seq!['b', 'l', 't'],
        "bge"@ == seq!['b', 'g', 'e'],
        "bltu"@ == seq!['b', 'l', 't', 'u'],
        "bgeu"@ == seq!['b', 'g', 'e', 'u'],
        "j"@ == seq!['j'],
        "lb"@ == seq!['l', 'b'],
        "lh"@ == seq!['l', 'h'],
        "lw"@ == seq!['l', 'w'],
        "sb"@ == seq!['s', 'b'],
        "sh"@ == seq!['s', 'h'],
        "sw"@ == seq!['s', 'w'],
        "\tsrli"@ == seq!['\t', 's', 'r', 'l', 'i'],
        "\tsrai"@ == seq!['\t', 's', 'r', 'a', 'i'],
{
    reveal_strlit("\t");
    reveal_strlit("u");
    reveal_strlit("add");
    reveal_strlit("addi");
    reveal_strlit("sub");
    reveal_strlit("mul");
    reveal_strlit("div");
    reveal_strlit("divu");
    reveal_strlit("rem");
    reveal_strlit("remu");
    reveal_strlit("and");
    reveal_strlit("andi");
    reveal_strlit("or");
    reveal_strlit("ori");
    reveal_strlit("xor");
    reveal_strlit("xori");
    reveal_strlit("slt");
    reveal_strlit("slti");
    reveal_strlit("sltu");
    reveal_strlit("sltiu");
    reveal_strlit("sll");
    reveal_strlit("slli");
    reveal_strlit("srl");
    reveal_strlit("srli");
    reveal_strlit("srai");
    assert("\t"@ =~= seq!['\t']);
    assert("u"@ =~= seq!['u']);
    assert("add"@ =~= seq!['a', 'd', 'd']);
    assert("addi"@ =~= seq!['a', 'd', 'd', 'i']);
    assert("sub"@ =~= seq!['s', 'u', 'b']);
    assert("mul"@ =~= seq!['m', 'u', 'l']);
    assert("div"@ =~= seq!['d', 'i', 'v']);
    assert("divu"@ =~= seq!['d', 'i', 'v', 'u']);
    assert("rem"@ =~= seq!['r', 'e', 'm']);
    assert("remu"@ =~= seq!['r', 'e', 'm', 'u']);
    assert("and"@ =~= seq!['a', 'n', 'd']);
    assert("andi"@ =~= seq!['a', 'n', 'd', 'i']);
    assert("or"@ =~= seq!['o', 'r']);
    assert("ori"@ =~= seq!['o', 'r', 'i']);
    assert("xor"@ =~= seq!['x', 'o', 'r']);
    assert("xori"@ =~= seq!['x', 'o', 'r', 'i']);
    assert("slt"@ =~= seq!['s', 'l', 't']);
    assert("slti"@ =~= seq!['s', 'l', 't', 'i']);
    assert("sltu"@ =~= seq!['s', 'l', 't', 'u']);
    assert("sltiu"@ =~= seq!['s', 'l', 't', 'i', 'u']);
    assert("sll"@ =~= seq!['s', 'l', 'l']);
    assert("slli"@ =~= seq!['s', 'l', 'l', 'i']);
    assert("srl"@ =~= seq!['s', 'r', 'l']);
    assert("srli"@ =~= seq!['s', 'r', 'l', 'i']);
    assert("srai"@ =~= seq!['s', 'r', 'a', 'i']);
    reveal_strlit("sra");
    reveal_strlit("lui");
    reveal_strlit("beq");
    reveal_strlit("bne");
    reveal_strlit("blt");
    reveal_strlit("bge");
    reveal_strlit("bltu");
    reveal_strlit("bgeu");
    reveal_strlit("j");
    reveal_strlit("lb");
    reveal_strlit("lh");
    reveal_strlit("lw");
    reveal_strlit("sb");
    reveal_strlit("sh");
    reveal_strlit("sw");
    assert("sra"@ =~= seq!['s', 'r', 'a']);
    assert("lui"@ =~= seq!['l', 'u', 'i']);
    assert("beq"@ =~= seq!['b', 'e', 'q']);
    assert("bne"@ =~= seq!['b', 'n', 'e']);
    assert("blt"@ =~= seq!['b', 'l', 't']);
    assert("bge"@ =~= seq!['b', 'g', 'e']);
    assert("bltu"@ =~= seq!['b', 'l', 't', 'u']);
    assert("bgeu"@ =~= seq!['b', 'g', 'e', 'u']);
    assert("j"@ =~= seq!['j']);
    assert("lb"@ =~= seq!['l', 'b']);
    assert("lh"@ =~= seq!['l', 'h']);
    assert("lw"@ =~= seq!['l', 'w']);
    assert("sb"@ =~= seq!['s', 'b']);
    assert("sh"@ =~= seq!['s', 'h']);
    assert("sw"@ =~= seq!['s', 'w']);
    reveal_strlit("\tsrli");
    reveal_strlit("\tsrai");
    assert("\tsrli"@ =~= seq!['\t', 's', 'r', 'l', 'i']);
    assert("\tsrai"@ =~= seq!['\t', 's', 'r', 'a', 'i']);
}

/// Running one instruction.
proof fn lemma_run_one(regs: spec_fn(i32) -> u32, i: InstrModel)
    ensures
        run(regs, seq![i]) == step(regs, i),
{
    if let Some(r) = step(regs, i) {
        assert(seq![i].drop_first() =~= Seq::<InstrModel>::empty());
        assert(run(r, Seq::<InstrModel>::empty()) == Some(r));
    }
}

/// Running two instructions, one after the other.
proof fn lemma_run_two(regs: spec_fn(i32) -> u32, i1: InstrModel, i2: InstrModel)
    ensures
        run(regs, seq![i1, i2]) == (match step(regs, i1) {
            Some(r) => step(r, i2),
            None => None,
        }),
{
    if let Some(r) = step(regs, i1) {
        assert(seq![i1, i2].drop_first() =~= seq![i2]);
        lemma_run_one(r, i2);
    }
}

/// A word read back from the immediate it was stored in is the same word.
proof fn lemma_immediate_word(c: u32)
    ensures
        (c as i32) as u32 == c,
{
    assert((c as i32) as u32 == c) by (bit_vector);
}

/// The bitwise operations do not depend on the order of their operands.
proof fn lemma_bitwise_commute(x: u32, y: u32)
    ensures
        x & y == y & x,
        x | y == y | x,
        x ^ y == y ^ x,
{
    assert(x & y == y & x) by (bit_vector);
    assert(x | y == y | x) by (bit_vector);
    assert(x ^ y == y ^ x) by (bit_vector);
}

/// The difference of two words is zero exactly when they are equal.
proof fn lemma_difference_zero(x: u32, y: u32)
    ensures
        (word(x - y) == 0) == (x == y),
{
}

/// The value of `x op y` on 32-bit words, the operands unsigned or in two's complement:
/// wrapping sums, differences and products, division rounding toward zero and its remainder,
/// bitwise operations, a left shift, and comparisons giving 1 or 0.
pub open spec fn operator_value(op: Operator, unsigned: bool, x: u32, y: u32) -> u32 {
    match op {
        Operator::Plus => word(x + y),
        Operator::Minus => word(x - y),
        Operator::Asterisk => word(x * y),
        Operator::Slash => if unsigned {
            x / y
        } else {
            word(quotient(signed_value(x), signed_value(y)))
        },
        Operator::Module => if unsigned {
            x % y
        } else {
            word(remainder(signed_value(x), signed_value(y)))
        },
        Operator::AndOp => x & y,
        Operator::OrOp => x | y,
        Operator::XorOp => x ^ y,
        Operator::LShift => x << y,
        Operator::RShift => if unsigned {
            x >> y
        } else {
            word(signed_value(x) / (pow2(y as nat) as int))
        },
        Operator::EqualCompare => flag(x == y),
        Operator::DiffCompare => flag(x != y),
        Operator::LTCompare => flag(if unsigned { x < y } else { signed_value(x) < signed_value(y) }),
        Operator::GTCompare => flag(if unsigned { x > y } else { signed_value(x) > signed_value(y) }),
        Operator::LECompare => flag(if unsigned { x <= y } else { signed_value(x) <= signed_value(y) }),
        Operator::GECompare => flag(if unsigned { x >= y } else { signed_value(x) >= signed_value(y) }),
        _ => 0,
    }
}

/// The operations whose generated code computes `operator_value`: every binary operator, with a
/// divisor other than zero, shifts by less than 32, a right shift only by an amount known to be
/// constant (shifting by a register, the code shifts logically whatever the type), and `<=` and
/// `>=` on signed operands (the code compares them as signed whatever the type).
pub open spec fn operation_covered(op: Operator, unsigned: bool, y: u32, amount_known: bool) -> bool {
    match op {
        Operator::Plus | Operator::Minus | Operator::Asterisk | Operator::AndOp | Operator::OrOp
        | Operator::XorOp | Operator::EqualCompare | Operator::DiffCompare | Operator::LTCompare
        | Operator::GTCompare => true,
        Operator::Slash | Operator::Module => y != 0,
        Operator::LShift => y < 32,
        Operator::RShift => y < 32 && amount_known,
        Operator::LECompare | Operator::GECompare => !unsigned,
        _ => false,
    }
}

/// The code of a binary operation `dest = a op b` computes `op` on the values of `a` and `b`,
/// in that order, when the registers known to hold constants hold them: run on the registers
/// it leaves in `dest` the value of the operation, each instruction taken for what its printed
/// mnemonic means.
pub proof fn lemma_binary_code_computes(
    st: CgState,
    op: Operator,
    tt: TypeWrapper,
    dest: u32,
    a: u32,
    b: u32,
    stack: Seq<StackModel>,
    f: u32,
    regs: spec_fn(i32) -> u32,
)
    requires
        operation_covered(op, !is_signed_type(tt), read(regs, b as i32), st.constants.contains_key(b)),
        dest < 0x8000_0000,
        a < 0x8000_0000,
        b < 0x8000_0000,
        st.constants.contains_key(a) ==> read(regs, a as i32) == st.constants[a],
        st.constants.contains_key(b) ==> read(regs, b as i32) == st.constants[b],
    ensures
        convert(st, IrModel::Binary(op, tt, dest, a, b), stack, f) matches Some((_, code, _)) && (run(regs, code)
            matches Some(after) && read(after, dest as i32) == operator_value(
            op,
            !is_signed_type(tt),
            read(regs, a as i32),
            read(regs, b as i32),
        )),
{
    lemma_spellings();
    let x = read(regs, a as i32);
    let y = read(regs, b as i32);
    let u = !is_signed_type(tt);
    let code = binary_code(st.constants, op, tt, dest, a, b)->0;
    assert(convert(st, IrModel::Binary(op, tt, dest, a, b), stack, f) == Some((st, code, Seq::<InstrModel>::empty())));
    lemma_bitwise_commute(x, y);
    if st.constants.contains_key(a) {
        lemma_immediate_word(st.constants[a]);
    }
    if st.constants.contains_key(b) {
        lemma_immediate_word(st.constants[b]);
    }
    lemma_difference_zero(x, y);
    let d = dest as i32;
    let v = operator_value(op, u, x, y);
    let mu = if u { "u"@ } else { Seq::<char>::empty() };
    match op {
        Operator::Slash => {
            assert(("\t"@ + "div"@ + mu).drop_first() =~= if u { "divu"@ } else { "div"@ });
        },
        Operator::Module => {
            assert(("\t"@ + "rem"@ + mu).drop_first() =~= if u { "remu"@ } else { "rem"@ });
        },
        Operator::LTCompare | Operator::GTCompare => {
            assert(("\t"@ + "slt"@ + mu).drop_first() =~= if u { "sltu"@ } else { "slt"@ });
        },
        Operator::EqualCompare | Operator::LECompare | Operator::GECompare => {
            assert(("\t"@ + "slt"@ + Seq::<char>::empty()).drop_first() =~= "slt"@);
            assert(("\t"@ + "slti"@ + "u"@).drop_first() =~= "sltiu"@);
        },
        Operator::DiffCompare => {
            assert(("\t"@ + "slt"@ + "u"@).drop_first() =~= "sltu"@);
        },
        _ => {},
    }
    assert(("\t"@ + "add"@).drop_first() =~= "add"@);
    assert(("\t"@ + "addi"@).drop_first() =~= "addi"@);
    assert(("\t"@ + "sub"@).drop_first() =~= "sub"@);
    assert(("\t"@ + "mul"@).drop_first() =~= "mul"@);
    assert(("\t"@ + "and"@).drop_first() =~= "and"@);
    assert(("\t"@ + "andi"@).drop_first() =~= "andi"@);
    assert(("\t"@ + "or"@).drop_first() =~= "or"@);
    assert(("\t"@ + "ori"@).drop_first() =~= "ori"@);
    assert(("\t"@ + "xor"@).drop_first() =~= "xor"@);
    assert(("\t"@ + "xori"@).drop_first() =~= "xori"@);
    assert(("\t"@ + "sll"@).drop_first() =~= "sll"@);
    assert(("\t"@ + "slli"@).drop_first() =~= "slli"@);
    assert(("\tsrli"@).drop_first() =~= "srli"@);
    assert(("\tsrai"@).drop_first() =~= "srai"@);
    if code.len() == 1 {
        lemma_run_one(regs, code[0]);
        assert(code =~= seq![code[0]]);
    } else {
        lemma_run_two(regs, code[0], code[1]);
        assert(code =~= seq![code[0], code[1]]);
    }
}

/// The value of a unary operator on a 32-bit word: the wrapping negation, the bitwise
/// complement, and the logical negation giving 1 or 0.
pub open spec fn unary_value(op: Operator, x: u32) -> u32 {
    match op {
        Operator::Minus => word(-x),
        Operator::Complement => !x,
        Operator::Not => flag(x == 0),
        _ => 0,
    }
}

/// The code of a unary operation `dest = op src`, for `-`, `~` and `!`, leaves in `dest` the value
/// of the operation on `src`, each instruction taken for what its printed mnemonic means.
pub proof fn lemma_unary_code_computes(
    st: CgState,
    tt: TypeWrapper,
    op: Operator,
    dest: u32,
    src: u32,
    stack: Seq<StackModel>,
    f: u32,
    regs: spec_fn(i32) -> u32,
)
    requires
        op == Operator::Minus || op == Operator::Complement || op == Operator::Not,
        dest < 0x8000_0000,
        src < 0x8000_0000,
    ensures
        convert(st, IrModel::Unary(tt, op, dest, src), stack, f) matches Some((_, code, _)) && (run(regs, code)
            matches Some(after) && read(after, dest as i32) == unary_value(op, read(regs, src as i32))),
{
    lemma_spellings();
    let x = read(regs, src as i32);
    let i = unary_code(op, dest, src)->0;
    assert(convert(st, IrModel::Unary(tt, op, dest, src), stack, f) == Some((st, seq![i], Seq::<InstrModel>::empty())));
    lemma_run_one(regs, i);
    assert(("\t"@ + "sub"@).drop_first() =~= "sub"@);
    assert(("\t"@ + "xori"@).drop_first() =~= "xori"@);
    assert(("\t"@ + "slti"@ + "u"@).drop_first() =~= "sltiu"@);
    assert(x ^ ((-1i32) as u32) == !x) by (bit_vector);
}

/// Whether the branch printed as `m` is taken, given the values `x` and `y` of its two sources;
/// `None` for a mnemonic that is no branch.
pub open spec fn rv32_branch_taken(m: Seq<char>, x: u32, y: u32) -> Option<bool> {
    if m == "beq"@ {
        Some(x == y)
    } else if m == "bne"@ {
        Some(x != y)
    } else if m == "blt"@ {
        Some(signed_value(x) < signed_value(y))
    } else if m == "bltu"@ {
        Some(x < y)
    } else if m == "bge"@ {
        Some(signed_value(x) >= signed_value(y))
    } else if m == "bgeu"@ {
        Some(x >= y)
    } else if m == "j"@ {
        Some(true)
    } else {
        None
    }
}

/// A word as the number its type reads it as: unsigned, or in two's complement.
pub open spec fn typed_value(unsigned: bool, x: u32) -> int {
    if unsigned {
        x as int
    } else {
        signed_value(x)
    }
}

/// The branch generated for the condition `ct` on the registers `a` and `b` goes to its label
/// exactly when the condition holds on their values, read as its type reads them, each branch
/// taken for what its printed mnemonic means.
pub proof fn lemma_branch_code_decides(
    ct: CompareType,
    tt: TypeWrapper,
    a: u32,
    b: u32,
    label: u32,
    f: u32,
    regs: spec_fn(i32) -> u32,
)
    requires
        a < 0x8000_0000,
        b < 0x8000_0000,
    ensures
        ({
            let i = branch_code(ct, tt, a, b, label, f);
            &&& i.label == label
            &&& i.label_function == f
            &&& rv32_branch_taken(opcode_of(i.tt, i.is_unsigned).drop_first(), read(regs, i.src1), read(regs, i.src2))
                == Some(
                branch_taken(
                    ct,
                    typed_value(!is_signed_type(tt), read(regs, a as i32)),
                    typed_value(!is_signed_type(tt), read(regs, b as i32)),
                ),
            )
        }),
{
    lemma_spellings();
    let mu = if !is_signed_type(tt) { "u"@ } else { Seq::<char>::empty() };
    assert(("\t"@ + "j"@).drop_first() =~= "j"@);
    assert(("\t"@ + "beq"@).drop_first() =~= "beq"@);
    assert(("\t"@ + "bne"@).drop_first() =~= "bne"@);
    assert(("\t"@ + "blt"@ + mu).drop_first() =~= if !is_signed_type(tt) { "bltu"@ } else { "blt"@ });
    assert(("\t"@ + "bge"@ + mu).drop_first() =~= if !is_signed_type(tt) { "bgeu"@ } else { "bge"@ });
    let x = read(regs, a as i32);
    assert((signed_value(x) != 0) == (x != 0));
}

/// Loading a constant below 4096 leaves it in the destination, and it is the value recorded as
/// held there.
pub proof fn lemma_constant_load(st: CgState, tt: TypeWrapper, dest: u32, value: u32, stack: Seq<StackModel>, f: u32, regs: spec_fn(i32) -> u32)
    requires
        dest < 0x8000_0000,
        value < 4096,
    ensures
        convert(st, IrModel::MovC(tt, dest, value), stack, f) matches Some((st2, code, _)) && (run(regs, code)
            matches Some(after) && read(after, dest as i32) == value && st2.constants == st.constants.insert(
            dest,
            value,
        )),
{
    lemma_spellings();
    assert(movc_code(dest, value) =~= seq![movc_code(dest, value)[0]]);
    lemma_run_one(regs, movc_code(dest, value)[0]);
    assert(("\t"@ + "addi"@).drop_first() =~= "addi"@);
}

/// The number of bytes that the load or store printed as `m` moves; 0 for any other mnemonic.
pub open spec fn access_width(m: Seq<char>) -> int {
    if m == "lb"@ || m == "sb"@ {
        1
    } else if m == "lh"@ || m == "sh"@ {
        2
    } else if m == "lw"@ || m == "sw"@ {
        4
    } else {
        0
    }
}

/// Whether the instruction printed as `m` is a store.
pub open spec fn is_store(m: Seq<char>) -> bool {
    m == "sb"@ || m == "sh"@ || m == "sw"@
}

/// A store of a value of type `tt` is one store instruction moving as many bytes as the type has,
/// of the register holding the value.
pub proof fn lemma_store_width(st: CgState, tt: TypeWrapper, dest: u32, src: u32, stack: Seq<StackModel>, f: u32)
    ensures
        convert(st, IrModel::Store(tt, dest, src), stack, f) matches Some((_, code, _)) ==> code.len() == 1
            && is_store(opcode_of(code[0].tt, code[0].is_unsigned).drop_first()) && access_width(
            opcode_of(code[0].tt, code[0].is_unsigned).drop_first(),
        ) == crate::ast::type_wrapper::type_size(tt) && code[0].src2 == src as i32,
{
    lemma_spellings();
    assert(("\t"@ + "sb"@).drop_first() =~= "sb"@);
    assert(("\t"@ + "sh"@).drop_first() =~= "sh"@);
    assert(("\t"@ + "sw"@).drop_first() =~= "sw"@);
}

/// A load of a value of type `tt` is one load instruction moving as many bytes as the type has,
/// into the destination register.
pub proof fn lemma_load_width(st: CgState, tt: TypeWrapper, dest: u32, src: u32, stack: Seq<StackModel>, f: u32)
    ensures
        convert(st, IrModel::LoadR(tt, dest, src), stack, f) matches Some((_, code, _)) ==> code.len() == 1
            && !is_store(opcode_of(code[0].tt, code[0].is_unsigned).drop_first()) && access_width(
            opcode_of(code[0].tt, code[0].is_unsigned).drop_first(),
        ) == crate::ast::type_wrapper::type_size(tt) && code[0].dest == dest as i32,
{
    lemma_spellings();
    assert(("\t"@ + "lb"@).drop_first() =~= "lb"@);
    assert(("\t"@ + "lh"@).drop_first() =~= "lh"@);
    assert(("\t"@ + "lw"@).drop_first() =~= "lw"@);
}

} // verus!
