//! The RV32IM instructions the back end emits, and their assembly text.

use vstd::prelude::*;
use crate::text::{decimal, push_decimal, push_signed_decimal, push_str, signed_decimal};

verus! {

/// The RV32IM instructions in use, with a few pseudo instructions: labels and `nop`.
#[derive(Clone, Copy, Debug, PartialEq, Eq, Structural, PartialOrd, Ord)]
pub enum RiscvInstructionType {
    ADDI,
    SLTI,
    ANDI,
    ORI,
    XORI,
    SLLI,
    SRLI,
    LUI,
    ADD,
    SLT,
    AND,
    OR,
    XOR,
    SLL,
    SRL,
    SUB,
    J,
    JAL,
    BEQ,
    BNE,
    BLT,
    BGE,
    LB,
    LH,
    LW,
    SB,
    SH,
    SW,
    DIV,
    REM,
    MUL,
    LABEL,
    NOP,
    LABELFUNCTION,
}

impl Default for RiscvInstructionType {
    /// The default instruction is `nop`.
    fn default() -> (r: RiscvInstructionType)
        ensures
            r == RiscvInstructionType::NOP,
    {
        RiscvInstructionType::NOP
    }
}

/// The mnemonic of an instruction; empty for the labels.
pub open spec fn mnemonic(t: RiscvInstructionType) -> Seq<char> {
    match t {
        RiscvInstructionType::ADDI => "addi"@,
        RiscvInstructionType::SLTI => "slti"@,
        RiscvInstructionType::ANDI => "andi"@,
        RiscvInstructionType::ORI => "ori"@,
        RiscvInstructionType::XORI => "xori"@,
        RiscvInstructionType::SLLI => "slli"@,
        RiscvInstructionType::SRLI => "srli"@,
        RiscvInstructionType::LUI => "lui"@,
        RiscvInstructionType::ADD => "add"@,
        RiscvInstructionType::SLT => "slt"@,
        RiscvInstructionType::AND => "and"@,
        RiscvInstructionType::OR => "or"@,
        RiscvInstructionType::XOR => "xor"@,
        RiscvInstructionType::SLL => "sll"@,
        RiscvInstructionType::SRL => "srl"@,
        RiscvInstructionType::SUB => "sub"@,
        RiscvInstructionType::J => "j"@,
        RiscvInstructionType::JAL => "jal"@,
        RiscvInstructionType::BEQ => "beq"@,
        RiscvInstructionType::BNE => "bne"@,
        RiscvInstructionType::BLT => "blt"@,
        RiscvInstructionType::BGE => "bge"@,
        RiscvInstructionType::LB => "lb"@,
        RiscvInstructionType::LH => "lh"@,
        RiscvInstructionType::LW => "lw"@,
        RiscvInstructionType::SB => "sb"@,
        RiscvInstructionType::SH => "sh"@,
        RiscvInstructionType::SW => "sw"@,
        RiscvInstructionType::DIV => "div"@,
        RiscvInstructionType::REM => "rem"@,
        RiscvInstructionType::MUL => "mul"@,
        RiscvInstructionType::LABEL | RiscvInstructionType::LABELFUNCTION => Seq::empty(),
        RiscvInstructionType::NOP => "nop"@,
    }
}

impl RiscvInstructionType {
    /// Appends the mnemonic of the instruction to `s`.
    pub fn push_text(&self, s: &mut String)
        ensures
            final(s)@ == old(s)@ + mnemonic(*self),
    {
        match *self {
            RiscvInstructionType::ADDI => push_str(s, "addi"),
            RiscvInstructionType::SLTI => push_str(s, "slti"),
            RiscvInstructionType::ANDI => push_str(s, "andi"),
            RiscvInstructionType::ORI => push_str(s, "ori"),
            RiscvInstructionType::XORI => push_str(s, "xori"),
            RiscvInstructionType::SLLI => push_str(s, "slli"),
            RiscvInstructionType::SRLI => push_str(s, "srli"),
            RiscvInstructionType::LUI => push_str(s, "lui"),
            RiscvInstructionType::ADD => push_str(s, "add"),
            RiscvInstructionType::SLT => push_str(s, "slt"),
            RiscvInstructionType::AND => push_str(s, "and"),
            RiscvInstructionType::OR => push_str(s, "or"),
            RiscvInstructionType::XOR => push_str(s, "xor"),
            RiscvInstructionType::SLL => push_str(s, "sll"),
            RiscvInstructionType::SRL => push_str(s, "srl"),
            RiscvInstructionType::SUB => push_str(s, "sub"),
            RiscvInstructionType::J => push_str(s, "j"),
            RiscvInstructionType::JAL => push_str(s, "jal"),
            RiscvInstructionType::BEQ => push_str(s, "beq"),
            RiscvInstructionType::BNE => push_str(s, "bne"),
            RiscvInstructionType::BLT => push_str(s, "blt"),
            RiscvInstructionType::BGE => push_str(s, "bge"),
            RiscvInstructionType::LB => push_str(s, "lb"),
            RiscvInstructionType::LH => push_str(s, "lh"),
            RiscvInstructionType::LW => push_str(s, "lw"),
            RiscvInstructionType::SB => push_str(s, "sb"),
            RiscvInstructionType::SH => push_str(s, "sh"),
            RiscvInstructionType::SW => push_str(s, "sw"),
            RiscvInstructionType::DIV => push_str(s, "div"),
            RiscvInstructionType::REM => push_str(s, "rem"),
            RiscvInstructionType::MUL => push_str(s, "mul"),
            RiscvInstructionType::LABEL | RiscvInstructionType::LABELFUNCTION => {
                assert(old(s)@ + mnemonic(*self) =~= old(s)@);
            },
            RiscvInstructionType::NOP => push_str(s, "nop"),
        }
    }

    /// The mnemonic of the instruction; empty for the labels.
    pub fn to_string(&self) -> (r: String)
        ensures
            r@ == mnemonic(*self),
    {
        let mut s = String::new();
        self.push_text(&mut s);
        assert(s@ =~= mnemonic(*self));
        s
    }
}

/// An instruction with all the fields any instruction may need. Negative registers are the
/// special ones (`SP`, `GP`, `FP`, `RA`, `X0`, `TP`, and the arguments `a0` to `a7` from -6 down to
/// -13); others are physical registers once `register_allocated` is set, virtual ones before.
#[derive(Clone, Debug, PartialEq, Eq, PartialOrd, Ord)]
pub struct RiscvInstruction {
    pub tt: RiscvInstructionType,
    pub dest: i32,
    pub src1: i32,
    pub src2: i32,
    pub immediate: i32,
    pub label: u32,
    pub label_function: u32,
    pub is_unsigned: bool,
    pub name: String,
    pub register_allocated: bool,
}

impl Default for RiscvInstruction {
    /// A `nop` with every other field zero, false or empty.
    fn default() -> (r: RiscvInstruction)
        ensures
            r.tt == RiscvInstructionType::NOP,
            r.dest == 0 && r.src1 == 0 && r.src2 == 0 && r.immediate == 0,
            r.label == 0 && r.label_function == 0,
            !r.is_unsigned && !r.register_allocated,
            r.name@ == Seq::<char>::empty(),
    {
        RiscvInstruction {
            tt: RiscvInstructionType::NOP,
            dest: 0,
            src1: 0,
            src2: 0,
            immediate: 0,
            label: 0,
            label_function: 0,
            is_unsigned: false,
            name: String::new(),
            register_allocated: false,
        }
    }
}

/// An instruction as a mathematical value: its fields, with the called function's name as a
/// sequence of characters.
pub struct InstrModel {
    pub tt: RiscvInstructionType,
    pub dest: i32,
    pub src1: i32,
    pub src2: i32,
    pub immediate: i32,
    pub label: u32,
    pub label_function: u32,
    pub is_unsigned: bool,
    pub name: Seq<char>,
    pub register_allocated: bool,
}

impl View for RiscvInstruction {
    type V = InstrModel;

    open spec fn view(&self) -> InstrModel {
        InstrModel {
            tt: self.tt,
            dest: self.dest,
            src1: self.src1,
            src2: self.src2,
            immediate: self.immediate,
            label: self.label,
            label_function: self.label_function,
            is_unsigned: self.is_unsigned,
            name: self.name@,
            register_allocated: self.register_allocated,
        }
    }
}

/// The models of a sequence of instructions, in order.
pub open spec fn instr_list_model(s: Seq<RiscvInstruction>) -> Seq<InstrModel> {
    s.map_values(|i: RiscvInstruction| i@)
}

/// The model of an instruction of type `tt` with every other field zero, false or empty.
pub open spec fn bare(tt: RiscvInstructionType) -> InstrModel {
    InstrModel {
        tt,
        dest: 0,
        src1: 0,
        src2: 0,
        immediate: 0,
        label: 0,
        label_function: 0,
        is_unsigned: false,
        name: Seq::empty(),
        register_allocated: false,
    }
}

/// The stack pointer.
pub const SP: i32 = -1;

/// The global pointer.
pub const GP: i32 = -2;

/// The frame pointer.
pub const FP: i32 = -3;

/// The return address.
pub const RA: i32 = -4;

/// The register holding zero.
pub const X0: i32 = -5;

/// The first argument register, which also holds the returned value.
pub const A0: i32 = -6;

/// The thread pointer, used as the pointer of the stack that holds spilled virtual registers.
pub const TP: i32 = -14;

/// The name of a register: the special registers by name, the argument registers `a0` to `a7`;
/// others `x` and their number once allocated, `v` and their number before.
pub open spec fn reg_name(reg: i32, allocated: bool) -> Seq<char> {
    if reg == SP {
        "sp"@
    } else if reg == GP {
        "gp"@
    } else if reg == FP {
        "s0"@
    } else if reg == RA {
        "ra"@
    } else if reg == X0 {
        "x0"@
    } else if reg == TP {
        "tp"@
    } else if -13 <= reg <= -6 {
        seq!['a'] + decimal((-6 - reg) as nat)
    } else if allocated {
        seq!['x'] + signed_decimal(reg as int)
    } else {
        seq!['v'] + signed_decimal(reg as int)
    }
}

/// A label of a function: `L_`, the function's number, `_`, the label's number.
pub open spec fn label_name(function: u32, label: u32) -> Seq<char> {
    "L_"@ + decimal(function as nat) + "_"@ + decimal(label as nat)
}

/// The opcode of an instruction, tab first, with its `u` suffix or shift variant: `slti`, `slt`,
/// `div`, `rem`, `srl`, `blt` and `bge` get `u` when unsigned; `srli` becomes `srai` when
/// signed.
pub open spec fn opcode_text(ins: RiscvInstruction) -> Seq<char> {
    opcode_of(ins.tt, ins.is_unsigned)
}

/// The opcode of an instruction of type `tt`, tab first, given whether it works on unsigned
/// values (see `opcode_text`).
pub open spec fn opcode_of(tt: RiscvInstructionType, is_unsigned: bool) -> Seq<char> {
    match tt {
        RiscvInstructionType::SRLI => if is_unsigned {
            "\tsrli"@
        } else {
            "\tsrai"@
        },
        RiscvInstructionType::SLTI | RiscvInstructionType::SLT | RiscvInstructionType::DIV
        | RiscvInstructionType::REM | RiscvInstructionType::SRL | RiscvInstructionType::BLT
        | RiscvInstructionType::BGE => "\t"@ + mnemonic(tt) + (if is_unsigned {
            "u"@
        } else {
            Seq::empty()
        }),
        _ => "\t"@ + mnemonic(tt),
    }
}

/// The assembly line of an instruction.
pub open spec fn instruction_text(ins: RiscvInstruction) -> Seq<char> {
    let a = ins.register_allocated;
    match ins.tt {
        RiscvInstructionType::ADDI | RiscvInstructionType::ANDI | RiscvInstructionType::ORI
        | RiscvInstructionType::XORI | RiscvInstructionType::SLLI | RiscvInstructionType::SLTI
        | RiscvInstructionType::SRLI => opcode_text(ins) + "\t"@ + reg_name(ins.dest, a) + ", "@
            + reg_name(ins.src1, a) + ", "@ + signed_decimal(ins.immediate as int) + "\n"@,
        RiscvInstructionType::LUI => opcode_text(ins) + "\t"@ + reg_name(ins.dest, a) + ", "@
            + signed_decimal(ins.immediate as int) + "\n"@,
        RiscvInstructionType::ADD | RiscvInstructionType::AND | RiscvInstructionType::OR
        | RiscvInstructionType::XOR | RiscvInstructionType::SLL | RiscvInstructionType::SUB
        | RiscvInstructionType::MUL | RiscvInstructionType::SLT | RiscvInstructionType::DIV
        | RiscvInstructionType::REM | RiscvInstructionType::SRL => opcode_text(ins) + "\t"@
            + reg_name(ins.dest, a) + ", "@ + reg_name(ins.src1, a) + ", "@ + reg_name(ins.src2, a)
            + "\n"@,
        RiscvInstructionType::J => "\tjal\tx0, "@ + label_name(ins.label_function, ins.label) + "\n"@,
        RiscvInstructionType::JAL => if ins.src1 == 0 {
            opcode_text(ins) + "\t"@ + reg_name(ins.dest, a) + ", "@ + ins.name@ + "\n"@
        } else {
            "\tjalr\t"@ + reg_name(ins.dest, a) + ", "@ + reg_name(ins.src1, a) + ", 0\n"@
        },
        RiscvInstructionType::BEQ | RiscvInstructionType::BNE | RiscvInstructionType::BLT
        | RiscvInstructionType::BGE => opcode_text(ins) + "\t"@ + reg_name(ins.src1, a) + ", "@
            + reg_name(ins.src2, a) + ", "@ + label_name(ins.label_function, ins.label) + "\n"@,
        RiscvInstructionType::LH | RiscvInstructionType::LW | RiscvInstructionType::LB => opcode_text(
            ins,
        ) + "\t"@ + reg_name(ins.dest, a) + ", "@ + signed_decimal(ins.immediate as int) + "("@
            + reg_name(ins.src1, a) + ")\n"@,
        RiscvInstructionType::SB | RiscvInstructionType::SH | RiscvInstructionType::SW => opcode_text(
            ins,
        ) + "\t"@ + reg_name(ins.src2, a) + ", "@ + signed_decimal(ins.immediate as int) + "("@
            + reg_name(ins.src1, a) + ")\n"@,
        RiscvInstructionType::LABEL => label_name(ins.label_function, ins.label) + ":\n"@,
        RiscvInstructionType::NOP => opcode_text(ins) + "\n"@,
        RiscvInstructionType::LABELFUNCTION => "\n"@ + ins.name@ + ":\n"@,
    }
}

/// Appends the name of a register to `s`.
fn push_reg_name(s: &mut String, reg: i32, allocated: bool)
    ensures
        final(s)@ == old(s)@ + reg_name(reg, allocated),
{
    let ghost s0 = s@;
    if reg == SP {
        push_str(s, "sp");
    } else if reg == GP {
        push_str(s, "gp");
    } else if reg == FP {
        push_str(s, "s0");
    } else if reg == RA {
        push_str(s, "ra");
    } else if reg == X0 {
        push_str(s, "x0");
    } else if reg == TP {
        push_str(s, "tp");
    } else if -13 <= reg && reg <= -6 {
        push_str(s, "a");
        let k: i32 = -6 - reg;
        push_decimal(s, k as u64);
        assert(s@ =~= s0 + reg_name(reg, allocated)) by {
            reveal_strlit("a");
        }
    } else if allocated {
        push_str(s, "x");
        push_signed_decimal(s, reg);
        assert(s@ =~= s0 + reg_name(reg, allocated)) by {
            reveal_strlit("x");
        }
    } else {
        push_str(s, "v");
        push_signed_decimal(s, reg);
        assert(s@ =~= s0 + reg_name(reg, allocated)) by {
            reveal_strlit("v");
        }
    }
}

/// Appends a label name to `s`.
fn push_label_name(s: &mut String, function: u32, label: u32)
    ensures
        final(s)@ == old(s)@ + label_name(function, label),
{
    let ghost s0 = s@;
    push_str(s, "L_");
    push_decimal(s, function as u64);
    push_str(s, "_");
    push_decimal(s, label as u64);
    assert(s@ =~= s0 + label_name(function, label));
}

impl RiscvInstruction {
    /// A copy of the instruction.
    pub fn duplicate(&self) -> (r: RiscvInstruction)
        ensures
            r@ == self@,
    {
        RiscvInstruction {
            tt: self.tt,
            dest: self.dest,
            src1: self.src1,
            src2: self.src2,
            immediate: self.immediate,
            label: self.label,
            label_function: self.label_function,
            is_unsigned: self.is_unsigned,
            name: self.name.clone(),
            register_allocated: self.register_allocated,
        }
    }

    /// The name of a register: `sp`, `gp`, `s0` for the frame pointer, `ra`, `x0`, `tp`, `a0` to `a7`
    /// for the argument registers; otherwise `x` and its number for an allocated register, `v`
    /// and its number for a virtual one.
    pub fn reg_to_string(reg: i32, allocated: bool) -> (r: String)
        ensures
            r@ == reg_name(reg, allocated),
    {
        let mut s = String::new();
        push_reg_name(&mut s, reg, allocated);
        assert(s@ =~= reg_name(reg, allocated));
        s
    }

    /// Appends the opcode of the instruction to `s`.
    fn push_opcode(&self, s: &mut String)
        ensures
            final(s)@ == old(s)@ + opcode_text(*self),
    {
        let ghost s0 = s@;
        match self.tt {
            RiscvInstructionType::SRLI => {
                if self.is_unsigned {
                    push_str(s, "\tsrli");
                } else {
                    push_str(s, "\tsrai");
                }
            },
            RiscvInstructionType::SLTI | RiscvInstructionType::SLT | RiscvInstructionType::DIV
            | RiscvInstructionType::REM | RiscvInstructionType::SRL | RiscvInstructionType::BLT
            | RiscvInstructionType::BGE => {
                push_str(s, "\t");
                self.tt.push_text(s);
                if self.is_unsigned {
                    push_str(s, "u");
                }
                assert(s@ =~= s0 + opcode_text(*self));
            },
            _ => {
                push_str(s, "\t");
                self.tt.push_text(s);
                assert(s@ =~= s0 + opcode_text(*self));
            },
        }
    }

    /// Appends the line of an instruction with a destination, a source and an immediate.
    fn push_immediate_form(&self, s: &mut String)
        ensures
            final(s)@ == old(s)@ + opcode_text(*self) + "\t"@ + reg_name(self.dest, self.register_allocated)
                + ", "@ + reg_name(self.src1, self.register_allocated) + ", "@ + signed_decimal(
                self.immediate as int,
            ) + "\n"@,
    {
        let ghost s0 = s@;
        self.push_opcode(s);
        push_str(s, "\t");
        push_reg_name(s, self.dest, self.register_allocated);
        push_str(s, ", ");
        push_reg_name(s, self.src1, self.register_allocated);
        push_str(s, ", ");
        push_signed_decimal(s, self.immediate);
        push_str(s, "\n");
        assert(s@ =~= s0 + opcode_text(*self) + "\t"@ + reg_name(self.dest, self.register_allocated)
            + ", "@ + reg_name(self.src1, self.register_allocated) + ", "@ + signed_decimal(
            self.immediate as int,
        ) + "\n"@);
    }

    /// Appends the line of an instruction with a destination and two sources.
    fn push_register_form(&self, s: &mut String)
        ensures
            final(s)@ == old(s)@ + opcode_text(*self) + "\t"@ + reg_name(self.dest, self.register_allocated)
                + ", "@ + reg_name(self.src1, self.register_allocated) + ", "@ + reg_name(
                self.src2,
                self.register_allocated,
            ) + "\n"@,
    {
        let ghost s0 = s@;
        self.push_opcode(s);
        push_str(s, "\t");
        push_reg_name(s, self.dest, self.register_allocated);
        push_str(s, ", ");
        push_reg_name(s, self.src1, self.register_allocated);
        push_str(s, ", ");
        push_reg_name(s, self.src2, self.register_allocated);
        push_str(s, "\n");
        assert(s@ =~= s0 + opcode_text(*self) + "\t"@ + reg_name(self.dest, self.register_allocated)
            + ", "@ + reg_name(self.src1, self.register_allocated) + ", "@ + reg_name(
            self.src2,
            self.register_allocated,
        ) + "\n"@);
    }

    /// Appends the line of a branch.
    fn push_branch_form(&self, s: &mut String)
        ensures
            final(s)@ == old(s)@ + opcode_text(*self) + "\t"@ + reg_name(self.src1, self.register_allocated)
                + ", "@ + reg_name(self.src2, self.register_allocated) + ", "@ + label_name(
                self.label_function,
                self.label,
            ) + "\n"@,
    {
        let ghost s0 = s@;
        self.push_opcode(s);
        push_str(s, "\t");
        push_reg_name(s, self.src1, self.register_allocated);
        push_str(s, ", ");
        push_reg_name(s, self.src2, self.register_allocated);
        push_str(s, ", ");
        push_label_name(s, self.label_function, self.label);
        push_str(s, "\n");
        assert(s@ =~= s0 + opcode_text(*self) + "\t"@ + reg_name(self.src1, self.register_allocated)
            + ", "@ + reg_name(self.src2, self.register_allocated) + ", "@ + label_name(
            self.label_function,
            self.label,
        ) + "\n"@);
    }

    /// Appends the line of a load or a store: the data register, the offset and the address
    /// register.
    fn push_memory_form(&self, s: &mut String, data: i32)
        ensures
            final(s)@ == old(s)@ + opcode_text(*self) + "\t"@ + reg_name(data, self.register_allocated)
                + ", "@ + signed_decimal(self.immediate as int) + "("@ + reg_name(
                self.src1,
                self.register_allocated,
            ) + ")\n"@,
    {
        let ghost s0 = s@;
        self.push_opcode(s);
        push_str(s, "\t");
        push_reg_name(s, data, self.register_allocated);
        push_str(s, ", ");
        push_signed_decimal(s, self.immediate);
        push_str(s, "(");
        push_reg_name(s, self.src1, self.register_allocated);
        push_str(s, ")\n");
        assert(s@ =~= s0 + opcode_text(*self) + "\t"@ + reg_name(data, self.register_allocated)
            + ", "@ + signed_decimal(self.immediate as int) + "("@ + reg_name(
            self.src1,
            self.register_allocated,
        ) + ")\n"@);
    }

    /// Appends the line of a jump.
    fn push_jump_form(&self, s: &mut String)
        requires
            self.tt == RiscvInstructionType::J || self.tt == RiscvInstructionType::JAL,
        ensures
            final(s)@ == old(s)@ + instruction_text(*self),
    {
        let ghost s0 = s@;
        if self.tt == RiscvInstructionType::J {
            push_str(s, "\tjal\tx0, ");
            push_label_name(s, self.label_function, self.label);
            push_str(s, "\n");
        } else if self.src1 == 0 {
            self.push_opcode(s);
            push_str(s, "\t");
            push_reg_name(s, self.dest, self.register_allocated);
            push_str(s, ", ");
            push_str(s, self.name.as_str());
            push_str(s, "\n");
        } else {
            push_str(s, "\tjalr\t");
            push_reg_name(s, self.dest, self.register_allocated);
            push_str(s, ", ");
            push_reg_name(s, self.src1, self.register_allocated);
            push_str(s, ", 0\n");
        }
        assert(s@ =~= s0 + instruction_text(*self));
    }

    /// Appends the line of a label, a `nop` or the label of a function.
    fn push_label_form(&self, s: &mut String)
        requires
            self.tt == RiscvInstructionType::LABEL || self.tt == RiscvInstructionType::NOP
                || self.tt == RiscvInstructionType::LABELFUNCTION,
        ensures
            final(s)@ == old(s)@ + instruction_text(*self),
    {
        let ghost s0 = s@;
        if self.tt == RiscvInstructionType::LABEL {
            push_label_name(s, self.label_function, self.label);
            push_str(s, ":\n");
        } else if self.tt == RiscvInstructionType::NOP {
            self.push_opcode(s);
            push_str(s, "\n");
        } else {
            push_str(s, "\n");
            push_str(s, self.name.as_str());
            push_str(s, ":\n");
        }
        assert(s@ =~= s0 + instruction_text(*self));
    }

    /// The assembly line of the instruction, tab-separated and ending with a newline.
    pub fn to_string(&self) -> (r: String)
        ensures
            r@ == instruction_text(*self),
    {
        let mut s = String::new();
        match self.tt {
            RiscvInstructionType::ADDI | RiscvInstructionType::ANDI | RiscvInstructionType::ORI
            | RiscvInstructionType::XORI | RiscvInstructionType::SLLI | RiscvInstructionType::SLTI
            | RiscvInstructionType::SRLI => self.push_immediate_form(&mut s),
            RiscvInstructionType::LUI => {
                self.push_opcode(&mut s);
                push_str(&mut s, "\t");
                push_reg_name(&mut s, self.dest, self.register_allocated);
                push_str(&mut s, ", ");
                push_signed_decimal(&mut s, self.immediate);
                push_str(&mut s, "\n");
            },
            RiscvInstructionType::ADD | RiscvInstructionType::AND | RiscvInstructionType::OR
            | RiscvInstructionType::XOR | RiscvInstructionType::SLL | RiscvInstructionType::SUB
            | RiscvInstructionType::MUL | RiscvInstructionType::SLT | RiscvInstructionType::DIV
            | RiscvInstructionType::REM | RiscvInstructionType::SRL => self.push_register_form(&mut s),
            RiscvInstructionType::J | RiscvInstructionType::JAL => self.push_jump_form(&mut s),
            RiscvInstructionType::BEQ | RiscvInstructionType::BNE | RiscvInstructionType::BLT
            | RiscvInstructionType::BGE => self.push_branch_form(&mut s),
            RiscvInstructionType::LH | RiscvInstructionType::LW | RiscvInstructionType::LB => self.push_memory_form(
                &mut s,
                self.dest,
            ),
            RiscvInstructionType::SB | RiscvInstructionType::SH | RiscvInstructionType::SW => self.push_memory_form(
                &mut s,
                self.src2,
            ),
            RiscvInstructionType::LABEL | RiscvInstructionType::NOP
            | RiscvInstructionType::LABELFUNCTION => self.push_label_form(&mut s),
        }
        assert(s@ =~= instruction_text(*self));
        s
    }
}

} // verus!
