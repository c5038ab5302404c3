//! Translation of the linear IR into RV32IM instructions: instruction selection, the layout of
//! the activation records, and register allocation.

use std::collections::HashMap;
use vstd::prelude::*;
use crate::ast::type_wrapper::{is_sized, is_signed_type, type_size, TypeWrapper};
use crate::backend::riscv_isa::{
    bare, instr_list_model, InstrModel, RiscvInstruction, RiscvInstructionType, A0, FP, GP, RA, SP, TP,
    X0,
};
use crate::lexer::token::Operator;
use crate::lirgen::irnode::{ir_list_model, lemma_ir_list_model, CompareType, IrModel, IrNode};
use crate::text::strs_match;

verus! {

broadcast use vstd::std_specs::hash::group_hash_axioms;

/// The initial value of the stack pointer, set by the `init` function.
pub const SP_INIT_VALUE: i32 = 0x00010000;

/// A variable kept in the activation record of a function: its size, the register that holds its
/// address in the IR, its offset from the frame pointer and its name.
#[derive(Clone, Debug, PartialEq, Eq, PartialOrd, Ord)]
pub struct StackOffset {
    pub size: u32,
    pub reg: u32,
    pub offset: i32,
    pub name: String,
}

/// A variable of the activation record as a mathematical value.
pub struct StackModel {
    pub size: u32,
    pub reg: u32,
    pub offset: int,
    pub name: Seq<char>,
}

impl View for StackOffset {
    type V = StackModel;

    open spec fn view(&self) -> StackModel {
        StackModel { size: self.size, reg: self.reg, offset: self.offset as int, name: self.name@ }
    }
}

/// The models of a sequence of stack variables, in order.
pub open spec fn stack_list_model(s: Seq<StackOffset>) -> Seq<StackModel> {
    s.map_values(|e: StackOffset| e@)
}

/// The state of the code generator between two nodes: the next fresh register, the registers
/// known to hold small constants, and the variables of the `init` function, which are the
/// globals.
pub struct CgState {
    pub next_reg: int,
    pub constants: Map<u32, u32>,
    pub globals: Seq<StackModel>,
}

/// The code generator.
#[derive(Clone, Debug, PartialEq, Eq)]
pub struct Codegen {
    current_new_register: i32,
    constants_map: HashMap<u32, u32>,
    global_stack_position: Vec<StackOffset>,
}

impl View for Codegen {
    type V = CgState;

    closed spec fn view(&self) -> CgState {
        CgState {
            next_reg: self.current_new_register as int,
            constants: self.constants_map@,
            globals: stack_list_model(self.global_stack_position@),
        }
    }
}

/// The first register the code generator creates: far above the registers of the IR.
pub open spec fn first_new_register() -> int {
    0x8000
}

/// An instruction of type `tt` with the given registers and immediate, every other field zero.
pub open spec fn mk(tt: RiscvInstructionType, dest: i32, src1: i32, src2: i32, immediate: int) -> InstrModel {
    InstrModel { tt, dest, src1, src2, immediate: immediate as i32, ..bare(tt) }
}

/// Builds an instruction of type `tt` with the given registers and immediate.
fn ins(tt: RiscvInstructionType, dest: i32, src1: i32, src2: i32, immediate: i32) -> (r: RiscvInstruction)
    ensures
        r@ == mk(tt, dest, src1, src2, immediate as int),
{
    RiscvInstruction {
        tt,
        dest,
        src1,
        src2,
        immediate,
        label: 0,
        label_function: 0,
        is_unsigned: false,
        name: String::new(),
        register_allocated: false,
    }
}

/// Builds an instruction from all its fields but the name.
fn build(
    tt: RiscvInstructionType,
    dest: i32,
    src1: i32,
    src2: i32,
    immediate: i32,
    label: u32,
    label_function: u32,
    is_unsigned: bool,
) -> (r: RiscvInstruction)
    ensures
        r@ == (InstrModel {
            tt,
            dest,
            src1,
            src2,
            immediate,
            label,
            label_function,
            is_unsigned,
            name: Seq::empty(),
            register_allocated: false,
        }),
{
    RiscvInstruction {
        tt,
        dest,
        src1,
        src2,
        immediate,
        label,
        label_function,
        is_unsigned,
        name: String::new(),
        register_allocated: false,
    }
}

/// An instruction of the frame, on physical registers: a store of `reg` to, or a load of `reg`
/// from, `offset` past `base`; or an `addi` of `offset` to `base` when `tt` is `ADDI`.
fn frame_instruction(tt: RiscvInstructionType, base: i32, reg: i32, offset: i32) -> (r: RiscvInstruction)
    requires
        tt == RiscvInstructionType::SW || tt == RiscvInstructionType::LW || tt == RiscvInstructionType::ADDI,
    ensures
        tt == RiscvInstructionType::SW ==> r@ == frame_store(base, reg as int, offset as int),
        tt == RiscvInstructionType::LW ==> r@ == frame_load(base, reg as int, offset as int),
        tt == RiscvInstructionType::ADDI ==> r@ == allocated(mk(tt, base, reg, 0, offset as int)),
{
    let (dest, src1, src2) = if tt == RiscvInstructionType::SW {
        (0, base, reg)
    } else if tt == RiscvInstructionType::LW {
        (reg, base, 0)
    } else {
        (base, reg, 0)
    };
    RiscvInstruction {
        tt,
        dest,
        src1,
        src2,
        immediate: offset,
        label: 0,
        label_function: 0,
        is_unsigned: false,
        name: String::new(),
        register_allocated: true,
    }
}

/// The store instruction for a value of a sized type.
fn store_instruction(tt: &TypeWrapper) -> (r: RiscvInstructionType)
    requires
        is_sized(*tt),
    ensures
        r == store_type(*tt),
{
    let size = tt.get_size();
    if size == 4 {
        RiscvInstructionType::SW
    } else if size == 2 {
        RiscvInstructionType::SH
    } else {
        RiscvInstructionType::SB
    }
}

/// The load instruction for a value of a sized type.
fn load_instruction(tt: &TypeWrapper) -> (r: RiscvInstructionType)
    requires
        is_sized(*tt),
    ensures
        r == load_type(*tt),
{
    let size = tt.get_size();
    if size == 4 {
        RiscvInstructionType::LW
    } else if size == 2 {
        RiscvInstructionType::LH
    } else {
        RiscvInstructionType::LB
    }
}

/// The offset of the first record slot whose address register is `reg`, if any.
fn slot_offset(stack: &Vec<StackOffset>, reg: u32) -> (r: Option<i32>)
    ensures
        r is Some <==> find_slot(stack_list_model(stack@), reg, 0) is Some,
        r is Some ==> r->0 == find_slot(stack_list_model(stack@), reg, 0)->0.offset,
{
    let ghost m = stack_list_model(stack@);
    let mut k: usize = 0;
    while k < stack.len()
        invariant
            k <= stack.len(),
            m == stack_list_model(stack@),
            find_slot(m, reg, 0) == find_slot(m, reg, k as int),
        decreases stack.len() - k,
    {
        if stack[k].reg == reg {
            return Some(stack[k].offset);
        }
        k = k + 1;
    }
    None
}

/// The offset of the last global named `name`, 0 when there is none.
fn global_offset_of(globals: &Vec<StackOffset>, name: &String) -> (r: i32)
    ensures
        r == global_offset(stack_list_model(globals@), name@),
{
    let ghost m = stack_list_model(globals@);
    let mut offset: i32 = 0;
    let mut k: usize = 0;
    while k < globals.len()
        invariant
            k <= globals.len(),
            m == stack_list_model(globals@),
            offset == global_offset(m.take(k as int), name@),
        decreases globals.len() - k,
    {
        proof {
            assert(m.take(k + 1).drop_last() =~= m.take(k as int));
        }
        if strs_match(globals[k].name.as_str(), name.as_str()) {
            offset = globals[k].offset;
        }
        k = k + 1;
    }
    assert(m.take(k as int) =~= m);
    offset
}

/// Whether some instruction reads register `reg`.
fn is_read(code: &Vec<RiscvInstruction>, reg: i32) -> (r: bool)
    ensures
        r == exists|j: int| 0 <= j < code@.len() && (code@[j].src1 == reg || code@[j].src2 == reg),
{
    let mut k: usize = 0;
    while k < code.len()
        invariant
            k <= code.len(),
            forall|j: int| 0 <= j < k ==> !(code@[j].src1 == reg || code@[j].src2 == reg),
        decreases code.len() - k,
    {
        if code[k].src1 == reg || code[k].src2 == reg {
            return true;
        }
        k = k + 1;
    }
    false
}

/// Whether label `l` is among `labels`.
fn label_seen(labels: &Vec<u32>, l: u32) -> (r: bool)
    ensures
        r == labels@.contains(l),
{
    let mut k: usize = 0;
    while k < labels.len()
        invariant
            k <= labels.len(),
            forall|j: int| 0 <= j < k ==> labels@[j] != l,
        decreases labels.len() - k,
    {
        if labels[k] == l {
            return true;
        }
        k = k + 1;
    }
    false
}

/// The preamble of a function of `nargs` arguments and an activation record of `ssa` bytes:
/// its label, the room for the record, the saving of `ra` and `s0`, the new frame pointer, and
/// the arguments moved to registers 1 to `nargs`, the first eight from `a0`..`a7`, the others
/// loaded from the caller's frame. The `init` function also sets up `tp` and `sp` first and `gp`
/// last.
pub open spec fn pre_function(name: Seq<char>, ssa: u32, nargs: nat) -> Seq<InstrModel> {
    let label = InstrModel { name, ..bare(RiscvInstructionType::LABELFUNCTION) };
    let body = seq![
        mk(RiscvInstructionType::ADDI, SP, SP, 0, -(ssa as int)),
        mk(RiscvInstructionType::SW, 0, SP, RA, 0),
        mk(RiscvInstructionType::SW, 0, SP, FP, 4),
        mk(RiscvInstructionType::ADDI, FP, SP, 0, ssa as int),
    ] + Seq::new(nargs, |i: int| argument_load(i));
    if name == "init"@ {
        seq![
            label,
            mk(RiscvInstructionType::LUI, TP, 0, 0, SP_INIT_VALUE / 8192),
            mk(RiscvInstructionType::LUI, SP, 0, 0, SP_INIT_VALUE / 4096),
        ] + body + seq![mk(RiscvInstructionType::ADDI, GP, FP, 0, 0)]
    } else {
        seq![label] + body
    }
}

/// The instruction that moves argument `i` of a function into register `i + 1`.
pub open spec fn argument_load(i: int) -> InstrModel {
    if i < 8 {
        mk(RiscvInstructionType::ADD, (i + 1) as i32, (A0 - i) as i32, X0, 0)
    } else {
        mk(RiscvInstructionType::LW, (i + 1) as i32, FP, 0, (i - 8) * 4)
    }
}

/// The epilogue of a function with an activation record of `ssa` bytes: `ra` and `s0` restored,
/// the record released, and the jump back.
pub open spec fn post_function(ssa: u32) -> Seq<InstrModel> {
    seq![
        mk(RiscvInstructionType::LW, RA, SP, 0, 0),
        mk(RiscvInstructionType::LW, FP, SP, 0, 4),
        mk(RiscvInstructionType::ADDI, SP, SP, 0, ssa as int),
        mk(RiscvInstructionType::JAL, X0, RA, 0, 0),
    ]
}

/// The non-array variables of size `s` that a function keeps in its activation record, in the
/// order of their allocations: the register holding the address of each, and its name.
pub open spec fn frame_vars(nodes: Seq<IrModel>, s: u32) -> Seq<(u32, Seq<char>)>
    decreases nodes.len(),
{
    if nodes.len() == 0 {
        Seq::empty()
    } else {
        let prev = frame_vars(nodes.drop_last(), s);
        match nodes.last() {
            IrModel::Alloc(tt, r, _, _, _, from_reg, name) => if type_size(tt) == s && !from_reg {
                prev.push((r, name))
            } else {
                prev
            },
            _ => prev,
        }
    }
}

/// The slots of variables of size `s`, one after the other below the first `start` bytes under
/// the frame pointer: slot `j` holds the bytes from `start + j * s` to `start + (j + 1) * s`
/// below it.
pub open spec fn frame_slots(vars: Seq<(u32, Seq<char>)>, s: u32, start: int) -> Seq<StackModel> {
    Seq::new(
        vars.len(),
        |j: int| StackModel { size: s, reg: vars[j].0, offset: -(start + j * s + s), name: vars[j].1 },
    )
}

/// Whether every allocation among `nodes` has a type with a size.
pub open spec fn allocs_sized(nodes: Seq<IrModel>) -> bool {
    forall|i: int| 0 <= i < nodes.len() && #[trigger] nodes[i] is Alloc ==> is_sized(nodes[i]->Alloc_0)
}

/// The bytes of the activation record before alignment: 80 for `ra`, `s0` and the eighteen saved
/// registers, then every non-array variable.
pub open spec fn record_bytes(nodes: Seq<IrModel>) -> int {
    80 + 4 * frame_vars(nodes, 4).len() + 2 * frame_vars(nodes, 2).len() + frame_vars(nodes, 1).len() as int
}

/// `n` rounded up to a multiple of 16.
pub open spec fn align16(n: int) -> int {
    (n + 15) / 16 * 16
}

/// The layout of a function's activation record: below the 72 bytes where the eighteen saved
/// registers go, the variables of size 4, then those of size 2, then those of size 1, each in
/// bytes of its own; `ra` and `s0` lie below them all.
pub open spec fn stack_layout(nodes: Seq<IrModel>) -> Seq<StackModel> {
    let v4 = frame_vars(nodes, 4);
    let v2 = frame_vars(nodes, 2);
    let v1 = frame_vars(nodes, 1);
    frame_slots(v4, 4, 72) + frame_slots(v2, 2, 72 + 4 * v4.len() as int) + frame_slots(
        v1,
        1,
        72 + 4 * v4.len() + 2 * v2.len() as int,
    )
}

/// The bytes below the frame pointer that the slots before slot `k` of a layout take, with
/// `n4` and `n2` slots of sizes 4 and 2 first.
pub open spec fn bytes_before(k: int, n4: int, n2: int) -> int {
    if k <= n4 {
        4 * k
    } else if k <= n4 + n2 {
        4 * n4 + 2 * (k - n4)
    } else {
        4 * n4 + 2 * n2 + (k - n4 - n2)
    }
}

proof fn lemma_slot_place(nodes: Seq<IrModel>, k: int)
    requires
        0 <= k < stack_layout(nodes).len(),
    ensures
        stack_layout(nodes)[k].offset + stack_layout(nodes)[k].size == -(72 + bytes_before(
            k,
            frame_vars(nodes, 4).len() as int,
            frame_vars(nodes, 2).len() as int,
        )),
        stack_layout(nodes)[k].offset == -(72 + bytes_before(
            k + 1,
            frame_vars(nodes, 4).len() as int,
            frame_vars(nodes, 2).len() as int,
        )),
{
    let v4 = frame_vars(nodes, 4);
    let v2 = frame_vars(nodes, 2);
    let v1 = frame_vars(nodes, 1);
    let a = frame_slots(v4, 4, 72);
    let b = frame_slots(v2, 2, 72 + 4 * v4.len() as int);
    let c = frame_slots(v1, 1, 72 + 4 * v4.len() + 2 * v2.len() as int);
    let n4 = v4.len() as int;
    let n2 = v2.len() as int;
    if k < n4 {
        assert(stack_layout(nodes)[k] == a[k]);
        assert(4 * (k + 1) == 4 * k + 4);
    } else if k < n4 + n2 {
        assert(stack_layout(nodes)[k] == b[k - n4]);
        assert((k - n4) * 2 == 2 * (k - n4));
    } else {
        assert(stack_layout(nodes)[k] == c[k - n4 - n2]);
        assert((k - n4 - n2) * 1 == k - n4 - n2);
    }
}

/// The activation record keeps its parts apart: every variable's slot lies below the 72 bytes
/// of the saved registers and above the 8 bytes of `ra` and `s0` at the bottom of the record,
/// and the slots of two variables share no byte.
pub proof fn lemma_layout_disjoint(nodes: Seq<IrModel>)
    ensures
        forall|k: int|
            0 <= k < stack_layout(nodes).len() ==> 8 - align16(record_bytes(nodes)) <= #[trigger] stack_layout(
                nodes,
            )[k].offset && stack_layout(nodes)[k].offset + stack_layout(nodes)[k].size <= -72,
        forall|i: int, j: int|
            0 <= i < j < stack_layout(nodes).len() ==> #[trigger] stack_layout(nodes)[j].offset
                + stack_layout(nodes)[j].size <= #[trigger] stack_layout(nodes)[i].offset,
{
    let n4 = frame_vars(nodes, 4).len() as int;
    let n2 = frame_vars(nodes, 2).len() as int;
    let n1 = frame_vars(nodes, 1).len() as int;
    let len = stack_layout(nodes).len() as int;
    assert(len == n4 + n2 + n1);
    lemma_align16(record_bytes(nodes));
    assert forall|k: int| 0 <= k < len implies 8 - align16(record_bytes(nodes)) <= #[trigger] stack_layout(
        nodes,
    )[k].offset && stack_layout(nodes)[k].offset + stack_layout(nodes)[k].size <= -72 by {
        lemma_slot_place(nodes, k);
    }
    assert forall|i: int, j: int| 0 <= i < j < len implies #[trigger] stack_layout(nodes)[j].offset
        + stack_layout(nodes)[j].size <= #[trigger] stack_layout(nodes)[i].offset by {
        lemma_slot_place(nodes, i);
        lemma_slot_place(nodes, j);
        assert(bytes_before(i + 1, n4, n2) <= bytes_before(j, n4, n2));
    }
}

/// A prefix of a function has no more record variables than the function.
pub proof fn lemma_frame_vars_prefix(nodes: Seq<IrModel>, s: u32, k: int)
    requires
        0 <= k <= nodes.len(),
    ensures
        frame_vars(nodes.take(k), s).len() <= frame_vars(nodes, s).len(),
    decreases nodes.len(),
{
    if k < nodes.len() {
        lemma_frame_vars_prefix(nodes.drop_last(), s, k);
        assert(nodes.drop_last().take(k) =~= nodes.take(k));
    } else {
        assert(nodes.take(k) =~= nodes);
    }
}

/// Appends the record slots of the variables of size `s` to `slots`, from `start` bytes below
/// the frame pointer down; returns the offset after the last one.
fn push_frame_slots(ir: &Vec<IrNode>, s: u32, start: i32, slots: &mut Vec<StackOffset>) -> (end: i32)
    requires
        s == 1 || s == 2 || s == 4,
        0 <= start,
        allocs_sized(ir_list_model(ir@)),
        start + s * frame_vars(ir_list_model(ir@), s).len() <= i32::MAX,
    ensures
        stack_list_model(final(slots)@) == stack_list_model(old(slots)@) + frame_slots(
            frame_vars(ir_list_model(ir@), s),
            s,
            start as int,
        ),
        end == start + s * frame_vars(ir_list_model(ir@), s).len(),
{
    let ghost nodes = ir_list_model(ir@);
    let ghost base = stack_list_model(slots@);
    proof {
        lemma_ir_list_model(ir@);
    }
    let mut current = start;
    let mut k: usize = 0;
    while k < ir.len()
        invariant
            s == 1 || s == 2 || s == 4,
            0 <= start,
            k <= ir.len(),
            nodes == ir_list_model(ir@),
            nodes.len() == ir.len(),
            forall|i: int| 0 <= i < ir.len() ==> #[trigger] nodes[i] == ir@[i]@,
            allocs_sized(nodes),
            start + s * frame_vars(nodes, s).len() <= i32::MAX,
            current == start + s * frame_vars(nodes.take(k as int), s).len(),
            stack_list_model(slots@) == base + frame_slots(frame_vars(nodes.take(k as int), s), s, start as int),
        decreases ir.len() - k,
    {
        proof {
            assert(nodes.take(k + 1).drop_last() =~= nodes.take(k as int));
            assert(nodes.take(k + 1).last() == nodes[k as int]);
            lemma_frame_vars_prefix(nodes, s, k + 1);
        }
        let ghost vars = frame_vars(nodes.take(k as int), s);
        match &ir[k] {
            IrNode::Alloc(tt, register, _, _, _, from_register, name) => {
                assert(nodes[k as int] is Alloc);
                if tt.get_size() == s && !*from_register {
                    let ghost before = stack_list_model(slots@);
                    proof {
                        let j = vars.len() as int;
                        let n = frame_vars(nodes, s).len() as int;
                        assert(frame_vars(nodes.take(k + 1), s).len() == j + 1);
                        assert(j + 1 <= n);
                        assert((j + 1) * s <= n * s) by (nonlinear_arith)
                            requires
                                j + 1 <= n,
                                0 <= s,
                        ;
                        assert((j + 1) * s == j * s + s) by (nonlinear_arith);
                    }
                    let next = current + s as i32;
                    slots.push(StackOffset { size: s, reg: *register, offset: -next, name: name.clone() });
                    proof {
                        let j = vars.len() as int;
                        assert((j + 1) * s == j * s + s) by (nonlinear_arith);
                        assert(stack_list_model(slots@) =~= before.push(slots@.last()@));
                        assert(frame_slots(vars.push((*register, name@)), s, start as int) =~= frame_slots(
                            vars,
                            s,
                            start as int,
                        ).push(slots@.last()@));
                    }
                    current = next;
                }
            },
            _ => {},
        }
        k = k + 1;
    }
    assert(nodes.take(k as int) =~= nodes);
    current
}

/// The store instruction for a value of type `tt`: `sw`, `sh` or `sb` by its size.
pub open spec fn store_type(tt: TypeWrapper) -> RiscvInstructionType {
    if type_size(tt) == 4 {
        RiscvInstructionType::SW
    } else if type_size(tt) == 2 {
        RiscvInstructionType::SH
    } else {
        RiscvInstructionType::SB
    }
}

/// The load instruction for a value of type `tt`: `lw`, `lh` or `lb` by its size.
pub open spec fn load_type(tt: TypeWrapper) -> RiscvInstructionType {
    if type_size(tt) == 4 {
        RiscvInstructionType::LW
    } else if type_size(tt) == 2 {
        RiscvInstructionType::LH
    } else {
        RiscvInstructionType::LB
    }
}

/// The first record slot, from position `i` on, whose address register is `reg`.
pub open spec fn find_slot(stack: Seq<StackModel>, reg: u32, i: int) -> Option<StackModel>
    decreases stack.len() - i,
{
    if i < 0 || i >= stack.len() {
        None
    } else if stack[i].reg == reg {
        Some(stack[i])
    } else {
        find_slot(stack, reg, i + 1)
    }
}

/// The offset of the last global variable named `name`, 0 when there is none.
pub open spec fn global_offset(globals: Seq<StackModel>, name: Seq<char>) -> int
    decreases globals.len(),
{
    if globals.len() == 0 {
        0
    } else if globals.last().name == name {
        globals.last().offset
    } else {
        global_offset(globals.drop_last(), name)
    }
}

/// The code of an allocation. An array (`from_reg`) takes a fresh register `nr`: its length,
/// held in register `size`, times the element size, rounded up to 16 bytes, is taken off `sp`,
/// and `dest` points at the space; the epilogue gives the space back. An initial value is then
/// stored into the variable's record slot, whose address `dest` takes, or through `dest` when
/// the variable has no slot.
pub open spec fn alloc_code(
    tt: TypeWrapper,
    dest: u32,
    src: u32,
    size: u32,
    from_reg: bool,
    nr: i32,
    stack: Seq<StackModel>,
) -> Seq<InstrModel> {
    let arr = if from_reg {
        seq![
            mk(RiscvInstructionType::SLLI, nr, size as i32, 0, type_size(tt) as int / 2),
            mk(RiscvInstructionType::ADDI, nr, nr, 0, 15),
            mk(RiscvInstructionType::ANDI, nr, nr, 0, -16),
            mk(RiscvInstructionType::SUB, SP, SP, nr, 0),
            mk(RiscvInstructionType::ADDI, dest as i32, SP, 0, 0),
        ]
    } else {
        Seq::empty()
    };
    let init = if src == 0 {
        Seq::empty()
    } else {
        match find_slot(stack, dest, 0) {
            Some(slot) => seq![
                mk(store_type(tt), 0, FP, src as i32, slot.offset),
                mk(RiscvInstructionType::ADDI, dest as i32, FP, 0, slot.offset),
            ],
            None => seq![mk(store_type(tt), 0, dest as i32, src as i32, 0)],
        }
    };
    arr + init
}

/// The code of a constant: a `lui` of its upper bits when it is above 4096, then an `addi` of
/// its value modulo 4096.
pub open spec fn movc_code(dest: u32, value: u32) -> Seq<InstrModel> {
    (if value > 4096 {
        seq![mk(RiscvInstructionType::LUI, dest as i32, 0, 0, value as int / 4096)]
    } else {
        Seq::empty()
    }).push(mk(RiscvInstructionType::ADDI, dest as i32, X0, 0, value as int % 4096))
}

/// The code of a cast to `ttd`: the bits above its size cleared, then, for a signed type
/// narrower than 32 bits, a shift left and an arithmetic shift right that extend the sign.
pub open spec fn cast_code(ttd: TypeWrapper, dest: u32, src: u32) -> Seq<InstrModel> {
    let size = type_size(ttd);
    let mask: int = if size == 1 {
        0xff
    } else if size == 2 {
        0xffff
    } else {
        -1
    };
    let shift = 32 - size * 8;
    seq![mk(RiscvInstructionType::ANDI, dest as i32, src as i32, 0, mask)] + if is_signed_type(ttd) && size
        != 4 {
        seq![
            mk(RiscvInstructionType::SLLI, dest as i32, src as i32, 0, shift),
            mk(RiscvInstructionType::SRLI, dest as i32, dest as i32, 0, shift),
        ]
    } else {
        Seq::empty()
    }
}

/// The instruction that passes argument `i` of a call: into `a0`..`a7` for the first eight, onto
/// the stack for the others.
pub open spec fn call_argument(args: Seq<u32>, i: int) -> InstrModel {
    if i < 8 {
        mk(RiscvInstructionType::ADDI, (A0 - i) as i32, args[i] as i32, 0, 0)
    } else {
        mk(RiscvInstructionType::SW, 0, SP, args[i] as i32, (i - 8) * 4)
    }
}

/// The code of a call: room on the stack for the arguments past the eighth, the arguments
/// passed, the jump, the returned value moved from `a0` into `ret`, and the room given back.
pub open spec fn call_code(name: Seq<char>, args: Seq<u32>, ret: u32) -> Seq<InstrModel> {
    let extra = args.len() - 8;
    let space = align16(extra * 4);
    (if extra > 0 {
        seq![mk(RiscvInstructionType::ADDI, SP, SP, 0, -space)]
    } else {
        Seq::empty()
    }) + Seq::new(args.len(), |i: int| call_argument(args, i)) + seq![
        InstrModel { dest: RA, name, ..bare(RiscvInstructionType::JAL) },
    ] + (if ret != 0 {
        seq![mk(RiscvInstructionType::ADDI, ret as i32, A0, 0, 0)]
    } else {
        Seq::empty()
    }) + (if extra > 0 {
        seq![mk(RiscvInstructionType::ADDI, SP, SP, 0, space)]
    } else {
        Seq::empty()
    })
}

/// The branch to label `label` of function `f`: a jump when always taken; `>` and `<=` as `blt`
/// and `bge` on swapped sources; set and not set as `bne` and `beq` against `x0`. Comparisons are
/// unsigned unless the type is signed.
pub open spec fn branch_code(ct: CompareType, tt: TypeWrapper, a: u32, b: u32, label: u32, f: u32) -> InstrModel {
    let base = InstrModel {
        src1: a as i32,
        src2: b as i32,
        label,
        label_function: f,
        ..bare(RiscvInstructionType::NOP)
    };
    let u = !is_signed_type(tt);
    match ct {
        CompareType::Always => InstrModel { tt: RiscvInstructionType::J, ..base },
        CompareType::GT => InstrModel {
            tt: RiscvInstructionType::BLT,
            src1: b as i32,
            src2: a as i32,
            is_unsigned: u,
            ..base
        },
        CompareType::GE => InstrModel { tt: RiscvInstructionType::BGE, is_unsigned: u, ..base },
        CompareType::LT => InstrModel { tt: RiscvInstructionType::BLT, is_unsigned: u, ..base },
        CompareType::LE => InstrModel {
            tt: RiscvInstructionType::BGE,
            src1: b as i32,
            src2: a as i32,
            is_unsigned: u,
            ..base
        },
        CompareType::EQ => InstrModel { tt: RiscvInstructionType::BEQ, is_unsigned: u, ..base },
        CompareType::NE => InstrModel { tt: RiscvInstructionType::BNE, is_unsigned: u, ..base },
        CompareType::S => InstrModel { tt: RiscvInstructionType::BNE, src2: X0, is_unsigned: u, ..base },
        CompareType::NS => InstrModel { tt: RiscvInstructionType::BEQ, src2: X0, is_unsigned: u, ..base },
    }
}

/// The code of a unary operation: negation as `0 - src`, complement as a `xori` with all ones,
/// logical not as an unsigned "set if below 1"; no code for any other operator.
pub open spec fn unary_code(op: Operator, dest: u32, src: u32) -> Option<InstrModel> {
    match op {
        Operator::Minus => Some(mk(RiscvInstructionType::SUB, dest as i32, X0, src as i32, 0)),
        Operator::Complement => Some(mk(RiscvInstructionType::XORI, dest as i32, src as i32, 0, -1)),
        Operator::Not => Some(
            InstrModel { is_unsigned: true, ..mk(RiscvInstructionType::SLTI, dest as i32, src as i32, 0, 1) },
        ),
        _ => None,
    }
}

/// An operation whose immediate form is used when one operand holds a known constant: the right
/// one first, else the left one, the other operand then taking the first place.
pub open spec fn immediate_form(
    constants: Map<u32, u32>,
    base: InstrModel,
    a: u32,
    b: u32,
    with_imm: RiscvInstructionType,
    with_regs: RiscvInstructionType,
) -> InstrModel {
    if constants.contains_key(b) {
        InstrModel { tt: with_imm, src2: 0, immediate: constants[b] as i32, ..base }
    } else if constants.contains_key(a) {
        InstrModel { tt: with_imm, src1: b as i32, src2: 0, immediate: constants[a] as i32, ..base }
    } else {
        InstrModel { tt: with_regs, ..base }
    }
}

/// A shift whose immediate form is used when the shift amount is a known constant.
pub open spec fn shift_form(
    constants: Map<u32, u32>,
    base: InstrModel,
    b: u32,
    with_imm: RiscvInstructionType,
    with_regs: RiscvInstructionType,
) -> InstrModel {
    if constants.contains_key(b) {
        InstrModel { tt: with_imm, src2: 0, immediate: constants[b] as i32, ..base }
    } else {
        InstrModel { tt: with_regs, ..base }
    }
}

/// "Set if the register is zero", unsigned: the second step of the comparisons written as a
/// difference or as the negation of another comparison.
pub open spec fn set_if_zero(dest: u32) -> InstrModel {
    InstrModel { is_unsigned: true, ..mk(RiscvInstructionType::SLTI, dest as i32, dest as i32, 0, 1) }
}

/// The code of a binary operation; no code for an operator that is not binary.
pub open spec fn binary_code(
    constants: Map<u32, u32>,
    op: Operator,
    tt: TypeWrapper,
    dest: u32,
    a: u32,
    b: u32,
) -> Option<Seq<InstrModel>> {
    let base = InstrModel {
        dest: dest as i32,
        src1: a as i32,
        src2: b as i32,
        is_unsigned: !is_signed_type(tt),
        ..bare(RiscvInstructionType::NOP)
    };
    let d = dest as i32;
    match op {
        Operator::EqualCompare => Some(
            seq![mk(RiscvInstructionType::SUB, d, a as i32, b as i32, 0), set_if_zero(dest)],
        ),
        Operator::DiffCompare => Some(
            seq![
                mk(RiscvInstructionType::SUB, d, a as i32, b as i32, 0),
                InstrModel { is_unsigned: true, ..mk(RiscvInstructionType::SLT, d, X0, d, 0) },
            ],
        ),
        Operator::LECompare => Some(
            seq![mk(RiscvInstructionType::SLT, d, b as i32, a as i32, 0), set_if_zero(dest)],
        ),
        Operator::GECompare => Some(
            seq![mk(RiscvInstructionType::SLT, d, a as i32, b as i32, 0), set_if_zero(dest)],
        ),
        Operator::GTCompare => Some(
            seq![InstrModel { tt: RiscvInstructionType::SLT, src1: b as i32, src2: a as i32, ..base }],
        ),
        Operator::LTCompare => Some(seq![InstrModel { tt: RiscvInstructionType::SLT, ..base }]),
        Operator::Minus => Some(seq![InstrModel { tt: RiscvInstructionType::SUB, ..base }]),
        Operator::Plus => Some(
            seq![immediate_form(constants, base, a, b, RiscvInstructionType::ADDI, RiscvInstructionType::ADD)],
        ),
        Operator::Asterisk => Some(seq![InstrModel { tt: RiscvInstructionType::MUL, ..base }]),
        Operator::Slash => Some(seq![InstrModel { tt: RiscvInstructionType::DIV, ..base }]),
        Operator::XorOp => Some(
            seq![immediate_form(constants, base, a, b, RiscvInstructionType::XORI, RiscvInstructionType::XOR)],
        ),
        Operator::AndOp => Some(
            seq![immediate_form(constants, base, a, b, RiscvInstructionType::ANDI, RiscvInstructionType::AND)],
        ),
        Operator::OrOp => Some(
            seq![immediate_form(constants, base, a, b, RiscvInstructionType::ORI, RiscvInstructionType::OR)],
        ),
        Operator::Module => Some(seq![InstrModel { tt: RiscvInstructionType::REM, ..base }]),
        Operator::LShift => Some(
            seq![shift_form(constants, base, b, RiscvInstructionType::SLLI, RiscvInstructionType::SLL)],
        ),
        Operator::RShift => Some(
            seq![shift_form(constants, base, b, RiscvInstructionType::SRLI, RiscvInstructionType::SRL)],
        ),
        _ => None,
    }
}

/// The code of one node of a function's body `f`, given the layout of its record: the new state,
/// the instructions, and those the epilogue gets before its own. `None` where the generator
/// stops: a program or a function where a body node is expected, an operator of the wrong arity,
/// a type without a size where one is needed, fresh registers or call offsets out of `i32`.
pub open spec fn convert(st: CgState, node: IrModel, stack: Seq<StackModel>, f: u32) -> Option<
    (CgState, Seq<InstrModel>, Seq<InstrModel>),
> {
    let none = Seq::<InstrModel>::empty();
    match node {
        IrModel::Return(_, src) => Some(
            (
                st,
                (if src != 0 {
                    seq![mk(RiscvInstructionType::ADDI, A0, src as i32, 0, 0)]
                } else {
                    none
                }).push(InstrModel { label_function: f, ..bare(RiscvInstructionType::J) }),
                none,
            ),
        ),
        IrModel::Alloc(tt, dest, src, _, size, from_reg, _) => if (from_reg || src != 0) && !is_sized(tt) {
            None
        } else if from_reg {
            if st.next_reg >= i32::MAX {
                None
            } else {
                let nr = st.next_reg as i32;
                Some(
                    (
                        CgState { next_reg: st.next_reg + 1, ..st },
                        alloc_code(tt, dest, src, size, true, nr, stack),
                        seq![mk(RiscvInstructionType::ADD, SP, SP, nr, 0)],
                    ),
                )
            }
        } else {
            Some((st, alloc_code(tt, dest, src, size, false, 0, stack), none))
        },
        IrModel::MovC(_, dest, value) => Some(
            (
                if value > 4096 {
                    st
                } else {
                    CgState { constants: st.constants.insert(dest, value), ..st }
                },
                movc_code(dest, value),
                none,
            ),
        ),
        IrModel::Cast(ttd, _, dest, src) => if is_sized(ttd) {
            Some((st, cast_code(ttd, dest, src), none))
        } else {
            None
        },
        IrModel::Store(tt, dest, src) => if is_sized(tt) {
            Some(
                (
                    st,
                    match find_slot(stack, dest, 0) {
                        Some(slot) => seq![mk(store_type(tt), 0, FP, src as i32, slot.offset)],
                        None => seq![mk(store_type(tt), 0, dest as i32, src as i32, 0)],
                    },
                    none,
                ),
            )
        } else {
            None
        },
        IrModel::LoadA(_, dest, name) => Some(
            (st, seq![mk(RiscvInstructionType::ADDI, dest as i32, GP, 0, global_offset(st.globals, name))], none),
        ),
        IrModel::LoadR(tt, dest, src) => if is_sized(tt) {
            Some(
                (
                    st,
                    match find_slot(stack, src, 0) {
                        Some(slot) => seq![mk(load_type(tt), dest as i32, FP, 0, slot.offset)],
                        None => seq![mk(load_type(tt), dest as i32, src as i32, 0, 0)],
                    },
                    none,
                ),
            )
        } else {
            None
        },
        IrModel::Label(l) => Some(
            (st, seq![InstrModel { label: l, label_function: f, ..bare(RiscvInstructionType::LABEL) }], none),
        ),
        IrModel::Call(name, _, args, ret) => if 4 * (args.len() - 8) + 15 <= i32::MAX {
            Some((st, call_code(name, args, ret), none))
        } else {
            None
        },
        IrModel::Branch(ct, tt, a, b, l) => Some((st, seq![branch_code(ct, tt, a, b, l, f)], none)),
        IrModel::Unary(_, op, dest, src) => match unary_code(op, dest, src) {
            Some(i) => Some((st, seq![i], none)),
            None => None,
        },
        IrModel::Binary(op, tt, dest, a, b) => match binary_code(st.constants, op, tt, dest, a, b) {
            Some(code) => Some((st, code, none)),
            None => None,
        },
        _ => None,
    }
}

/// The code of a function with the loads of constants that no instruction reads taken out: an
/// `addi` from `x0` into a register above 0 that is no instruction's source.
pub open spec fn unused_constant_load(code: Seq<InstrModel>, ins: InstrModel) -> bool {
    &&& ins.tt == RiscvInstructionType::ADDI
    &&& ins.src1 == X0
    &&& ins.dest > 0
    &&& !(exists|j: int| 0 <= j < code.len() && (code[j].src1 == ins.dest || code[j].src2 == ins.dest))
}

/// `code` without its unused loads of constants, the rest in order.
pub open spec fn without_unused_loads(code: Seq<InstrModel>) -> Seq<InstrModel> {
    code.filter(kept_in(code))
}

/// The instructions of `code` that stay: all but its unused loads of constants.
pub open spec fn kept_in(code: Seq<InstrModel>) -> spec_fn(InstrModel) -> bool {
    |ins: InstrModel| !unused_constant_load(code, ins)
}

/// The outcome of a scan for the next use of a register: decided (used, or overwritten first),
/// or open, with the labels seen so far and those still to visit.
pub enum Scan {
    Decided(bool),
    Open(Seq<u32>, Seq<u32>),
}

/// The straight scan from instruction `i` to the end: a read of `target` decides "used", a
/// write decides "not used"; labels met are seen, and every label named on the way is to visit.
pub open spec fn usage_scan(code: Seq<InstrModel>, target: i32, i: int, found: Seq<u32>, todo: Seq<u32>) -> Scan
    decreases code.len() - i,
{
    if i < 0 || i >= code.len() {
        Scan::Open(found, todo)
    } else {
        let ins = code[i];
        let found1 = if ins.tt == RiscvInstructionType::LABEL {
            found.push(ins.label)
        } else {
            found
        };
        if ins.src1 == target || ins.src2 == target {
            Scan::Decided(true)
        } else if ins.dest == target {
            Scan::Decided(false)
        } else {
            usage_scan(
                code,
                target,
                i + 1,
                found1,
                if ins.label > 0 {
                    todo.push(ins.label)
                } else {
                    todo
                },
            )
        }
    }
}

/// The scan of the block that starts at label `l`: from instruction `i` on, instructions before
/// the label are skipped (`started` tells whether it was met), the block ends at a label already
/// seen; a write of `target` decides "not used", a read "used"; labels met are seen, labels
/// named are to visit.
pub open spec fn block_scan(
    code: Seq<InstrModel>,
    target: i32,
    l: u32,
    i: int,
    started: bool,
    found: Seq<u32>,
    todo: Seq<u32>,
) -> Scan
    decreases code.len() - i,
{
    if i < 0 || i >= code.len() {
        Scan::Open(found, todo)
    } else {
        let ins = code[i];
        let is_label = ins.tt == RiscvInstructionType::LABEL;
        if is_label && ins.label == l {
            block_scan(code, target, l, i + 1, true, found, todo)
        } else if !started {
            block_scan(code, target, l, i + 1, false, found, todo)
        } else if is_label && ins.label > 0 && found.contains(ins.label) {
            Scan::Open(found, todo)
        } else if ins.dest == target {
            Scan::Decided(false)
        } else if ins.src1 == target || ins.src2 == target {
            Scan::Decided(true)
        } else if ins.label > 0 && is_label {
            block_scan(code, target, l, i + 1, started, found.push(ins.label), todo)
        } else if ins.label > 0 {
            block_scan(code, target, l, i + 1, started, found, todo.push(ins.label))
        } else {
            block_scan(code, target, l, i + 1, started, found, todo)
        }
    }
}

/// The number of instructions whose label is not among `found`.
pub open spec fn unseen(code: Seq<InstrModel>, found: Seq<u32>) -> nat
    decreases code.len(),
{
    if code.len() == 0 {
        0
    } else {
        unseen(code.drop_last(), found) + if found.contains(code.last().label) {
            0nat
        } else {
            1nat
        }
    }
}

/// Seeing more labels leaves no more instructions unseen, and strictly fewer when a new label
/// is one that some instruction carries.
pub proof fn lemma_unseen_shrinks(code: Seq<InstrModel>, f1: Seq<u32>, f2: Seq<u32>, l: u32)
    requires
        forall|x: u32| f1.contains(x) ==> f2.contains(x),
    ensures
        unseen(code, f2) <= unseen(code, f1),
        (exists|j: int| 0 <= j < code.len() && code[j].label == l) && !f1.contains(l) && f2.contains(l)
            ==> unseen(code, f2) < unseen(code, f1),
    decreases code.len(),
{
    if code.len() > 0 {
        lemma_unseen_shrinks(code.drop_last(), f1, f2, l);
        if (exists|j: int| 0 <= j < code.len() && code[j].label == l) && !f1.contains(l) && f2.contains(l) {
            let j = choose|j: int| 0 <= j < code.len() && code[j].label == l;
            if j < code.len() - 1 {
                assert(code.drop_last()[j].label == l);
            }
        }
    }
}

/// What a block scan that ends open has done: it has seen at least the labels seen before, and
/// when it never met its label it has added nothing to visit.
pub proof fn lemma_block_scan_open(
    code: Seq<InstrModel>,
    target: i32,
    l: u32,
    i: int,
    started: bool,
    found: Seq<u32>,
    todo: Seq<u32>,
)
    ensures
        block_scan(code, target, l, i, started, found, todo) matches Scan::Open(f2, t2) ==> {
            &&& forall|x: u32| found.contains(x) ==> f2.contains(x)
            &&& !started && (forall|j: int| i <= j < code.len() ==> code[j].label != l) ==> t2 == todo
        },
    decreases code.len() - i,
{
    if 0 <= i < code.len() {
        let ins = code[i];
        let is_label = ins.tt == RiscvInstructionType::LABEL;
        if is_label && ins.label == l {
            lemma_block_scan_open(code, target, l, i + 1, true, found, todo);
        } else if !started {
            lemma_block_scan_open(code, target, l, i + 1, false, found, todo);
        } else if is_label && ins.label > 0 && found.contains(ins.label) {
        } else if ins.dest == target {
        } else if ins.src1 == target || ins.src2 == target {
        } else if ins.label > 0 && is_label {
            lemma_block_scan_open(code, target, l, i + 1, started, found.push(ins.label), todo);
            assert forall|x: u32| found.contains(x) implies found.push(ins.label).contains(x) by {
                let k = choose|k: int| 0 <= k < found.len() && found[k] == x;
                assert(found.push(ins.label)[k] == x);
            }
        } else if ins.label > 0 {
            lemma_block_scan_open(code, target, l, i + 1, started, found, todo.push(ins.label));
        } else {
            lemma_block_scan_open(code, target, l, i + 1, started, found, todo);
        }
    }
}

/// Visiting the label on top of `todo` that was not seen yet makes progress: fewer instructions
/// unseen, or as many and a shorter list to visit.
pub proof fn lemma_worklist_progress(code: Seq<InstrModel>, target: i32, found: Seq<u32>, todo: Seq<u32>)
    requires
        todo.len() > 0,
        !found.contains(todo.last()),
    ensures
        block_scan(code, target, todo.last(), 0, false, found.push(todo.last()), todo.drop_last()) matches Scan::Open(
            f2,
            t2,
        ) ==> unseen(code, f2) < unseen(code, found) || (unseen(code, f2) == unseen(code, found) && t2.len()
            < todo.len()),
{
    let l = todo.last();
    let f1 = found.push(l);
    lemma_block_scan_open(code, target, l, 0, false, f1, todo.drop_last());
    if let Scan::Open(f2, t2) = block_scan(code, target, l, 0, false, f1, todo.drop_last()) {
        assert forall|x: u32| found.contains(x) implies f2.contains(x) by {
            let k = choose|k: int| 0 <= k < found.len() && found[k] == x;
            assert(f1[k] == x);
        }
        assert(f1[found.len() as int] == l);
        assert(f2.contains(l));
        lemma_unseen_shrinks(code, found, f2, l);
    }
}

/// The visit of the labels still to visit, last first: a label already seen is dropped, another
/// one is seen and its block scanned; `false` when none is left.
pub open spec fn usage_worklist(code: Seq<InstrModel>, target: i32, found: Seq<u32>, todo: Seq<u32>) -> bool
    decreases unseen(code, found), todo.len(),
{
    if todo.len() == 0 {
        false
    } else {
        let l = todo.last();
        if found.contains(l) {
            usage_worklist(code, target, found, todo.drop_last())
        } else {
            match block_scan(code, target, l, 0, false, found.push(l), todo.drop_last()) {
                Scan::Decided(b) => b,
                Scan::Open(f2, t2) => {
                    proof {
                        lemma_worklist_progress(code, target, found, todo);
                    }
                    usage_worklist(code, target, f2, t2)
                },
            }
        }
    }
}

/// Whether register `target` may still be read from instruction `start` on: the straight scan,
/// then the blocks of the labels it named.
#[verifier::opaque]
pub open spec fn used_later(code: Seq<InstrModel>, start: int, target: i32) -> bool {
    match usage_scan(code, target, start, Seq::empty(), Seq::empty()) {
        Scan::Decided(b) => b,
        Scan::Open(found, todo) => usage_worklist(code, target, found, todo),
    }
}

/// An instruction marked as using physical registers.
pub open spec fn allocated(ins: InstrModel) -> InstrModel {
    InstrModel { register_allocated: true, ..ins }
}

/// The store of register `reg` at `offset` from `base`, on physical registers.
pub open spec fn frame_store(base: i32, reg: int, offset: int) -> InstrModel {
    allocated(mk(RiscvInstructionType::SW, 0, base, reg as i32, offset))
}

/// The load of register `reg` from `offset` past `base`, on physical registers.
pub open spec fn frame_load(base: i32, reg: int, offset: int) -> InstrModel {
    allocated(mk(RiscvInstructionType::LW, reg as i32, base, 0, offset))
}

/// The state of register allocation: the physical register given to each virtual register, the
/// sixteen allocatable registers (in use now; used at least once; the virtual register held),
/// the top of the stack of spilled virtual registers, and the slot of each spilled one.
pub struct RaState {
    pub assigned: Map<i32, i32>,
    pub regs: Seq<(bool, bool, i32)>,
    pub spill_top: i32,
    pub spilled: Map<i32, i32>,
}

/// The state before the first instruction: nothing assigned, no register in use, nothing
/// spilled.
pub open spec fn ra_initial() -> RaState {
    RaState {
        assigned: Map::empty(),
        regs: Seq::new(16, |j: int| (false, false, 0i32)),
        spill_top: 0,
        spilled: Map::empty(),
    }
}

/// At the label at position `i`: every register in use whose virtual register is not used later
/// is released.
pub open spec fn released(code: Seq<InstrModel>, i: int, regs: Seq<(bool, bool, i32)>) -> Seq<(bool, bool, i32)> {
    Seq::new(
        regs.len(),
        |j: int|
            if regs[j].0 && !used_later(code, i + 1, regs[j].2) {
                (false, regs[j].1, regs[j].2)
            } else {
                regs[j]
            },
    )
}

/// Physical register `p`, which held virtual register `v`, released when `v` is not used after
/// position `i`.
pub open spec fn free_if_dead(code: Seq<InstrModel>, i: int, regs: Seq<(bool, bool, i32)>, v: i32, p: int) -> Seq<
    (bool, bool, i32),
> {
    if !used_later(code, i + 1, v) {
        regs.update(p, (false, regs[p].1, regs[p].2))
    } else {
        regs
    }
}

/// Reading virtual register `v` at position `i`: a spilled one is loaded from its slot into the
/// scratch register; another one is read from its physical register, released when `v` is not
/// used later. `None` when `v` was never written.
pub open spec fn read_reg(st: RaState, code: Seq<InstrModel>, i: int, v: i32, scratch: i32) -> Option<
    (RaState, i32, Seq<InstrModel>),
> {
    if st.spilled.contains_key(v) {
        Some((st, scratch, seq![frame_load(TP, scratch as int, st.spilled[v] as int)]))
    } else if st.assigned.contains_key(v) {
        let p = st.assigned[v];
        Some((RaState { regs: free_if_dead(code, i, st.regs, v, p as int), ..st }, p, Seq::empty()))
    } else {
        None
    }
}

/// The first register, from `j` on, that is not in use.
pub open spec fn first_free(regs: Seq<(bool, bool, i32)>, j: int) -> Option<int>
    decreases regs.len() - j,
{
    if j < 0 || j >= regs.len() {
        None
    } else if !regs[j].0 {
        Some(j)
    } else {
        first_free(regs, j + 1)
    }
}

/// Writing virtual register `v` at position `i`: into its physical register when it has one
/// (released when `v` is not used later), else into the first free register, which it then
/// holds; when none is free, into scratch register 16, with the slot on the spill stack where
/// the value must be stored (its old slot, or a new one at the top).
pub open spec fn write_reg(st: RaState, code: Seq<InstrModel>, i: int, v: i32) -> (RaState, i32, Option<i32>) {
    if st.assigned.contains_key(v) {
        let p = st.assigned[v];
        (RaState { regs: free_if_dead(code, i, st.regs, v, p as int), ..st }, p, None)
    } else {
        match first_free(st.regs, 0) {
            Some(j) => (
                RaState {
                    assigned: st.assigned.insert(v, j as i32),
                    regs: st.regs.update(j, (true, true, v)),
                    ..st
                },
                j as i32,
                None,
            ),
            None => if st.spilled.contains_key(v) {
                (st, 16, Some(st.spilled[v]))
            } else {
                (
                    RaState {
                        spilled: st.spilled.insert(v, st.spill_top),
                        spill_top: (st.spill_top - 4) as i32,
                        ..st
                    },
                    16,
                    Some(st.spill_top),
                )
            },
        }
    }
}

/// The saves, before a call, of the caller-saved registers `t0`.. among the first `n` that are
/// in use, each in its slot of the activation record.
pub open spec fn caller_saves(regs: Seq<(bool, bool, i32)>, n: int) -> Seq<InstrModel>
    decreases n,
{
    if n <= 0 {
        Seq::empty()
    } else {
        caller_saves(regs, n - 1) + if regs[n - 1].0 {
            seq![frame_store(FP, n - 1, -4 - 4 * (n - 1))]
        } else {
            Seq::empty()
        }
    }
}

/// The restores, after a call, of the registers `caller_saves` saved.
pub open spec fn caller_restores(regs: Seq<(bool, bool, i32)>, n: int) -> Seq<InstrModel>
    decreases n,
{
    if n <= 0 {
        Seq::empty()
    } else {
        caller_restores(regs, n - 1) + if regs[n - 1].0 {
            seq![frame_load(FP, n - 1, -4 - 4 * (n - 1))]
        } else {
            Seq::empty()
        }
    }
}

/// The operands of the instruction at position `i` allocated: its sources read, its destination
/// written. Gives the new state, the instruction on physical registers, the slot where a spilled
/// destination must be stored, and the loads of spilled sources. `None` when it reads a register
/// never written.
pub open spec fn ra_operands(st: RaState, code: Seq<InstrModel>, i: int) -> Option<
    (RaState, InstrModel, Option<i32>, Seq<InstrModel>),
> {
    let ins = code[i];
    let st0 = if ins.tt == RiscvInstructionType::LABEL {
        RaState { regs: released(code, i, st.regs), ..st }
    } else {
        st
    };
    let r1 = if ins.src1 > 0 {
        read_reg(st0, code, i, ins.src1, 16)
    } else {
        Some((st0, ins.src1, Seq::empty()))
    };
    match r1 {
        None => None,
        Some((st1, s1, l1)) => {
            let r2 = if ins.src2 > 0 {
                read_reg(st1, code, i, ins.src2, 17)
            } else {
                Some((st1, ins.src2, Seq::empty()))
            };
            match r2 {
                None => None,
                Some((st2, s2, l2)) => {
                    let (st3, d, spill) = if ins.dest > 0 {
                        write_reg(st2, code, i, ins.dest)
                    } else {
                        (st2, ins.dest, None)
                    };
                    Some(
                        (
                            st3,
                            InstrModel { src1: s1, src2: s2, dest: d, register_allocated: true, ..ins },
                            spill,
                            l1 + l2,
                        ),
                    )
                },
            }
        },
    }
}

/// An allocated instruction as emitted: a call between the saves and the restores of the
/// caller-saved registers in use, any other alone.
pub open spec fn emitted(out: InstrModel, regs: Seq<(bool, bool, i32)>) -> Seq<InstrModel> {
    if out.tt == RiscvInstructionType::JAL && out.src1 == 0 {
        caller_saves(regs, 7) + seq![out] + caller_restores(regs, 7)
    } else {
        seq![out]
    }
}

/// One instruction allocated: the loads of spilled sources, the instruction as emitted, and the
/// store of a spilled destination. `None` when it reads a register never written.
pub open spec fn ra_step(st: RaState, code: Seq<InstrModel>, i: int) -> Option<(RaState, Seq<InstrModel>)> {
    match ra_operands(st, code, i) {
        None => None,
        Some((st3, out, spill, loads)) => Some(
            (
                st3,
                loads + emitted(out, st3.regs) + match spill {
                    Some(off) => seq![frame_store(TP, 16, off as int)],
                    None => Seq::empty(),
                },
            ),
        ),
    }
}

/// The allocation of the first `k` instructions.
pub open spec fn ra_run(code: Seq<InstrModel>, k: int) -> Option<(RaState, Seq<InstrModel>)>
    decreases k,
{
    if k <= 0 {
        Some((ra_initial(), Seq::empty()))
    } else {
        match ra_run(code, k - 1) {
            None => None,
            Some((st, out)) => match ra_step(st, code, k - 1) {
                None => None,
                Some((st2, more)) => Some((st2, out + more)),
            },
        }
    }
}

/// The callee-saved registers `s1`.. from `j` on that were used: each saved right after the
/// function's label and restored right before its last instruction.
pub open spec fn callee_saves(out: Seq<InstrModel>, regs: Seq<(bool, bool, i32)>, j: int) -> Seq<InstrModel>
    decreases 16 - j,
{
    if j >= 16 {
        out
    } else {
        let next = if regs[j].1 {
            let a = out.insert(1, frame_store(SP, j, -4 - 4 * j));
            a.insert(a.len() - 1, frame_load(SP, j, -4 - 4 * j))
        } else {
            out
        };
        callee_saves(next, regs, j + 1)
    }
}

/// When registers were spilled: `s10` and `s11`, the scratch registers, saved and restored the
/// same way, and `tp` moved past the spill stack on entry and back before the end.
pub open spec fn spill_frame(out: Seq<InstrModel>, top: i32) -> Seq<InstrModel> {
    if top == 0 {
        out
    } else {
        let a = out.insert(1, frame_store(SP, 16, -68));
        let b = a.insert(a.len() - 1, frame_load(SP, 16, -68));
        let c = b.insert(1, frame_store(SP, 17, -72));
        let d = c.insert(c.len() - 1, frame_load(SP, 17, -72));
        let e = d.insert(1, allocated(mk(RiscvInstructionType::ADDI, TP, TP, 0, top as int)));
        e.insert(e.len() - 1, allocated(mk(RiscvInstructionType::ADDI, TP, TP, 0, -top)))
    }
}

/// The code of a function on physical registers; `None` when some instruction reads a register
/// that no earlier instruction wrote.
pub open spec fn allocate_registers(code: Seq<InstrModel>) -> Option<Seq<InstrModel>> {
    match ra_run(code, code.len() as int) {
        None => None,
        Some((st, out)) => Some(spill_frame(callee_saves(out, st.regs, 7), st.spill_top)),
    }
}

/// When all the instructions can be allocated, so can every prefix of them.
pub proof fn lemma_ra_run_prefix(code: Seq<InstrModel>, k: int, m: int)
    requires
        0 <= k <= m,
        ra_run(code, m) is Some,
    ensures
        ra_run(code, k) is Some,
    decreases m - k,
{
    if k < m {
        lemma_ra_run_prefix(code, k + 1, m);
    }
}

/// The conversion of the first `k` nodes of a function's body: the state after them, their
/// code in order, and the epilogue, which starts with what the later nodes asked for.
pub open spec fn convert_body(
    st: CgState,
    nodes: Seq<IrModel>,
    stack: Seq<StackModel>,
    f: u32,
    k: int,
    post: Seq<InstrModel>,
) -> Option<(CgState, Seq<InstrModel>, Seq<InstrModel>)>
    decreases k,
{
    if k <= 0 {
        Some((st, Seq::empty(), post))
    } else {
        match convert_body(st, nodes, stack, f, k - 1, post) {
            None => None,
            Some((st1, code, post1)) => match convert(st1, nodes[k - 1], stack, f) {
                None => None,
                Some((st2, more, before_post)) => Some((st2, code + more, before_post + post1)),
            },
        }
    }
}

/// The label of the epilogue of function `f`.
pub open spec fn epilogue_label(f: u32) -> InstrModel {
    InstrModel { label_function: f, ..bare(RiscvInstructionType::LABEL) }
}

/// The code of function number `f`: its preamble, its body and, but for `init`, the labelled
/// epilogue; the unused loads of constants taken out, then registers allocated. The constants
/// known are forgotten at the start, and the record of `init` gives the globals. `None` where
/// the generator stops: not a function, a size or offset out of `i32`, or a node it cannot
/// convert or allocate.
pub open spec fn function_code(st: CgState, fun: IrModel, f: u32) -> Option<(CgState, Seq<InstrModel>)> {
    match fun {
        IrModel::FunctionDeclaration(name, _, args, nodes) => if !allocs_sized(nodes) || record_bytes(nodes) + 15
            > i32::MAX || 4 * (args.len() - 9) > i32::MAX {
            None
        } else {
            let ssa = align16(record_bytes(nodes)) as u32;
            let stack = stack_layout(nodes);
            let is_init = name == "init"@;
            let st0 = CgState {
                constants: Map::empty(),
                globals: if is_init {
                    stack
                } else {
                    st.globals
                },
                ..st
            };
            match convert_body(st0, nodes, stack, f, nodes.len() as int, post_function(ssa)) {
                None => None,
                Some((st1, body, post)) => {
                    let code = pre_function(name, ssa, args.len()) + body + if is_init {
                        Seq::empty()
                    } else {
                        seq![epilogue_label(f)] + post
                    };
                    let cleaned = without_unused_loads(code);
                    if cleaned.len() > 0x1fff_ffff {
                        None
                    } else {
                        match allocate_registers(cleaned) {
                            None => None,
                            Some(out) => Some((st1, out)),
                        }
                    }
                },
            }
        },
        _ => None,
    }
}

/// The code of the first `k` functions, one after the other.
pub open spec fn generate(st: CgState, functions: Seq<IrModel>, k: int) -> Option<(CgState, Seq<InstrModel>)>
    decreases k,
{
    if k <= 0 {
        Some((st, Seq::empty()))
    } else {
        match generate(st, functions, k - 1) {
            None => None,
            Some((st1, code)) => match function_code(st1, functions[k - 1], (k - 1) as u32) {
                None => None,
                Some((st2, more)) => Some((st2, code + more)),
            },
        }
    }
}

/// The code of a program: the code of each of its functions, in order; `None` for a node that is
/// not a program, or where the generator stops on a function.
pub open spec fn generate_program(st: CgState, ir: IrModel) -> Option<(CgState, Seq<InstrModel>)> {
    match ir {
        IrModel::Program(functions) => generate(st, functions, functions.len() as int),
        _ => None,
    }
}

/// A copy of the record slots.
fn copy_stack(stack: &Vec<StackOffset>) -> (r: Vec<StackOffset>)
    ensures
        stack_list_model(r@) == stack_list_model(stack@),
{
    let mut r: Vec<StackOffset> = Vec::new();
    let mut k: usize = 0;
    while k < stack.len()
        invariant
            k <= stack.len(),
            stack_list_model(r@) =~= stack_list_model(stack@).take(k as int),
        decreases stack.len() - k,
    {
        let ghost before = stack_list_model(r@);
        let e = &stack[k];
        r.push(StackOffset { size: e.size, reg: e.reg, offset: e.offset, name: e.name.clone() });
        assert(r@.last()@ == stack@[k as int]@);
        assert(stack_list_model(r@) =~= before.push(stack@[k as int]@));
        assert(stack_list_model(r@) =~= stack_list_model(stack@).take(k + 1));
        k = k + 1;
    }
    assert(stack_list_model(stack@).take(k as int) =~= stack_list_model(stack@));
    r
}

/// The stack pointer moves by multiples of 16: a size rounded up by `align16` is a multiple of
/// 16, at least the size and less than 16 bytes more.
pub proof fn lemma_align16(n: int)
    requires
        n >= 0,
    ensures
        align16(n) % 16 == 0,
        n <= align16(n) <= n + 15,
{
    assert(((n + 15) / 16 * 16) % 16 == 0) by (nonlinear_arith);
    assert(n <= (n + 15) / 16 * 16 <= n + 15) by (nonlinear_arith)
        requires
            n >= 0,
    ;
}

/// When a whole body converts, so does every prefix of it.
pub proof fn lemma_convert_body_prefix(
    st: CgState,
    nodes: Seq<IrModel>,
    stack: Seq<StackModel>,
    f: u32,
    k: int,
    m: int,
    post: Seq<InstrModel>,
)
    requires
        0 <= k <= m,
        convert_body(st, nodes, stack, f, m, post) is Some,
    ensures
        convert_body(st, nodes, stack, f, k, post) is Some,
    decreases m - k,
{
    if k < m {
        lemma_convert_body_prefix(st, nodes, stack, f, k + 1, m, post);
    }
}

/// When a whole program converts, so does every prefix of its functions.
pub proof fn lemma_generate_prefix(st: CgState, functions: Seq<IrModel>, k: int, m: int)
    requires
        0 <= k <= m,
        generate(st, functions, m) is Some,
    ensures
        generate(st, functions, k) is Some,
    decreases m - k,
{
    if k < m {
        lemma_generate_prefix(st, functions, k + 1, m);
    }
}

/// An instruction on physical registers: marked allocated, and every register it names is a
/// special one (negative), none (0), an allocatable one (up to 15) or a scratch one (16, 17).
pub open spec fn on_physical_registers(ins: InstrModel) -> bool {
    &&& ins.register_allocated
    &&& ins.dest <= 17
    &&& ins.src1 <= 17
    &&& ins.src2 <= 17
}

/// Every instruction of `code` is on physical registers.
pub open spec fn all_physical(code: Seq<InstrModel>) -> bool {
    forall|k: int| 0 <= k < code.len() ==> on_physical_registers(#[trigger] code[k])
}

/// A consistent allocation state: sixteen registers, each virtual register assigned to one of
/// them, and a spill stack that only grows downwards.
pub open spec fn ra_wf(st: RaState) -> bool {
    &&& st.regs.len() == 16
    &&& forall|v: i32| st.assigned.contains_key(v) ==> 0 <= #[trigger] st.assigned[v] < 16
    &&& st.spill_top <= 0
}

proof fn lemma_first_free(regs: Seq<(bool, bool, i32)>, j: int)
    ensures
        first_free(regs, j) matches Some(k) ==> 0 <= j <= k < regs.len() && !regs[k].0,
    decreases regs.len() - j,
{
    if 0 <= j < regs.len() && regs[j].0 {
        lemma_first_free(regs, j + 1);
    }
}

proof fn lemma_caller_saves_physical(regs: Seq<(bool, bool, i32)>, n: int)
    requires
        n <= 7,
    ensures
        all_physical(caller_saves(regs, n)),
        all_physical(caller_restores(regs, n)),
    decreases n,
{
    if n > 0 {
        lemma_caller_saves_physical(regs, n - 1);
    }
}

proof fn lemma_concat_physical(a: Seq<InstrModel>, b: Seq<InstrModel>)
    requires
        all_physical(a),
        all_physical(b),
    ensures
        all_physical(a + b),
{
    assert forall|k: int| 0 <= k < (a + b).len() implies on_physical_registers(#[trigger] (a + b)[k]) by {
        if k < a.len() {
            assert((a + b)[k] == a[k]);
        } else {
            assert((a + b)[k] == b[k - a.len()]);
        }
    }
}

proof fn lemma_insert_physical(a: Seq<InstrModel>, i: int, x: InstrModel)
    requires
        all_physical(a),
        on_physical_registers(x),
        0 <= i <= a.len(),
    ensures
        all_physical(a.insert(i, x)),
        a.insert(i, x).len() == a.len() + 1,
{
    a.insert_ensures(i, x);
    assert forall|k: int| 0 <= k < a.insert(i, x).len() implies on_physical_registers(#[trigger] a.insert(i, x)[k]) by {
        if k < i {
        } else if k == i {
        } else {
            assert(a.insert(i, x)[(k - 1) + 1] == a[k - 1]);
        }
    }
}

/// One step keeps the state consistent and emits only instructions on physical registers.
proof fn lemma_ra_step_physical(st: RaState, code: Seq<InstrModel>, i: int)
    requires
        ra_wf(st),
        0 <= i < code.len() <= 0x1fff_ffff,
        -4 * i <= st.spill_top,
        ra_step(st, code, i) is Some,
    ensures
        ra_step(st, code, i) matches Some((st2, more)) ==> ra_wf(st2) && all_physical(more) && more.len() > 0
            && st2.spill_top >= st.spill_top - 4,
{
    let ins = code[i];
    let st0 = if ins.tt == RiscvInstructionType::LABEL {
        RaState { regs: released(code, i, st.regs), ..st }
    } else {
        st
    };
    assert(ra_wf(st0));
    lemma_first_free(st0.regs, 0);
    if let Some((st3, out, spill, loads)) = ra_operands(st, code, i) {
        assert(ra_wf(st3)) by {
            lemma_first_free(st.regs, 0);
            let r1 = if ins.src1 > 0 {
                read_reg(st0, code, i, ins.src1, 16)
            } else {
                Some((st0, ins.src1, Seq::<InstrModel>::empty()))
            };
            let (st1, s1, l1) = r1.unwrap();
            assert(ra_wf(st1));
            let r2 = if ins.src2 > 0 {
                read_reg(st1, code, i, ins.src2, 17)
            } else {
                Some((st1, ins.src2, Seq::<InstrModel>::empty()))
            };
            let (st2, s2, l2) = r2.unwrap();
            assert(ra_wf(st2));
            lemma_first_free(st2.regs, 0);
        }
        assert(on_physical_registers(out) && all_physical(loads)) by {
            let r1 = if ins.src1 > 0 {
                read_reg(st0, code, i, ins.src1, 16)
            } else {
                Some((st0, ins.src1, Seq::<InstrModel>::empty()))
            };
            let (st1, s1, l1) = r1.unwrap();
            let r2 = if ins.src2 > 0 {
                read_reg(st1, code, i, ins.src2, 17)
            } else {
                Some((st1, ins.src2, Seq::<InstrModel>::empty()))
            };
            let (st2, s2, l2) = r2.unwrap();
            lemma_first_free(st2.regs, 0);
            lemma_concat_physical(l1, l2);
        }
        lemma_caller_saves_physical(st3.regs, 7);
        let e = emitted(out, st3.regs);
        assert(all_physical(seq![out]));
        if out.tt == RiscvInstructionType::JAL && out.src1 == 0 {
            lemma_concat_physical(caller_saves(st3.regs, 7), seq![out]);
            lemma_concat_physical(caller_saves(st3.regs, 7) + seq![out], caller_restores(st3.regs, 7));
        }
        let store = match spill {
            Some(off) => seq![frame_store(TP, 16, off as int)],
            None => Seq::<InstrModel>::empty(),
        };
        assert(all_physical(store));
        lemma_concat_physical(loads, e);
        lemma_concat_physical(loads + e, store);
    }
}

/// Allocating a prefix keeps the state consistent, emits only instructions on physical
/// registers, and emits something unless nothing was allocated yet.
proof fn lemma_ra_run_physical(code: Seq<InstrModel>, k: int)
    requires
        0 <= k <= code.len() <= 0x1fff_ffff,
        ra_run(code, k) is Some,
    ensures
        ra_run(code, k) matches Some((st, out)) ==> {
            &&& ra_wf(st)
            &&& st.spill_top >= -4 * k
            &&& all_physical(out)
            &&& out.len() == 0 ==> (forall|j: int| 0 <= j < 16 ==> !st.regs[j].1) && st.spill_top == 0
        },
    decreases k,
{
    if k > 0 {
        lemma_ra_run_prefix(code, k - 1, k);
        lemma_ra_run_physical(code, k - 1);
        let (st, out) = ra_run(code, k - 1).unwrap();
        lemma_ra_step_physical(st, code, k - 1);
        let (st2, more) = ra_step(st, code, k - 1).unwrap();
        lemma_concat_physical(out, more);
    }
}

proof fn lemma_callee_saves_physical(out: Seq<InstrModel>, regs: Seq<(bool, bool, i32)>, j: int)
    requires
        7 <= j,
        regs.len() == 16,
        all_physical(out),
        out.len() > 0 || forall|k: int| j <= k < 16 ==> !regs[k].1,
    ensures
        all_physical(callee_saves(out, regs, j)),
        callee_saves(out, regs, j).len() >= out.len(),
    decreases 16 - j,
{
    if j < 16 {
        if regs[j].1 {
            let a = out.insert(1, frame_store(SP, j, -4 - 4 * j));
            lemma_insert_physical(out, 1, frame_store(SP, j, -4 - 4 * j));
            lemma_insert_physical(a, a.len() - 1, frame_load(SP, j, -4 - 4 * j));
            lemma_callee_saves_physical(a.insert(a.len() - 1, frame_load(SP, j, -4 - 4 * j)), regs, j + 1);
        } else {
            lemma_callee_saves_physical(out, regs, j + 1);
        }
    }
}

/// Register allocation leaves every instruction on physical registers: no virtual register
/// remains in the code it gives.
pub proof fn lemma_allocation_physical(code: Seq<InstrModel>)
    requires
        code.len() <= 0x1fff_ffff,
        allocate_registers(code) is Some,
    ensures
        all_physical(allocate_registers(code)->0),
{
    lemma_ra_run_physical(code, code.len() as int);
    let (st, out) = ra_run(code, code.len() as int).unwrap();
    lemma_callee_saves_physical(out, st.regs, 7);
    let saved = callee_saves(out, st.regs, 7);
    if st.spill_top != 0 {
        let a = saved.insert(1, frame_store(SP, 16, -68));
        lemma_insert_physical(saved, 1, frame_store(SP, 16, -68));
        let b = a.insert(a.len() - 1, frame_load(SP, 16, -68));
        lemma_insert_physical(a, a.len() - 1, frame_load(SP, 16, -68));
        let c = b.insert(1, frame_store(SP, 17, -72));
        lemma_insert_physical(b, 1, frame_store(SP, 17, -72));
        let d = c.insert(c.len() - 1, frame_load(SP, 17, -72));
        lemma_insert_physical(c, c.len() - 1, frame_load(SP, 17, -72));
        let x = allocated(mk(RiscvInstructionType::ADDI, TP, TP, 0, st.spill_top as int));
        let e = d.insert(1, x);
        lemma_insert_physical(d, 1, x);
        let y = allocated(mk(RiscvInstructionType::ADDI, TP, TP, 0, -st.spill_top));
        lemma_insert_physical(e, e.len() - 1, y);
    }
}

/// The code the generator gives for a program is all on physical registers.
pub proof fn lemma_program_physical(st: CgState, functions: Seq<IrModel>, k: int)
    requires
        0 <= k <= functions.len(),
        generate(st, functions, k) is Some,
    ensures
        generate(st, functions, k) matches Some((_, code)) && all_physical(code),
    decreases k,
{
    if k > 0 {
        lemma_generate_prefix(st, functions, k - 1, k);
        lemma_program_physical(st, functions, k - 1);
        let (st1, code) = generate(st, functions, k - 1).unwrap();
        let (st2, more) = function_code(st1, functions[k - 1], (k - 1) as u32).unwrap();
        if let IrModel::FunctionDeclaration(name, _, args, nodes) = functions[k - 1] {
            let ssa = align16(record_bytes(nodes)) as u32;
            let stack = stack_layout(nodes);
            let is_init = name == "init"@;
            let st0 = CgState {
                constants: Map::empty(),
                globals: if is_init {
                    stack
                } else {
                    st1.globals
                },
                ..st1
            };
            let (st3, body, post) = convert_body(st0, nodes, stack, (k - 1) as u32, nodes.len() as int, post_function(ssa)).unwrap();
            let c = pre_function(name, ssa, args.len()) + body + if is_init {
                Seq::empty()
            } else {
                seq![epilogue_label((k - 1) as u32)] + post
            };
            lemma_allocation_physical(without_unused_loads(c));
        }
        lemma_concat_physical(code, more);
    }
}

/// Whether some instruction before position `i` writes register `v`.
pub open spec fn written_before(code: Seq<InstrModel>, i: int, v: i32) -> bool {
    exists|j: int| 0 <= j < i && #[trigger] code[j].dest == v
}

/// Whether each of the first `k` instructions reads only virtual registers that an earlier
/// instruction writes.
pub open spec fn reads_written(code: Seq<InstrModel>, k: int) -> bool {
    forall|i: int|
        0 <= i < k ==> (#[trigger] code[i].src1 > 0 ==> written_before(code, i, code[i].src1)) && (code[i].src2 > 0
            ==> written_before(code, i, code[i].src2))
}

/// The virtual registers the state knows, in a register or spilled, are those written so far.
proof fn lemma_ra_run_defined(code: Seq<InstrModel>, k: int)
    requires
        0 <= k <= code.len(),
    ensures
        ra_run(code, k) is Some <==> reads_written(code, k),
        ra_run(code, k) matches Some((st, _)) ==> forall|v: i32|
            v > 0 ==> ((st.assigned.contains_key(v) || st.spilled.contains_key(v)) <==> written_before(code, k, v)),
    decreases k,
{
    if k > 0 {
        lemma_ra_run_defined(code, k - 1);
        let i = k - 1;
        assert forall|v: i32| written_before(code, k, v) <==> (written_before(code, i, v) || code[i].dest == v) by {
            if written_before(code, k, v) {
                let j = choose|j: int| 0 <= j < k && #[trigger] code[j].dest == v;
                if j < i {
                    assert(written_before(code, i, v));
                }
            }
            if written_before(code, i, v) {
                let j = choose|j: int| 0 <= j < i && #[trigger] code[j].dest == v;
                assert(code[j].dest == v);
            }
        }
        if reads_written(code, k) {
            assert forall|x: int| 0 <= x < i implies (#[trigger] code[x].src1 > 0 ==> written_before(code, x, code[x].src1)) && (
            code[x].src2 > 0 ==> written_before(code, x, code[x].src2)) by {
                assert(code[x].src1 == code[x].src1);
            }
            assert(code[i].src1 == code[i].src1);
        }
        match ra_run(code, i) {
            None => {
                if reads_written(code, k) {
                    assert(reads_written(code, i));
                }
            },
            Some((st, out)) => {
                let ins = code[i];
                let st0 = if ins.tt == RiscvInstructionType::LABEL {
                    RaState { regs: released(code, i, st.regs), ..st }
                } else {
                    st
                };
                let ok1 = ins.src1 > 0 ==> written_before(code, i, ins.src1);
                let ok2 = ins.src2 > 0 ==> written_before(code, i, ins.src2);
                assert(reads_written(code, k) <==> reads_written(code, i) && ok1 && ok2) by {
                    if reads_written(code, i) && ok1 && ok2 {
                        assert forall|x: int| 0 <= x < k implies (#[trigger] code[x].src1 > 0 ==> written_before(
                            code,
                            x,
                            code[x].src1,
                        )) && (code[x].src2 > 0 ==> written_before(code, x, code[x].src2)) by {
                            if x < i {
                                assert(code[x].src1 == code[x].src1);
                            }
                        }
                    }
                }
                let r1 = if ins.src1 > 0 {
                    read_reg(st0, code, i, ins.src1, 16)
                } else {
                    Some((st0, ins.src1, Seq::<InstrModel>::empty()))
                };
                assert(r1 is Some <==> ok1);
                if let Some((st1, s1, l1)) = r1 {
                    assert(st1.assigned == st.assigned && st1.spilled == st.spilled);
                    let r2 = if ins.src2 > 0 {
                        read_reg(st1, code, i, ins.src2, 17)
                    } else {
                        Some((st1, ins.src2, Seq::<InstrModel>::empty()))
                    };
                    assert(r2 is Some <==> ok2);
                    if let Some((st2, s2, l2)) = r2 {
                        assert(st2.assigned == st.assigned && st2.spilled == st.spilled);
                        let (st3, d, spill) = if ins.dest > 0 {
                            write_reg(st2, code, i, ins.dest)
                        } else {
                            (st2, ins.dest, None)
                        };
                        assert forall|v: i32| v > 0 implies ((st3.assigned.contains_key(v) || st3.spilled.contains_key(v))
                            <==> written_before(code, k, v)) by {
                            assert((st3.assigned.contains_key(v) || st3.spilled.contains_key(v)) <==> (
                            (st2.assigned.contains_key(v) || st2.spilled.contains_key(v)) || ins.dest == v));
                        }
                        let step = ra_step(st, code, i).unwrap();
                        assert(ra_run(code, k) == Some((st3, out + step.1)));
                    }
                }
            },
        }
    }
}

/// Register allocation succeeds exactly on the code where every instruction reads only virtual
/// registers that an earlier instruction writes.
pub proof fn lemma_allocation_defined(code: Seq<InstrModel>)
    ensures
        allocate_registers(code) is Some <==> reads_written(code, code.len() as int),
{
    lemma_ra_run_defined(code, code.len() as int);
}

impl Codegen {
    /// A new code generator: fresh registers start far above those of the IR, and nothing is
    /// known of constants or globals.
    pub fn new() -> (r: Codegen)
        ensures
            r@.next_reg == first_new_register(),
            r@.constants == Map::<u32, u32>::empty(),
            r@.globals == Seq::<StackModel>::empty(),
    {
        let r = Codegen {
            current_new_register: 0x8000,
            constants_map: HashMap::new(),
            global_stack_position: Vec::new(),
        };
        assert(stack_list_model(r.global_stack_position@) =~= Seq::<StackModel>::empty());
        r
    }

    /// Hands out a fresh register.
    fn get_new_register(&mut self) -> (r: i32)
        requires
            old(self)@.next_reg < i32::MAX,
        ensures
            r == old(self)@.next_reg,
            final(self)@ == (CgState { next_reg: old(self)@.next_reg + 1, ..old(self)@ }),
    {
        let result = self.current_new_register;
        self.current_new_register = self.current_new_register + 1;
        result
    }

    /// The code of an allocation (see `alloc_code`); an array takes a fresh register, and the
    /// second list holds what the epilogue must do first.
    fn convert_alloc(
        &mut self,
        tt: &TypeWrapper,
        dest: u32,
        src: u32,
        size: u32,
        from_reg: bool,
        stack: &Vec<StackOffset>,
    ) -> (r: (Vec<RiscvInstruction>, Vec<RiscvInstruction>))
        requires
            (from_reg || src != 0) ==> is_sized(*tt),
            from_reg ==> old(self)@.next_reg < i32::MAX,
        ensures
            from_reg ==> final(self)@ == (CgState { next_reg: old(self)@.next_reg + 1, ..old(self)@ }),
            from_reg ==> instr_list_model(r.0@) == alloc_code(
                *tt,
                dest,
                src,
                size,
                true,
                old(self)@.next_reg as i32,
                stack_list_model(stack@),
            ),
            from_reg ==> instr_list_model(r.1@) == seq![
                mk(RiscvInstructionType::ADD, SP, SP, old(self)@.next_reg as i32, 0),
            ],
            !from_reg ==> final(self)@ == old(self)@,
            !from_reg ==> instr_list_model(r.0@) == alloc_code(
                *tt,
                dest,
                src,
                size,
                false,
                0,
                stack_list_model(stack@),
            ),
            !from_reg ==> instr_list_model(r.1@) == Seq::<InstrModel>::empty(),
    {
        let mut code: Vec<RiscvInstruction> = Vec::new();
        let mut post: Vec<RiscvInstruction> = Vec::new();
        let mut nr: i32 = 0;
        if from_reg {
            nr = self.get_new_register();
            code.push(ins(RiscvInstructionType::SLLI, nr, size as i32, 0, tt.get_size() as i32 / 2));
            code.push(ins(RiscvInstructionType::ADDI, nr, nr, 0, 15));
            code.push(ins(RiscvInstructionType::ANDI, nr, nr, 0, -16));
            code.push(ins(RiscvInstructionType::SUB, SP, SP, nr, 0));
            code.push(ins(RiscvInstructionType::ADDI, dest as i32, SP, 0, 0));
            post.push(ins(RiscvInstructionType::ADD, SP, SP, nr, 0));
        }
        let ghost arr = instr_list_model(code@);
        if src != 0 {
            let store = store_instruction(tt);
            match slot_offset(stack, dest) {
                Some(offset) => {
                    code.push(ins(store, 0, FP, src as i32, offset));
                    code.push(ins(RiscvInstructionType::ADDI, dest as i32, FP, 0, offset));
                },
                None => {
                    code.push(ins(store, 0, dest as i32, src as i32, 0));
                },
            }
        }
        proof {
            assert(instr_list_model(code@) =~= alloc_code(*tt, dest, src, size, from_reg, nr, stack_list_model(stack@)));
            assert(instr_list_model(post@) =~= (if from_reg {
                seq![mk(RiscvInstructionType::ADD, SP, SP, nr, 0)]
            } else {
                Seq::<InstrModel>::empty()
            }));
        }
        (code, post)
    }

    /// The code of a constant (see `movc_code`); a value up to 4096 is remembered as held by
    /// `dest`.
    fn convert_movc(&mut self, dest: u32, value: u32) -> (r: Vec<RiscvInstruction>)
        ensures
            final(self)@ == (if value > 4096 {
                old(self)@
            } else {
                CgState { constants: old(self)@.constants.insert(dest, value), ..old(self)@ }
            }),
            instr_list_model(r@) == movc_code(dest, value),
    {
        let mut code: Vec<RiscvInstruction> = Vec::new();
        if value > 4096 {
            code.push(ins(RiscvInstructionType::LUI, dest as i32, 0, 0, (value / 4096) as i32));
        } else {
            self.constants_map.insert(dest, value);
        }
        code.push(ins(RiscvInstructionType::ADDI, dest as i32, X0, 0, (value % 4096) as i32));
        assert(instr_list_model(code@) =~= movc_code(dest, value));
        code
    }

    /// The code of a call (see `call_code`).
    fn convert_call(&self, name: &String, arguments: &Vec<u32>, ret: u32) -> (r: Vec<RiscvInstruction>)
        requires
            4 * (arguments.len() - 8) + 15 <= i32::MAX,
        ensures
            instr_list_model(r@) == call_code(name@, arguments@, ret),
    {
        let n = arguments.len();
        let extra: i32 = n as i32 - 8;
        let space: i32 = if extra > 0 {
            (extra * 4 + 15) / 16 * 16
        } else {
            0
        };
        let mut code: Vec<RiscvInstruction> = Vec::new();
        if extra > 0 {
            code.push(ins(RiscvInstructionType::ADDI, SP, SP, 0, -space));
        }
        let ghost head = instr_list_model(code@);
        let mut i: usize = 0;
        while i < n
            invariant
                n == arguments.len(),
                4 * (n - 8) + 15 <= i32::MAX,
                i <= n,
                code@.len() == head.len() + i,
                instr_list_model(code@) =~= head + Seq::new(i as nat, |k: int| call_argument(arguments@, k)),
            decreases n - i,
        {
            let ghost before = instr_list_model(code@);
            if i < 8 {
                code.push(ins(RiscvInstructionType::ADDI, A0 - i as i32, arguments[i] as i32, 0, 0));
            } else {
                code.push(ins(RiscvInstructionType::SW, 0, SP, arguments[i] as i32, (i as i32 - 8) * 4));
            }
            proof {
                assert(instr_list_model(code@) =~= before.push(call_argument(arguments@, i as int)));
                assert(Seq::new((i + 1) as nat, |k: int| call_argument(arguments@, k)) =~= Seq::new(
                    i as nat,
                    |k: int| call_argument(arguments@, k),
                ).push(call_argument(arguments@, i as int)));
            }
            i = i + 1;
        }
        let ghost mid = instr_list_model(code@);
        code.push(RiscvInstruction {
            tt: RiscvInstructionType::JAL,
            dest: RA,
            src1: 0,
            src2: 0,
            immediate: 0,
            label: 0,
            label_function: 0,
            is_unsigned: false,
            name: name.clone(),
            register_allocated: false,
        });
        let ghost jal = InstrModel { dest: RA, name: name@, ..bare(RiscvInstructionType::JAL) };
        assert(instr_list_model(code@) =~= mid.push(jal));
        let ghost with_jal = instr_list_model(code@);
        if ret != 0 {
            code.push(ins(RiscvInstructionType::ADDI, ret as i32, A0, 0, 0));
        }
        let ghost ret_part = if ret != 0 {
            seq![mk(RiscvInstructionType::ADDI, ret as i32, A0, 0, 0)]
        } else {
            Seq::<InstrModel>::empty()
        };
        assert(instr_list_model(code@) =~= with_jal + ret_part);
        let ghost with_ret = instr_list_model(code@);
        if extra > 0 {
            code.push(ins(RiscvInstructionType::ADDI, SP, SP, 0, space));
        }
        proof {
            let sp = align16((n - 8) * 4);
            assert(extra > 0 ==> space == sp);
            let tail = if extra > 0 {
                seq![mk(RiscvInstructionType::ADDI, SP, SP, 0, sp)]
            } else {
                Seq::<InstrModel>::empty()
            };
            assert(instr_list_model(code@) =~= with_ret + tail);
            assert(mid =~= head + Seq::new(n as nat, |k: int| call_argument(arguments@, k)));
            assert(instr_list_model(code@) =~= call_code(name@, arguments@, ret));
        }
        code
    }

    /// The code of a binary operation (see `binary_code`).
    fn convert_binary(&self, op: Operator, tt: &TypeWrapper, dest: u32, a: u32, b: u32) -> (r: Vec<RiscvInstruction>)
        requires
            binary_code(self@.constants, op, *tt, dest, a, b) is Some,
        ensures
            binary_code(self@.constants, op, *tt, dest, a, b) == Some(instr_list_model(r@)),
    {
        let d = dest as i32;
        let s1 = a as i32;
        let s2 = b as i32;
        let unsigned = !tt.is_signed();
        let mut code: Vec<RiscvInstruction> = Vec::new();
        match op {
            Operator::EqualCompare => {
                code.push(ins(RiscvInstructionType::SUB, d, s1, s2, 0));
                code.push(build(RiscvInstructionType::SLTI, d, d, 0, 1, 0, 0, true));
            },
            Operator::DiffCompare => {
                code.push(ins(RiscvInstructionType::SUB, d, s1, s2, 0));
                code.push(build(RiscvInstructionType::SLT, d, X0, d, 0, 0, 0, true));
            },
            Operator::LECompare => {
                code.push(ins(RiscvInstructionType::SLT, d, s2, s1, 0));
                code.push(build(RiscvInstructionType::SLTI, d, d, 0, 1, 0, 0, true));
            },
            Operator::GECompare => {
                code.push(ins(RiscvInstructionType::SLT, d, s1, s2, 0));
                code.push(build(RiscvInstructionType::SLTI, d, d, 0, 1, 0, 0, true));
            },
            Operator::GTCompare => {
                code.push(build(RiscvInstructionType::SLT, d, s2, s1, 0, 0, 0, unsigned));
            },
            Operator::LTCompare => {
                code.push(build(RiscvInstructionType::SLT, d, s1, s2, 0, 0, 0, unsigned));
            },
            Operator::Minus => {
                code.push(build(RiscvInstructionType::SUB, d, s1, s2, 0, 0, 0, unsigned));
            },
            Operator::Asterisk => {
                code.push(build(RiscvInstructionType::MUL, d, s1, s2, 0, 0, 0, unsigned));
            },
            Operator::Slash => {
                code.push(build(RiscvInstructionType::DIV, d, s1, s2, 0, 0, 0, unsigned));
            },
            Operator::Module => {
                code.push(build(RiscvInstructionType::REM, d, s1, s2, 0, 0, 0, unsigned));
            },
            Operator::Plus | Operator::XorOp | Operator::AndOp | Operator::OrOp => {
                let (with_imm, with_regs) = match op {
                    Operator::Plus => (RiscvInstructionType::ADDI, RiscvInstructionType::ADD),
                    Operator::XorOp => (RiscvInstructionType::XORI, RiscvInstructionType::XOR),
                    Operator::AndOp => (RiscvInstructionType::ANDI, RiscvInstructionType::AND),
                    _ => (RiscvInstructionType::ORI, RiscvInstructionType::OR),
                };
                match self.constants_map.get(&b) {
                    Some(v) => {
                        code.push(build(with_imm, d, s1, 0, *v as i32, 0, 0, unsigned));
                    },
                    None => match self.constants_map.get(&a) {
                        Some(v) => {
                            code.push(build(with_imm, d, s2, 0, *v as i32, 0, 0, unsigned));
                        },
                        None => {
                            code.push(build(with_regs, d, s1, s2, 0, 0, 0, unsigned));
                        },
                    },
                }
            },
            Operator::LShift | Operator::RShift => {
                let (with_imm, with_regs) = match op {
                    Operator::LShift => (RiscvInstructionType::SLLI, RiscvInstructionType::SLL),
                    _ => (RiscvInstructionType::SRLI, RiscvInstructionType::SRL),
                };
                match self.constants_map.get(&b) {
                    Some(v) => {
                        code.push(build(with_imm, d, s1, 0, *v as i32, 0, 0, unsigned));
                    },
                    None => {
                        code.push(build(with_regs, d, s1, s2, 0, 0, 0, unsigned));
                    },
                }
            },
            _ => {},
        }
        proof {
            assert(binary_code(self@.constants, op, *tt, dest, a, b)->0 =~= instr_list_model(code@));
        }
        code
    }

    /// The branch of a branch node (see `branch_code`).
    fn convert_branch(&self, ct: CompareType, tt: &TypeWrapper, a: u32, b: u32, label: u32, f: u32) -> (r: RiscvInstruction)
        ensures
            r@ == branch_code(ct, *tt, a, b, label, f),
    {
        let s1 = a as i32;
        let s2 = b as i32;
        let u = !tt.is_signed();
        match ct {
            CompareType::Always => build(RiscvInstructionType::J, 0, s1, s2, 0, label, f, false),
            CompareType::GT => build(RiscvInstructionType::BLT, 0, s2, s1, 0, label, f, u),
            CompareType::GE => build(RiscvInstructionType::BGE, 0, s1, s2, 0, label, f, u),
            CompareType::LT => build(RiscvInstructionType::BLT, 0, s1, s2, 0, label, f, u),
            CompareType::LE => build(RiscvInstructionType::BGE, 0, s2, s1, 0, label, f, u),
            CompareType::EQ => build(RiscvInstructionType::BEQ, 0, s1, s2, 0, label, f, u),
            CompareType::NE => build(RiscvInstructionType::BNE, 0, s1, s2, 0, label, f, u),
            CompareType::S => build(RiscvInstructionType::BNE, 0, s1, X0, 0, label, f, u),
            CompareType::NS => build(RiscvInstructionType::BEQ, 0, s1, X0, 0, label, f, u),
        }
    }

    /// Converts one node of the body of function `i_function` (see `convert`): the instructions
    /// of the node, and those the epilogue must run before its own.
    fn convert_node(&mut self, node: &IrNode, stack_position: &Vec<StackOffset>, i_function: u32) -> (r: (
        Vec<RiscvInstruction>,
        Vec<RiscvInstruction>,
    ))
        requires
            convert(old(self)@, node@, stack_list_model(stack_position@), i_function) is Some,
        ensures
            convert(old(self)@, node@, stack_list_model(stack_position@), i_function) == Some(
                (final(self)@, instr_list_model(r.0@), instr_list_model(r.1@)),
            ),
    {
        let ghost stack = stack_list_model(stack_position@);
        let mut code: Vec<RiscvInstruction> = Vec::new();
        let post: Vec<RiscvInstruction> = Vec::new();
        assert(instr_list_model(post@) =~= Seq::<InstrModel>::empty());
        match node {
            IrNode::Return(_, src) => {
                if *src != 0 {
                    code.push(ins(RiscvInstructionType::ADDI, A0, *src as i32, 0, 0));
                }
                code.push(build(RiscvInstructionType::J, 0, 0, 0, 0, 0, i_function, false));
                assert(instr_list_model(code@) =~= convert(old(self)@, node@, stack, i_function).unwrap().1);
                (code, post)
            },
            IrNode::Alloc(tt, dest, src, _, size, from_reg, _) => {
                self.convert_alloc(tt, *dest, *src, *size, *from_reg, stack_position)
            },
            IrNode::MovC(_, dest, value) => (self.convert_movc(*dest, *value), post),
            IrNode::Cast(ttd, _, dest, src) => {
                let size = ttd.get_size();
                let mask: i32 = if size == 1 {
                    0xff
                } else if size == 2 {
                    0xffff
                } else {
                    -1
                };
                code.push(ins(RiscvInstructionType::ANDI, *dest as i32, *src as i32, 0, mask));
                if ttd.is_signed() && size != 4 {
                    let shift = (32 - size * 8) as i32;
                    code.push(ins(RiscvInstructionType::SLLI, *dest as i32, *src as i32, 0, shift));
                    code.push(ins(RiscvInstructionType::SRLI, *dest as i32, *dest as i32, 0, shift));
                }
                assert(instr_list_model(code@) =~= cast_code(*ttd, *dest, *src));
                (code, post)
            },
            IrNode::Store(tt, dest, src) => {
                let store = store_instruction(tt);
                match slot_offset(stack_position, *dest) {
                    Some(offset) => code.push(ins(store, 0, FP, *src as i32, offset)),
                    None => code.push(ins(store, 0, *dest as i32, *src as i32, 0)),
                }
                assert(instr_list_model(code@) =~= convert(old(self)@, node@, stack, i_function).unwrap().1);
                (code, post)
            },
            IrNode::LoadA(_, dest, name) => {
                let offset = global_offset_of(&self.global_stack_position, name);
                code.push(ins(RiscvInstructionType::ADDI, *dest as i32, GP, 0, offset));
                assert(instr_list_model(code@) =~= convert(old(self)@, node@, stack, i_function).unwrap().1);
                (code, post)
            },
            IrNode::LoadR(tt, dest, src) => {
                let load = load_instruction(tt);
                match slot_offset(stack_position, *src) {
                    Some(offset) => code.push(ins(load, *dest as i32, FP, 0, offset)),
                    None => code.push(ins(load, *dest as i32, *src as i32, 0, 0)),
                }
                assert(instr_list_model(code@) =~= convert(old(self)@, node@, stack, i_function).unwrap().1);
                (code, post)
            },
            IrNode::Label(l) => {
                code.push(build(RiscvInstructionType::LABEL, 0, 0, 0, 0, *l, i_function, false));
                assert(instr_list_model(code@) =~= convert(old(self)@, node@, stack, i_function).unwrap().1);
                (code, post)
            },
            IrNode::Call(name, _, arguments, ret) => (self.convert_call(name, arguments, *ret), post),
            IrNode::Branch(ct, tt, a, b, l) => {
                code.push(self.convert_branch(*ct, tt, *a, *b, *l, i_function));
                assert(instr_list_model(code@) =~= convert(old(self)@, node@, stack, i_function).unwrap().1);
                (code, post)
            },
            IrNode::Unary(_, op, dest, src) => {
                match op {
                    Operator::Minus => code.push(ins(RiscvInstructionType::SUB, *dest as i32, X0, *src as i32, 0)),
                    Operator::Complement => code.push(
                        ins(RiscvInstructionType::XORI, *dest as i32, *src as i32, 0, -1),
                    ),
                    _ => code.push(build(RiscvInstructionType::SLTI, *dest as i32, *src as i32, 0, 1, 0, 0, true)),
                }
                assert(instr_list_model(code@) =~= convert(old(self)@, node@, stack, i_function).unwrap().1);
                (code, post)
            },
            IrNode::Binary(op, tt, dest, a, b) => (self.convert_binary(*op, tt, *dest, *a, *b), post),
            _ => (code, post),
        }
    }

    /// Takes out the loads of constants that no instruction reads (see `without_unused_loads`):
    /// their values went into immediates.
    fn remove_load_constant(&self, nodes: Vec<RiscvInstruction>) -> (r: Vec<RiscvInstruction>)
        ensures
            instr_list_model(r@) == without_unused_loads(instr_list_model(nodes@)),
    {
        let ghost code = instr_list_model(nodes@);
        let mut kept: Vec<RiscvInstruction> = Vec::new();
        let mut k: usize = 0;
        while k < nodes.len()
            invariant
                k <= nodes.len(),
                code == instr_list_model(nodes@),
                instr_list_model(kept@) == code.take(k as int).filter(kept_in(code)),
            decreases nodes.len() - k,
        {
            let node = &nodes[k];
            let mut keep = true;
            if node.tt == RiscvInstructionType::ADDI && node.src1 == X0 && node.dest > 0 {
                keep = is_read(&nodes, node.dest);
            }
            proof {
                let d = node.dest;
                let in_vec = exists|j: int| 0 <= j < nodes@.len() && (nodes@[j].src1 == d || nodes@[j].src2 == d);
                let in_model = exists|j: int| 0 <= j < code.len() && (code[j].src1 == d || code[j].src2 == d);
                if in_vec {
                    let j = choose|j: int| 0 <= j < nodes@.len() && (nodes@[j].src1 == d || nodes@[j].src2 == d);
                    assert(code[j] == nodes@[j]@);
                }
                if in_model {
                    let j = choose|j: int| 0 <= j < code.len() && (code[j].src1 == d || code[j].src2 == d);
                    assert(code[j] == nodes@[j]@);
                }
                assert(in_vec == in_model);
                assert(code[k as int] == nodes@[k as int]@);
                assert(keep == kept_in(code)(code[k as int]));
            }
            let ghost before = instr_list_model(kept@);
            if keep {
                kept.push(node.duplicate());
                assert(instr_list_model(kept@) =~= before.push(code[k as int]));
            }
            proof {
                assert(code.take(k + 1) =~= code.take(k as int).push(code[k as int]));
                code.take(k as int).lemma_filter_push(code[k as int], kept_in(code));
            }
            k = k + 1;
        }
        assert(code.take(k as int) =~= code);
        kept
    }

    /// Whether virtual register `target` may still be read from instruction `starting_point` on
    /// (see `used_later`); when it may not, its physical register can be given to another.
    fn find_usage_register(&self, instructions: &Vec<RiscvInstruction>, starting_point: u32, target: i32) -> (r: bool)
        ensures
            r == used_later(instr_list_model(instructions@), starting_point as int, target),
    {
        reveal(used_later);
        let ghost code = instr_list_model(instructions@);
        let mut labels_found: Vec<u32> = Vec::new();
        let mut labels_to_analyze: Vec<u32> = Vec::new();
        let n = instructions.len();
        let mut i: usize = starting_point as usize;
        while i < n
            invariant
                n == instructions.len(),
                code == instr_list_model(instructions@),
                usage_scan(code, target, starting_point as int, Seq::empty(), Seq::empty()) == usage_scan(
                    code,
                    target,
                    i as int,
                    labels_found@,
                    labels_to_analyze@,
                ),
            decreases n - i,
        {
            reveal(used_later);
            let instr = &instructions[i];
            if instr.tt == RiscvInstructionType::LABEL {
                labels_found.push(instr.label);
            }
            if instr.src1 == target || instr.src2 == target {
                return true;
            }
            if instr.dest == target {
                return false;
            }
            if instr.label > 0 {
                labels_to_analyze.push(instr.label);
            }
            i = i + 1;
        }
        while labels_to_analyze.len() != 0
            invariant
                n == instructions.len(),
                code == instr_list_model(instructions@),
                used_later(code, starting_point as int, target) == usage_worklist(
                    code,
                    target,
                    labels_found@,
                    labels_to_analyze@,
                ),
            decreases unseen(code, labels_found@), labels_to_analyze@.len(),
        {
            reveal(used_later);
            let ghost todo0 = labels_to_analyze@;
            let ghost found0 = labels_found@;
            let current = labels_to_analyze.pop().unwrap();
            if label_seen(&labels_found, current) {
                continue;
            }
            labels_found.push(current);
            let mut started = false;
            let mut stop = false;
            let mut j: usize = 0;
            while j < n && !stop
                invariant
                    n == instructions.len(),
                    code == instr_list_model(instructions@),
                    todo0.len() > 0,
                    current == todo0.last(),
                    !found0.contains(current),
                    used_later(code, starting_point as int, target) == usage_worklist(code, target, found0, todo0),
                    block_scan(code, target, current, 0, false, found0.push(current), todo0.drop_last()) == if stop {
                        Scan::Open(labels_found@, labels_to_analyze@)
                    } else {
                        block_scan(code, target, current, j as int, started, labels_found@, labels_to_analyze@)
                    },
                decreases n - j,
            {
                reveal(used_later);
                let instr = &instructions[j];
                let is_label = instr.tt == RiscvInstructionType::LABEL;
                if is_label && instr.label == current {
                    started = true;
                } else if started {
                    if is_label && instr.label > 0 && label_seen(&labels_found, instr.label) {
                        stop = true;
                    } else if instr.dest == target {
                        return false;
                    } else if instr.src1 == target || instr.src2 == target {
                        return true;
                    } else if instr.label > 0 && is_label {
                        labels_found.push(instr.label);
                    } else if instr.label > 0 {
                        labels_to_analyze.push(instr.label);
                    }
                }
                j = j + 1;
            }
            proof {
                lemma_worklist_progress(code, target, found0, todo0);
            }
        }
        false
    }

    /// Releases, at the label at position `i`, the registers whose virtual register is not used
    /// later (see `released`).
    fn release_registers(&self, instructions: &Vec<RiscvInstruction>, i: usize, regs: &mut Vec<(bool, bool, i32)>)
        requires
            i < instructions.len() <= 0x1fff_ffff,
            old(regs)@.len() == 16,
        ensures
            final(regs)@ == released(instr_list_model(instructions@), i as int, old(regs)@),
    {
        let ghost code = instr_list_model(instructions@);
        let ghost r0 = regs@;
        let mut j: usize = 0;
        while j < regs.len()
            invariant
                i < instructions.len() <= 0x1fff_ffff,
                code == instr_list_model(instructions@),
                r0.len() == 16,
                regs@.len() == 16,
                j <= 16,
                forall|k: int| 0 <= k < j ==> regs@[k] == released(code, i as int, r0)[k],
                forall|k: int| j <= k < 16 ==> regs@[k] == r0[k],
            decreases 16 - j,
        {
            let e = regs[j];
            if e.0 && !self.find_usage_register(instructions, i as u32 + 1, e.2) {
                regs.set(j, (false, e.1, e.2));
            }
            j = j + 1;
        }
        assert(regs@ =~= released(code, i as int, r0));
    }

    /// Reads virtual register `v` at position `i` (see `read_reg`): returns the register to use
    /// and appends the load of a spilled value to `out`.
    fn read_register(
        &self,
        instructions: &Vec<RiscvInstruction>,
        i: usize,
        v: i32,
        scratch: i32,
        assigned: &HashMap<i32, i32>,
        spilled: &HashMap<i32, i32>,
        top: Ghost<i32>,
        regs: &mut Vec<(bool, bool, i32)>,
        out: &mut Vec<RiscvInstruction>,
    ) -> (r: i32)
        requires
            i < instructions.len() <= 0x1fff_ffff,
            old(regs)@.len() == 16,
            forall|x: i32| assigned@.contains_key(x) ==> 0 <= #[trigger] assigned@[x] < 16,
            read_reg(
                RaState { assigned: assigned@, regs: old(regs)@, spill_top: top@, spilled: spilled@ },
                instr_list_model(instructions@),
                i as int,
                v,
                scratch,
            ) is Some,
        ensures
            final(regs)@.len() == 16,
            read_reg(
                RaState { assigned: assigned@, regs: old(regs)@, spill_top: top@, spilled: spilled@ },
                instr_list_model(instructions@),
                i as int,
                v,
                scratch,
            ) == Some(
                (
                    RaState { assigned: assigned@, regs: final(regs)@, spill_top: top@, spilled: spilled@ },
                    r,
                    instr_list_model(final(out)@).skip(old(out)@.len() as int),
                ),
            ),
            instr_list_model(final(out)@).take(old(out)@.len() as int) == instr_list_model(old(out)@),
            final(out)@.len() >= old(out)@.len(),
    {
        let ghost o0 = instr_list_model(out@);
        match spilled.get(&v) {
            Some(offset) => {
                out.push(RiscvInstruction {
                    tt: RiscvInstructionType::LW,
                    dest: scratch,
                    src1: TP,
                    src2: 0,
                    immediate: *offset,
                    label: 0,
                    label_function: 0,
                    is_unsigned: false,
                    name: String::new(),
                    register_allocated: true,
                });
                assert(instr_list_model(out@) =~= o0.push(frame_load(TP, scratch as int, *offset as int)));
                assert(instr_list_model(out@).skip(o0.len() as int) =~= seq![frame_load(TP, scratch as int, *offset as int)]);
                assert(instr_list_model(out@).take(o0.len() as int) =~= o0);
                scratch
            },
            None => {
                let p = *assigned.get(&v).unwrap();
                if !self.find_usage_register(instructions, i as u32 + 1, v) {
                    let e = regs[p as usize];
                    regs.set(p as usize, (false, e.1, e.2));
                }
                assert(instr_list_model(out@).skip(o0.len() as int) =~= Seq::<InstrModel>::empty());
                assert(instr_list_model(out@).take(o0.len() as int) =~= o0);
                p
            },
        }
    }

    /// Writes virtual register `v` at position `i` (see `write_reg`): returns the register to
    /// write and, for a spilled value, the slot where it must be stored.
    fn write_register(
        &self,
        instructions: &Vec<RiscvInstruction>,
        i: usize,
        v: i32,
        assigned: &mut HashMap<i32, i32>,
        spilled: &mut HashMap<i32, i32>,
        top: &mut i32,
        regs: &mut Vec<(bool, bool, i32)>,
    ) -> (r: (i32, Option<i32>))
        requires
            i < instructions.len() <= 0x1fff_ffff,
            old(regs)@.len() == 16,
            forall|x: i32| old(assigned)@.contains_key(x) ==> 0 <= #[trigger] old(assigned)@[x] < 16,
            -4 * i <= *old(top) <= 0,
        ensures
            final(regs)@.len() == 16,
            forall|x: i32| final(assigned)@.contains_key(x) ==> 0 <= #[trigger] final(assigned)@[x] < 16,
            -4 * (i + 1) <= *final(top) <= 0,
            write_reg(
                RaState { assigned: old(assigned)@, regs: old(regs)@, spill_top: *old(top), spilled: old(spilled)@ },
                instr_list_model(instructions@),
                i as int,
                v,
            ) == (
                RaState { assigned: final(assigned)@, regs: final(regs)@, spill_top: *final(top), spilled: final(spilled)@ },
                r.0,
                r.1,
            ),
    {
        match assigned.get(&v) {
            Some(p) => {
                let p = *p;
                if !self.find_usage_register(instructions, i as u32 + 1, v) {
                    let e = regs[p as usize];
                    regs.set(p as usize, (false, e.1, e.2));
                }
                (p, None)
            },
            None => {
                let mut j: usize = 0;
                while j < regs.len() && regs[j].0
                    invariant
                        regs@.len() == 16,
                        j <= 16,
                        first_free(regs@, 0) == first_free(regs@, j as int),
                    decreases 16 - j,
                {
                    j = j + 1;
                }
                if j < regs.len() {
                    regs.set(j, (true, true, v));
                    assigned.insert(v, j as i32);
                    (j as i32, None)
                } else {
                    match spilled.get(&v) {
                        Some(offset) => (16, Some(*offset)),
                        None => {
                            let offset = *top;
                            spilled.insert(v, offset);
                            *top = offset - 4;
                            (16, Some(offset))
                        },
                    }
                }
            },
        }
    }

    /// Appends the saves, before a call, of the caller-saved registers in use.
    fn push_caller_saves(&self, regs: &Vec<(bool, bool, i32)>, out: &mut Vec<RiscvInstruction>)
        requires
            regs@.len() == 16,
        ensures
            instr_list_model(final(out)@) == instr_list_model(old(out)@) + caller_saves(regs@, 7),
    {
        let ghost o0 = instr_list_model(out@);
        let mut j: usize = 0;
        while j < 7
            invariant
                regs@.len() == 16,
                j <= 7,
                instr_list_model(out@) == o0 + caller_saves(regs@, j as int),
            decreases 7 - j,
        {
            let ghost before = instr_list_model(out@);
            if regs[j].0 {
                out.push(RiscvInstruction {
                    tt: RiscvInstructionType::SW,
                    dest: 0,
                    src1: FP,
                    src2: j as i32,
                    immediate: -4 - j as i32 * 4,
                    label: 0,
                    label_function: 0,
                    is_unsigned: false,
                    name: String::new(),
                    register_allocated: true,
                });
                assert(instr_list_model(out@) =~= before.push(frame_store(FP, j as int, -4 - 4 * j)));
            }
            assert(instr_list_model(out@) =~= o0 + caller_saves(regs@, j + 1));
            j = j + 1;
        }
    }

    /// Appends the restores, after a call, of the caller-saved registers in use.
    fn push_caller_restores(&self, regs: &Vec<(bool, bool, i32)>, out: &mut Vec<RiscvInstruction>)
        requires
            regs@.len() == 16,
        ensures
            instr_list_model(final(out)@) == instr_list_model(old(out)@) + caller_restores(regs@, 7),
    {
        let ghost o0 = instr_list_model(out@);
        let mut j: usize = 0;
        while j < 7
            invariant
                regs@.len() == 16,
                j <= 7,
                instr_list_model(out@) == o0 + caller_restores(regs@, j as int),
            decreases 7 - j,
        {
            let ghost before = instr_list_model(out@);
            if regs[j].0 {
                out.push(RiscvInstruction {
                    tt: RiscvInstructionType::LW,
                    dest: j as i32,
                    src1: FP,
                    src2: 0,
                    immediate: -4 - j as i32 * 4,
                    label: 0,
                    label_function: 0,
                    is_unsigned: false,
                    name: String::new(),
                    register_allocated: true,
                });
                assert(instr_list_model(out@) =~= before.push(frame_load(FP, j as int, -4 - 4 * j)));
            }
            assert(instr_list_model(out@) =~= o0 + caller_restores(regs@, j + 1));
            j = j + 1;
        }
    }

    /// Allocates the operands of the instruction at position `i` (see `ra_operands`), appending
    /// the loads of spilled sources to `result`; returns the instruction on physical registers and
    /// the spill slot of its destination, if any.
    #[verifier::rlimit(60)]
    fn allocate_operands(
        &self,
        instructions: &Vec<RiscvInstruction>,
        i: usize,
        assigned: &mut HashMap<i32, i32>,
        spilled: &mut HashMap<i32, i32>,
        top: &mut i32,
        regs: &mut Vec<(bool, bool, i32)>,
        result: &mut Vec<RiscvInstruction>,
    ) -> (r: (RiscvInstruction, Option<i32>))
        requires
            i < instructions.len() <= 0x1fff_ffff,
            old(regs)@.len() == 16,
            forall|x: i32| old(assigned)@.contains_key(x) ==> 0 <= #[trigger] old(assigned)@[x] < 16,
            -4 * i <= *old(top) <= 0,
            ra_operands(
                RaState { assigned: old(assigned)@, regs: old(regs)@, spill_top: *old(top), spilled: old(spilled)@ },
                instr_list_model(instructions@),
                i as int,
            ) is Some,
        ensures
            final(regs)@.len() == 16,
            forall|x: i32| final(assigned)@.contains_key(x) ==> 0 <= #[trigger] final(assigned)@[x] < 16,
            -4 * (i + 1) <= *final(top) <= 0,
            final(result)@.len() >= old(result)@.len(),
            instr_list_model(final(result)@).take(old(result)@.len() as int) == instr_list_model(old(result)@),
            ra_operands(
                RaState { assigned: old(assigned)@, regs: old(regs)@, spill_top: *old(top), spilled: old(spilled)@ },
                instr_list_model(instructions@),
                i as int,
            ) == Some(
                (
                    RaState { assigned: final(assigned)@, regs: final(regs)@, spill_top: *final(top), spilled: final(spilled)@ },
                    r.0@,
                    r.1,
                    instr_list_model(final(result)@).skip(old(result)@.len() as int),
                ),
            ),
    {
        let ghost code = instr_list_model(instructions@);
        let ghost st = RaState { assigned: assigned@, regs: regs@, spill_top: *top, spilled: spilled@ };
        let ghost out0 = instr_list_model(result@);
        let mut instr = instructions[i].duplicate();
        let ghost ins = code[i as int];
        assert(instr@ == ins);
        if instr.tt == RiscvInstructionType::LABEL {
            self.release_registers(instructions, i, regs);
        }
        let ghost st0 = RaState { regs: regs@, ..st };
        if instr.src1 > 0 {
            instr.src1 = self.read_register(instructions, i, instr.src1, 16, assigned, spilled, Ghost(*top), regs, result);
        }
        let ghost st1 = RaState { regs: regs@, ..st };
        let ghost m2 = instr_list_model(result@);
        let ghost l1 = m2.skip(out0.len() as int);
        proof {
            if ins.src1 <= 0 {
                assert(m2 =~= out0);
            }
        }
        assert(m2 =~= m2.take(out0.len() as int) + l1);
        assert((if ins.src1 > 0 {
            read_reg(st0, code, i as int, ins.src1, 16)
        } else {
            Some((st0, ins.src1, Seq::<InstrModel>::empty()))
        }) == Some((st1, instr.src1, l1)));
        if instr.src2 > 0 {
            instr.src2 = self.read_register(instructions, i, instr.src2, 17, assigned, spilled, Ghost(*top), regs, result);
        }
        let ghost st2 = RaState { regs: regs@, ..st };
        let ghost m3 = instr_list_model(result@);
        let ghost l2 = m3.skip(m2.len() as int);
        proof {
            if ins.src2 <= 0 {
                assert(m3 =~= m2);
            }
        }
        assert(m3 =~= m3.take(m2.len() as int) + l2);
        assert((if ins.src2 > 0 {
            read_reg(st1, code, i as int, ins.src2, 17)
        } else {
            Some((st1, ins.src2, Seq::<InstrModel>::empty()))
        }) == Some((st2, instr.src2, l2)));
        let mut spill: Option<i32> = None;
        if instr.dest > 0 {
            let (d, sp) = self.write_register(instructions, i, instr.dest, assigned, spilled, top, regs);
            instr.dest = d;
            spill = sp;
        }
        instr.register_allocated = true;
        proof {
            assert(m3 =~= out0 + (l1 + l2));
            assert(m3.skip(out0.len() as int) =~= l1 + l2);
            assert(m3.take(out0.len() as int) =~= out0);
        }
        (instr, spill)
    }

    /// Appends an allocated instruction as emitted (see `emitted`).
    fn emit(&self, instr: RiscvInstruction, regs: &Vec<(bool, bool, i32)>, result: &mut Vec<RiscvInstruction>)
        requires
            regs@.len() == 16,
        ensures
            instr_list_model(final(result)@) == instr_list_model(old(result)@) + emitted(instr@, regs@),
    {
        let ghost r0 = instr_list_model(result@);
        let ghost out = instr@;
        if instr.tt == RiscvInstructionType::JAL && instr.src1 == 0 {
            self.push_caller_saves(regs, result);
            let ghost a = instr_list_model(result@);
            result.push(instr);
            assert(instr_list_model(result@) =~= a.push(out));
            self.push_caller_restores(regs, result);
            assert(instr_list_model(result@) =~= r0 + emitted(out, regs@));
        } else {
            result.push(instr);
            assert(instr_list_model(result@) =~= r0 + emitted(out, regs@));
        }
    }

    /// Allocates the instruction at position `i` (see `ra_step`), appending its code to `result`.
    fn allocate_instruction(
        &self,
        instructions: &Vec<RiscvInstruction>,
        i: usize,
        assigned: &mut HashMap<i32, i32>,
        spilled: &mut HashMap<i32, i32>,
        top: &mut i32,
        regs: &mut Vec<(bool, bool, i32)>,
        result: &mut Vec<RiscvInstruction>,
    )
        requires
            i < instructions.len() <= 0x1fff_ffff,
            old(regs)@.len() == 16,
            forall|x: i32| old(assigned)@.contains_key(x) ==> 0 <= #[trigger] old(assigned)@[x] < 16,
            -4 * i <= *old(top) <= 0,
            ra_step(
                RaState { assigned: old(assigned)@, regs: old(regs)@, spill_top: *old(top), spilled: old(spilled)@ },
                instr_list_model(instructions@),
                i as int,
            ) is Some,
        ensures
            final(regs)@.len() == 16,
            forall|x: i32| final(assigned)@.contains_key(x) ==> 0 <= #[trigger] final(assigned)@[x] < 16,
            -4 * (i + 1) <= *final(top) <= 0,
            final(result)@.len() > old(result)@.len(),
            instr_list_model(final(result)@).take(old(result)@.len() as int) == instr_list_model(old(result)@),
            ra_step(
                RaState { assigned: old(assigned)@, regs: old(regs)@, spill_top: *old(top), spilled: old(spilled)@ },
                instr_list_model(instructions@),
                i as int,
            ) == Some(
                (
                    RaState { assigned: final(assigned)@, regs: final(regs)@, spill_top: *final(top), spilled: final(spilled)@ },
                    instr_list_model(final(result)@).skip(old(result)@.len() as int),
                ),
            ),
    {
        let ghost out0 = instr_list_model(result@);
        let (instr, spill) = self.allocate_operands(instructions, i, assigned, spilled, top, regs, result);
        let ghost m1 = instr_list_model(result@);
        let ghost loads = m1.skip(out0.len() as int);
        let ghost out = instr@;
        assert(m1 =~= m1.take(out0.len() as int) + loads);
        self.emit(instr, regs, result);
        let ghost m2 = instr_list_model(result@);
        match spill {
            Some(offset) => {
                result.push(frame_instruction(RiscvInstructionType::SW, TP, 16, offset));
                assert(instr_list_model(result@) =~= m2.push(frame_store(TP, 16, offset as int)));
            },
            None => {},
        }
        proof {
            let store = match spill {
                Some(off) => seq![frame_store(TP, 16, off as int)],
                None => Seq::<InstrModel>::empty(),
            };
            assert(instr_list_model(result@) =~= out0 + (loads + emitted(out, regs@) + store));
            assert(instr_list_model(result@).skip(out0.len() as int) =~= loads + emitted(out, regs@) + store);
            assert(instr_list_model(result@).take(out0.len() as int) =~= out0);
        }
    }

    /// Allocates physical registers to the virtual registers of a function's code (see
    /// `allocate_registers`).
    #[verifier::rlimit(40)]
    fn register_allocation(&self, instructions: Vec<RiscvInstruction>) -> (r: Vec<RiscvInstruction>)
        requires
            instructions.len() <= 0x1fff_ffff,
            reads_written(instr_list_model(instructions@), instructions.len() as int),
        ensures
            allocate_registers(instr_list_model(instructions@)) == Some(instr_list_model(r@)),
            all_physical(instr_list_model(r@)),
    {
        let ghost code = instr_list_model(instructions@);
        proof {
            lemma_allocation_defined(code);
            lemma_allocation_physical(code);
        }
        let n = instructions.len();
        let mut result: Vec<RiscvInstruction> = Vec::new();
        let mut assigned: HashMap<i32, i32> = HashMap::new();
        let mut spilled: HashMap<i32, i32> = HashMap::new();
        let mut top: i32 = 0;
        let mut regs: Vec<(bool, bool, i32)> = Vec::new();
        let mut k: usize = 0;
        while k < 16
            invariant
                k <= 16,
                regs@ =~= Seq::new(k as nat, |j: int| (false, false, 0i32)),
            decreases 16 - k,
        {
            regs.push((false, false, 0));
            k = k + 1;
        }
        assert(instr_list_model(result@) =~= Seq::<InstrModel>::empty());
        let mut i: usize = 0;
        while i < n
            invariant
                n == instructions.len() <= 0x1fff_ffff,
                code == instr_list_model(instructions@),
                ra_run(code, n as int) is Some,
                i <= n,
                ra_run(code, i as int) == Some(
                    (
                        RaState { assigned: assigned@, regs: regs@, spill_top: top, spilled: spilled@ },
                        instr_list_model(result@),
                    ),
                ),
                regs@.len() == 16,
                forall|x: i32| assigned@.contains_key(x) ==> 0 <= #[trigger] assigned@[x] < 16,
                -4 * i <= top <= 0,
                result@.len() == 0 ==> (forall|j: int| 0 <= j < 16 ==> !regs@[j].1) && top == 0,
            decreases n - i,
        {
            proof {
                lemma_ra_run_prefix(code, i + 1, n as int);
            }
            let ghost out0 = instr_list_model(result@);
            self.allocate_instruction(&instructions, i, &mut assigned, &mut spilled, &mut top, &mut regs, &mut result);
            proof {
                let added = instr_list_model(result@).skip(out0.len() as int);
                assert(instr_list_model(result@) =~= out0 + added);
            }
            i = i + 1;
        }
        let ghost out = instr_list_model(result@);
        let ghost regs_final = regs@;
        let mut j: usize = 7;
        while j < 16
            invariant
                7 <= j <= 16,
                regs@ == regs_final,
                regs_final.len() == 16,
                callee_saves(out, regs_final, 7) == callee_saves(instr_list_model(result@), regs_final, j as int),
                result@.len() == 0 ==> (forall|k: int| j <= k < 16 ==> !regs_final[k].1) && top == 0,
            decreases 16 - j,
        {
            if regs[j].1 {
                let ghost before = instr_list_model(result@);
                let ghost save = frame_store(SP, j as int, -4 - 4 * j);
                let ghost restore = frame_load(SP, j as int, -4 - 4 * j);
                result.insert(1, frame_instruction(RiscvInstructionType::SW, SP, j as i32, -4 - j as i32 * 4));
                let ghost a = instr_list_model(result@);
                assert(a =~= before.insert(1, save));
                let last = result.len() - 1;
                result.insert(last, frame_instruction(RiscvInstructionType::LW, SP, j as i32, -4 - j as i32 * 4));
                assert(instr_list_model(result@) =~= a.insert(a.len() - 1, restore));
            }
            j = j + 1;
        }
        let ghost saved = instr_list_model(result@);
        assert(saved == callee_saves(out, regs_final, 7));
        if top != 0 {
            result.insert(1, frame_instruction(RiscvInstructionType::SW, SP, 16, -68));
            let ghost a = instr_list_model(result@);
            assert(a =~= saved.insert(1, frame_store(SP, 16, -68)));
            let last = result.len() - 1;
            result.insert(last, frame_instruction(RiscvInstructionType::LW, SP, 16, -68));
            let ghost b = instr_list_model(result@);
            assert(b =~= a.insert(a.len() - 1, frame_load(SP, 16, -68)));
            result.insert(1, frame_instruction(RiscvInstructionType::SW, SP, 17, -72));
            let ghost c = instr_list_model(result@);
            assert(c =~= b.insert(1, frame_store(SP, 17, -72)));
            let last = result.len() - 1;
            result.insert(last, frame_instruction(RiscvInstructionType::LW, SP, 17, -72));
            let ghost d = instr_list_model(result@);
            assert(d =~= c.insert(c.len() - 1, frame_load(SP, 17, -72)));
            result.insert(1, frame_instruction(RiscvInstructionType::ADDI, TP, TP, top));
            let ghost e = instr_list_model(result@);
            assert(e =~= d.insert(1, allocated(mk(RiscvInstructionType::ADDI, TP, TP, 0, top as int))));
            let last = result.len() - 1;
            result.insert(last, frame_instruction(RiscvInstructionType::ADDI, TP, TP, -top));
            assert(instr_list_model(result@) =~= e.insert(
                e.len() - 1,
                allocated(mk(RiscvInstructionType::ADDI, TP, TP, 0, -top)),
            ));
        }
        assert(instr_list_model(result@) == spill_frame(saved, top));
        result
    }

    /// The layout of a function's activation record (see `stack_layout`) and its size in
    /// bytes, rounded up to a multiple of 16 (see `record_bytes`).
    fn get_alloc_stack_offset(&self, ir: &Vec<IrNode>) -> (r: (u32, Vec<StackOffset>))
        requires
            allocs_sized(ir_list_model(ir@)),
            record_bytes(ir_list_model(ir@)) + 15 <= i32::MAX,
        ensures
            r.0 == align16(record_bytes(ir_list_model(ir@))),
            stack_list_model(r.1@) == stack_layout(ir_list_model(ir@)),
    {
        let ghost nodes = ir_list_model(ir@);
        let mut result: Vec<StackOffset> = Vec::new();
        assert(stack_list_model(result@) =~= Seq::<StackModel>::empty());
        let c4 = push_frame_slots(ir, 4, 72, &mut result);
        let c2 = push_frame_slots(ir, 2, c4, &mut result);
        let c1 = push_frame_slots(ir, 1, c2, &mut result);
        assert(stack_list_model(result@) =~= stack_layout(nodes));
        let ssa = c1 + 8;
        proof {
            lemma_align16(ssa as int);
        }
        let aligned = (ssa + 15) / 16 * 16;
        (aligned as u32, result)
    }

    /// Translates a program into RV32IM instructions (see `generate_program`).
    pub fn generate_code(&mut self, ir: &IrNode) -> (r: Vec<RiscvInstruction>)
        requires
            generate_program(old(self)@, ir@) is Some,
        ensures
            generate_program(old(self)@, ir@) == Some((final(self)@, instr_list_model(r@))),
            all_physical(instr_list_model(r@)),
    {
        proof {
            if let IrModel::Program(fs) = ir@ {
                lemma_program_physical(old(self)@, fs, fs.len() as int);
            }
        }
        let mut code: Vec<RiscvInstruction> = Vec::new();
        match ir {
            IrNode::Program(functions_list) => {
                let ghost fs = ir_list_model(functions_list@);
                let ghost st_start = self@;
                proof {
                    lemma_ir_list_model(functions_list@);
                }
                let mut k: usize = 0;
                while k < functions_list.len()
                    invariant
                        k <= functions_list.len(),
                        fs == ir_list_model(functions_list@),
                        fs.len() == functions_list.len(),
                        forall|j: int| 0 <= j < fs.len() ==> #[trigger] fs[j] == functions_list@[j]@,
                        generate(st_start, fs, fs.len() as int) is Some,
                        generate(st_start, fs, k as int) == Some((self@, instr_list_model(code@))),
                    decreases functions_list.len() - k,
                {
                    proof {
                        lemma_generate_prefix(st_start, fs, k + 1, fs.len() as int);
                    }
                    let ghost c0 = instr_list_model(code@);
                    let mut more = self.function_code_of(&functions_list[k], k as u32);
                    let ghost m = instr_list_model(more@);
                    code.append(&mut more);
                    assert(instr_list_model(code@) =~= c0 + m);
                    k = k + 1;
                }
            },
            _ => {},
        }
        code
    }

    /// The code of function number `i_function` (see `function_code`).
    fn function_code_of(&mut self, function: &IrNode, i_function: u32) -> (r: Vec<RiscvInstruction>)
        requires
            function_code(old(self)@, function@, i_function) is Some,
        ensures
            function_code(old(self)@, function@, i_function) == Some((final(self)@, instr_list_model(r@))),
    {
        match function {
            IrNode::FunctionDeclaration(name, _, args, nodes) => {
                let ghost body_nodes = ir_list_model(nodes@);
                proof {
                    lemma_ir_list_model(nodes@);
                }
                self.constants_map.clear();
                let (ssa, stack_position) = self.get_alloc_stack_offset(nodes);
                let ghost stack = stack_list_model(stack_position@);
                proof {
                    lemma_align16(record_bytes(body_nodes));
                }
                let mut pre_function = self.get_pre_function(name, ssa, args);
                let mut post_function = self.get_post_function(ssa);
                let is_init = strs_match(name.as_str(), "init");
                proof {
                    reveal_strlit("init");
                }
                if is_init {
                    self.global_stack_position = copy_stack(&stack_position);
                }
                let ghost st0 = self@;
                let ghost post0 = instr_list_model(post_function@);
                let mut in_function: Vec<RiscvInstruction> = Vec::new();
                assert(instr_list_model(in_function@) =~= Seq::<InstrModel>::empty());
                let mut k: usize = 0;
                while k < nodes.len()
                    invariant
                        k <= nodes.len(),
                        body_nodes == ir_list_model(nodes@),
                        body_nodes.len() == nodes.len(),
                        forall|j: int| 0 <= j < body_nodes.len() ==> #[trigger] body_nodes[j] == nodes@[j]@,
                        stack == stack_list_model(stack_position@),
                        convert_body(st0, body_nodes, stack, i_function, body_nodes.len() as int, post0) is Some,
                        convert_body(st0, body_nodes, stack, i_function, k as int, post0) == Some(
                            (self@, instr_list_model(in_function@), instr_list_model(post_function@)),
                        ),
                    decreases nodes.len() - k,
                {
                    proof {
                        lemma_convert_body_prefix(st0, body_nodes, stack, i_function, k + 1, body_nodes.len() as int, post0);
                    }
                    let ghost c0 = instr_list_model(in_function@);
                    let ghost p0 = instr_list_model(post_function@);
                    let (mut to_add_in, mut to_add_post) = self.convert_node(&nodes[k], &stack_position, i_function);
                    let ghost ci = instr_list_model(to_add_in@);
                    let ghost cp = instr_list_model(to_add_post@);
                    in_function.append(&mut to_add_in);
                    to_add_post.append(&mut post_function);
                    post_function = to_add_post;
                    assert(instr_list_model(in_function@) =~= c0 + ci);
                    assert(instr_list_model(post_function@) =~= cp + p0);
                    k = k + 1;
                }
                let ghost body = instr_list_model(in_function@);
                let ghost post = instr_list_model(post_function@);
                let ghost pre = instr_list_model(pre_function@);
                let mut result: Vec<RiscvInstruction> = Vec::new();
                result.append(&mut pre_function);
                result.append(&mut in_function);
                if !is_init {
                    post_function.insert(0, build(RiscvInstructionType::LABEL, 0, 0, 0, 0, 0, i_function, false));
                    result.append(&mut post_function);
                }
                proof {
                    let tail = if is_init {
                        Seq::<InstrModel>::empty()
                    } else {
                        seq![epilogue_label(i_function)] + post
                    };
                    assert(instr_list_model(result@) =~= pre + body + tail);
                }
                let cleaned = self.remove_load_constant(result);
                proof {
                    lemma_allocation_defined(instr_list_model(cleaned@));
                }
                self.register_allocation(cleaned)
            },
            _ => Vec::new(),
        }
    }

    /// The preamble of a function (see `pre_function`). The record size must be a multiple of 16.
    fn get_pre_function(&self, name: &String, ssa: u32, args: &Vec<TypeWrapper>) -> (r: Vec<RiscvInstruction>)
        requires
            ssa % 16 == 0,
            ssa <= i32::MAX,
            4 * (args.len() - 9) <= i32::MAX,
        ensures
            instr_list_model(r@) == pre_function(name@, ssa, args.len() as nat),
    {
        let mut pre: Vec<RiscvInstruction> = Vec::new();
        pre.push(RiscvInstruction {
            tt: RiscvInstructionType::LABELFUNCTION,
            dest: 0,
            src1: 0,
            src2: 0,
            immediate: 0,
            label: 0,
            label_function: 0,
            is_unsigned: false,
            name: name.clone(),
            register_allocated: false,
        });
        let size = ssa as i32;
        pre.push(ins(RiscvInstructionType::ADDI, SP, SP, 0, -size));
        pre.push(ins(RiscvInstructionType::SW, 0, SP, RA, 0));
        pre.push(ins(RiscvInstructionType::SW, 0, SP, FP, 4));
        pre.push(ins(RiscvInstructionType::ADDI, FP, SP, 0, size));
        let ghost label = pre@[0]@;
        let n = args.len();
        let mut i: usize = 0;
        while i < n
            invariant
                n == args.len(),
                4 * (n - 9) <= i32::MAX,
                i <= n,
                pre@.len() == 5 + i,
                pre@[0]@ == label,
                instr_list_model(pre@).subrange(1, 5 + i as int) =~= seq![
                    mk(RiscvInstructionType::ADDI, SP, SP, 0, -(ssa as int)),
                    mk(RiscvInstructionType::SW, 0, SP, RA, 0),
                    mk(RiscvInstructionType::SW, 0, SP, FP, 4),
                    mk(RiscvInstructionType::ADDI, FP, SP, 0, ssa as int),
                ] + Seq::new(i as nat, |k: int| argument_load(k)),
            decreases n - i,
        {
            let ghost before = instr_list_model(pre@);
            let k = i as i32;
            if i < 8 {
                pre.push(ins(RiscvInstructionType::ADD, k + 1, A0 - k, X0, 0));
            } else {
                pre.push(ins(RiscvInstructionType::LW, k + 1, FP, 0, (k - 8) * 4));
            }
            proof {
                assert(instr_list_model(pre@) =~= before.push(argument_load(i as int)));
                assert(Seq::new((i + 1) as nat, |k: int| argument_load(k)) =~= Seq::new(
                    i as nat,
                    |k: int| argument_load(k),
                ).push(argument_load(i as int)));
                assert(instr_list_model(pre@).subrange(1, 5 + i + 1) =~= before.subrange(1, 5 + i as int).push(
                    argument_load(i as int),
                ));
            }
            i = i + 1;
        }
        let ghost body = instr_list_model(pre@).subrange(1, pre@.len() as int);
        if strs_match(name.as_str(), "init") {
            pre.insert(1, ins(RiscvInstructionType::LUI, SP, 0, 0, SP_INIT_VALUE / 4096));
            pre.insert(1, ins(RiscvInstructionType::LUI, TP, 0, 0, SP_INIT_VALUE / 8192));
            pre.push(ins(RiscvInstructionType::ADDI, GP, FP, 0, 0));
            proof {
                reveal_strlit("init");
            }
        }
        proof {
            assert(instr_list_model(pre@) =~= pre_function(name@, ssa, args.len() as nat));
        }
        pre
    }

    /// The epilogue of a function (see `post_function`).
    fn get_post_function(&self, ssa: u32) -> (r: Vec<RiscvInstruction>)
        ensures
            instr_list_model(r@) == post_function(ssa),
    {
        let mut post: Vec<RiscvInstruction> = Vec::new();
        post.push(ins(RiscvInstructionType::LW, RA, SP, 0, 0));
        post.push(ins(RiscvInstructionType::LW, FP, SP, 0, 4));
        post.push(ins(RiscvInstructionType::ADDI, SP, SP, 0, ssa as i32));
        post.push(ins(RiscvInstructionType::JAL, X0, RA, 0, 0));
        assert(instr_list_model(post@) =~= post_function(ssa));
        post
    }
}

} // verus!
