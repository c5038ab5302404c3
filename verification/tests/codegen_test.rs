//! Translation of small IR programs into RV32IM assembly.

use dummy_cc::ast::type_wrapper::{TypeNative, TypeWrapper};
use dummy_cc::backend::codegen_riscv::Codegen;
use dummy_cc::lexer::token::Operator;
use dummy_cc::lirgen::irnode::{CompareType, IrNode};

fn i32t() -> TypeWrapper {
    TypeWrapper { type_native: TypeNative::I32, pointer: 0, constant: false }
}

fn u8t() -> TypeWrapper {
    TypeWrapper { type_native: TypeNative::U8, pointer: 0, constant: false }
}

fn function(name: &str, nodes: Vec<IrNode>) -> IrNode {
    IrNode::FunctionDeclaration(name.to_string(), i32t(), vec![], nodes)
}

fn assemble(functions: Vec<IrNode>) -> Vec<String> {
    let mut c = Codegen::new();
    let code = c.generate_code(&IrNode::Program(functions));
    code.iter().map(|i| i.to_string()).collect()
}

fn preamble(name: &str, ssa: i32) -> Vec<String> {
    vec![
        format!("\n{}:\n", name),
        format!("\taddi\tsp, sp, -{}\n", ssa),
        "\tsw\tra, 0(sp)\n".to_string(),
        "\tsw\ts0, 4(sp)\n".to_string(),
        format!("\taddi\ts0, sp, {}\n", ssa),
    ]
}

fn epilogue(f: u32, ssa: i32) -> Vec<String> {
    vec![
        format!("L_{}_0:\n", f),
        "\tlw\tra, 0(sp)\n".to_string(),
        "\tlw\ts0, 4(sp)\n".to_string(),
        format!("\taddi\tsp, sp, {}\n", ssa),
        "\tjalr\tx0, ra, 0\n".to_string(),
    ]
}

fn lines(parts: Vec<Vec<String>>) -> Vec<String> {
    parts.into_iter().flatten().collect()
}

fn strs(v: &[&str]) -> Vec<String> {
    v.iter().map(|s| s.to_string()).collect()
}

#[test]
fn returns_a_constant() {
    let code = assemble(vec![function("main", vec![IrNode::MovC(i32t(), 1, 5), IrNode::Return(i32t(), 1)])]);
    let expected = lines(vec![
        preamble("main", 80),
        strs(&["\taddi\tx0, x0, 5\n", "\taddi\ta0, x0, 0\n", "\tjal\tx0, L_0_0\n"]),
        epilogue(0, 80),
    ]);
    assert_eq!(code, expected);
}

#[test]
fn constant_operand_becomes_an_immediate() {
    let code = assemble(vec![function(
        "f",
        vec![
            IrNode::MovC(i32t(), 1, 7),
            IrNode::MovC(i32t(), 2, 9),
            IrNode::Binary(Operator::Plus, i32t(), 3, 1, 2),
            IrNode::Return(i32t(), 3),
        ],
    )]);
    let expected = lines(vec![
        preamble("f", 80),
        strs(&["\taddi\tx0, x0, 7\n", "\taddi\tx0, x0, 9\n", "\taddi\ta0, x0, 0\n", "\tjal\tx0, L_0_0\n"]),
        epilogue(0, 80),
    ]);
    assert_eq!(code, expected);
}

#[test]
fn large_constant_uses_lui() {
    let code = assemble(vec![function("f", vec![IrNode::MovC(i32t(), 1, 0x12345), IrNode::Return(i32t(), 1)])]);
    let expected = lines(vec![
        preamble("f", 80),
        strs(&["\tlui\tx0, 18\n", "\taddi\tx0, x0, 837\n", "\taddi\ta0, x0, 0\n", "\tjal\tx0, L_0_0\n"]),
        epilogue(0, 80),
    ]);
    assert_eq!(code, expected);
}

#[test]
fn local_variable_lives_in_the_record() {
    let code = assemble(vec![function(
        "f",
        vec![
            IrNode::MovC(i32t(), 1, 5),
            IrNode::Alloc(i32t(), 2, 1, false, 1, false, "x".to_string()),
            IrNode::LoadR(i32t(), 3, 2),
            IrNode::Return(i32t(), 3),
        ],
    )]);
    let expected = lines(vec![
        preamble("f", 96),
        strs(&[
            "\taddi\tx0, x0, 5\n",
            "\tsw\tx0, -76(s0)\n",
            "\taddi\tx0, s0, -76\n",
            "\tlw\tx1, -76(s0)\n",
            "\taddi\ta0, x1, 0\n",
            "\tjal\tx0, L_0_0\n",
        ]),
        epilogue(0, 96),
    ]);
    assert_eq!(code, expected);
}

#[test]
fn record_slots_go_by_size() {
    let code = assemble(vec![function(
        "f",
        vec![
            IrNode::Alloc(u8t(), 1, 0, false, 1, false, "c".to_string()),
            IrNode::Alloc(i32t(), 2, 0, false, 1, false, "x".to_string()),
            IrNode::MovC(i32t(), 3, 1),
            IrNode::Store(u8t(), 1, 3),
            IrNode::Store(i32t(), 2, 3),
            IrNode::Return(i32t(), 0),
        ],
    )]);
    let expected = lines(vec![
        preamble("f", 96),
        strs(&["\taddi\tx0, x0, 1\n", "\tsb\tx0, -77(s0)\n", "\tsw\tx0, -76(s0)\n", "\tjal\tx0, L_0_0\n"]),
        epilogue(0, 96),
    ]);
    assert_eq!(code, expected);
}

#[test]
fn registers_live_across_a_call_are_saved() {
    let code = assemble(vec![function(
        "f",
        vec![
            IrNode::MovC(i32t(), 1, 1),
            IrNode::MovC(i32t(), 4, 10),
            IrNode::Call("g".to_string(), i32t(), vec![1], 3),
            IrNode::Binary(Operator::Minus, i32t(), 5, 3, 4),
            IrNode::Return(i32t(), 5),
        ],
    )]);
    let expected = lines(vec![
        preamble("f", 80),
        strs(&[
            "\taddi\tx0, x0, 1\n",
            "\taddi\tx1, x0, 10\n",
            "\taddi\ta0, x0, 0\n",
            "\tsw\tx1, -8(s0)\n",
            "\tjal\tra, g\n",
            "\tlw\tx1, -8(s0)\n",
            "\taddi\tx0, a0, 0\n",
            "\tsub\tx0, x0, x1\n",
            "\taddi\ta0, x0, 0\n",
            "\tjal\tx0, L_0_0\n",
        ]),
        epilogue(0, 80),
    ]);
    assert_eq!(code, expected);
}

#[test]
fn globals_are_reached_through_gp() {
    let init = function(
        "init",
        vec![IrNode::MovC(i32t(), 1, 3), IrNode::Alloc(i32t(), 2, 1, true, 1, false, "g".to_string())],
    );
    let main = function(
        "main",
        vec![IrNode::LoadA(i32t(), 1, "g".to_string()), IrNode::LoadR(i32t(), 2, 1), IrNode::Return(i32t(), 2)],
    );
    let code = assemble(vec![init, main]);
    let expected = lines(vec![
        strs(&[
            "\ninit:\n",
            "\tlui\ttp, 8\n",
            "\tlui\tsp, 16\n",
            "\taddi\tsp, sp, -96\n",
            "\tsw\tra, 0(sp)\n",
            "\tsw\ts0, 4(sp)\n",
            "\taddi\ts0, sp, 96\n",
            "\taddi\tgp, s0, 0\n",
            "\taddi\tx0, x0, 3\n",
            "\tsw\tx0, -76(s0)\n",
            "\taddi\tx0, s0, -76\n",
        ]),
        preamble("main", 80),
        strs(&["\taddi\tx0, gp, -76\n", "\tlw\tx0, 0(x0)\n", "\taddi\ta0, x0, 0\n", "\tjal\tx0, L_1_0\n"]),
        epilogue(1, 80),
    ]);
    assert_eq!(code, expected);
}

#[test]
fn branches_compare_by_signedness() {
    let code = assemble(vec![function(
        "f",
        vec![
            IrNode::MovC(i32t(), 1, 1),
            IrNode::MovC(i32t(), 2, 2),
            IrNode::Branch(CompareType::GT, i32t(), 1, 2, 3),
            IrNode::Label(3),
            IrNode::Return(i32t(), 0),
        ],
    )]);
    let expected = lines(vec![
        preamble("f", 80),
        strs(&[
            "\taddi\tx0, x0, 1\n",
            "\taddi\tx1, x0, 2\n",
            "\tblt\tx1, x0, L_0_3\n",
            "L_0_3:\n",
            "\tjal\tx0, L_0_0\n",
        ]),
        epilogue(0, 80),
    ]);
    assert_eq!(code, expected);
}

#[test]
fn comparison_and_cast() {
    let code = assemble(vec![function(
        "f",
        vec![
            IrNode::MovC(i32t(), 1, 1),
            IrNode::MovC(i32t(), 2, 2),
            IrNode::Binary(Operator::EqualCompare, i32t(), 3, 1, 2),
            IrNode::Cast(u8t(), i32t(), 4, 3),
            IrNode::Unary(i32t(), Operator::Minus, 5, 4),
            IrNode::Return(i32t(), 5),
        ],
    )]);
    let expected = lines(vec![
        preamble("f", 80),
        strs(&[
            "\taddi\tx0, x0, 1\n",
            "\taddi\tx1, x0, 2\n",
            "\tsub\tx0, x0, x1\n",
            "\tsltiu\tx0, x0, 1\n",
            "\tandi\tx0, x0, 255\n",
            "\tsub\tx0, x0, x0\n",
            "\taddi\ta0, x0, 0\n",
            "\tjal\tx0, L_0_0\n",
        ]),
        epilogue(0, 80),
    ]);
    assert_eq!(code, expected);
}

fn assemble_raw(functions: Vec<IrNode>) -> Vec<dummy_cc::backend::riscv_isa::RiscvInstruction> {
    let mut c = Codegen::new();
    c.generate_code(&IrNode::Program(functions))
}

#[test]
fn every_register_is_physical_even_when_spilling() {
    let mut nodes = vec![];
    for k in 1..=17u32 {
        nodes.push(IrNode::MovC(i32t(), k, 5000 + k));
    }
    let mut last = 1u32;
    for k in 2..=17u32 {
        nodes.push(IrNode::Binary(Operator::Minus, i32t(), 100 + k, last, k));
        last = 100 + k;
    }
    nodes.push(IrNode::Return(i32t(), last));
    let code = assemble_raw(vec![function("f", nodes)]);
    for i in code.iter() {
        assert!(i.register_allocated);
        assert!(i.dest <= 17 && i.src1 <= 17 && i.src2 <= 17);
    }
    let text: Vec<String> = code.iter().map(|i| i.to_string()).collect();
    assert_eq!(text[0], "\nf:\n");
    assert_eq!(text[1], "\taddi\ttp, tp, -4\n");
    assert!(text.contains(&"\tsw\tx16, 0(tp)\n".to_string()));
    assert!(text.contains(&"\tlw\tx17, 0(tp)\n".to_string()));
    assert_eq!(text[text.len() - 2], "\taddi\ttp, tp, 4\n");
    assert_eq!(text[text.len() - 1], "\tjalr\tx0, ra, 0\n");
}
