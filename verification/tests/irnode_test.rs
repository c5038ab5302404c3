//! Printing of the intermediate representation, and the registers its nodes read and write.

use dummy_cc::ast::type_wrapper::{TypeNative, TypeWrapper};
use dummy_cc::lexer::token::{Operator, Tk, Token};
use dummy_cc::lirgen::irnode::{CompareType, IrNode};

fn u32_type() -> TypeWrapper {
    TypeWrapper { type_native: TypeNative::U32, pointer: 0, constant: false }
}

fn token(tk: Tk) -> Token {
    Token { tk, line_number: 1, last_character: 1, first_character: 1 }
}

#[test]
fn compare_type_from_token() {
    assert_eq!(CompareType::from_token(&token(Tk::Operator(Operator::GECompare))), Some(CompareType::GE));
    assert_eq!(CompareType::from_token(&token(Tk::Operator(Operator::LTCompare))), Some(CompareType::LT));
    assert_eq!(CompareType::from_token(&token(Tk::Operator(Operator::DiffCompare))), Some(CompareType::NE));
    assert_eq!(CompareType::from_token(&token(Tk::Operator(Operator::Plus))), None);
    assert_eq!(CompareType::from_token(&token(Tk::Semicolon)), None);
}

#[test]
fn compare_type_opposite_is_involutive() {
    let all = [
        CompareType::Always,
        CompareType::GT,
        CompareType::GE,
        CompareType::LT,
        CompareType::LE,
        CompareType::EQ,
        CompareType::NE,
        CompareType::S,
        CompareType::NS,
    ];
    for ct in all.iter() {
        assert_eq!(ct.opposite().opposite(), *ct);
    }
    assert_eq!(CompareType::GT.opposite(), CompareType::LE);
    assert_eq!(CompareType::S.opposite(), CompareType::NS);
    assert_eq!(CompareType::Always.opposite(), CompareType::Always);
}

#[test]
fn compare_type_to_string() {
    assert_eq!(CompareType::Always.to_string(), "");
    assert_eq!(CompareType::GE.to_string(), "ge");
    assert_eq!(CompareType::NS.to_string(), "ns");
}

#[test]
fn ir_dest_and_sources() {
    let t = u32_type();
    assert_eq!(IrNode::Binary(Operator::Plus, t, 7, 3, 4).get_dest(), 7);
    assert_eq!(IrNode::Binary(Operator::Plus, t, 7, 3, 4).get_src(), vec![3, 4]);
    assert_eq!(IrNode::Store(t, 5, 6).get_dest(), 5);
    assert_eq!(IrNode::Store(t, 5, 6).get_src(), vec![6]);
    assert_eq!(IrNode::Label(3).get_dest(), 0);
    assert_eq!(IrNode::Label(3).get_src(), Vec::<u32>::new());
    assert_eq!(IrNode::Call("f".to_string(), t, vec![1, 2, 3], 9).get_src(), vec![1, 2, 3]);
    assert_eq!(IrNode::Call("f".to_string(), t, vec![1, 2, 3], 9).get_dest(), 9);
    assert_eq!(IrNode::Branch(CompareType::LT, t, 1, 2, 5).get_src(), vec![1, 2]);
    assert_eq!(IrNode::Return(t, 0).get_src(), vec![0]);
}

#[test]
fn ir_to_string_instructions() {
    let t = u32_type();
    assert_eq!(IrNode::MovC(t, 3, 42).to_string(), "\tv3 = <u32> $42\n");
    assert_eq!(IrNode::Return(t, 3).to_string(), "\treturn<u32> v3\n");
    assert_eq!(IrNode::Return(t, 0).to_string(), "\treturn\n");
    assert_eq!(IrNode::Alloc(t, 2, 1, false, 1, false, String::from("a")).to_string(), "\tv2 = alloc<u32> v1 \n");
    assert_eq!(IrNode::Alloc(t, 2, 0, true, 5, true, String::from("b")).to_string(), "\tv2 = alloc<u32> [v5]  !global \n");
    assert_eq!(IrNode::Label(4).to_string(), "\n\t%L_4:\n");
    assert_eq!(IrNode::Branch(CompareType::Always, t, 0, 0, 4).to_string(), "\tj %L_4\n");
    assert_eq!(IrNode::Branch(CompareType::NS, t, 2, 0, 4).to_string(), "\tjns<u32> v2 %L_4\n");
    assert_eq!(IrNode::Branch(CompareType::LE, t, 2, 3, 4).to_string(), "\tjle<u32> v2, v3 %L_4\n");
    assert_eq!(IrNode::Binary(Operator::Asterisk, t, 5, 3, 4).to_string(), "\tv5 = mul <u32> v3, v4\n");
    assert_eq!(IrNode::Unary(t, Operator::Not, 5, 3).to_string(), "\tv5 = not<u32> v3\n");
    assert_eq!(IrNode::Store(t, 5, 3).to_string(), "\tstore<u32> v5, v3\n");
    assert_eq!(IrNode::LoadA(t, 5, "g".to_string()).to_string(), "\tv5 = load<u32> @g\n");
    assert_eq!(IrNode::LoadR(t, 5, 4).to_string(), "\tv5 = load<u32> v4\n");
    assert_eq!(
        IrNode::Call("f".to_string(), t, vec![1, 2], 3).to_string(),
        "\tv3 = call<u32> f(v1, v2)\n"
    );
    let c = TypeWrapper { type_native: TypeNative::I8, pointer: 1, constant: true };
    assert_eq!(IrNode::Cast(c, t, 2, 1).to_string(), "\tv2 = <const i8*><u32> v1\n");
}

#[test]
fn ir_to_string_program() {
    let t = u32_type();
    let f = IrNode::FunctionDeclaration(
        "f".to_string(),
        t,
        vec![t, t],
        vec![IrNode::Return(t, 1)],
    );
    let p = IrNode::Program(vec![f]);
    assert_eq!(p.to_string(), "\nfunction<u32> f (v1<u32>, v2<u32>) {\n\treturn<u32> v1\n}\n");
}
