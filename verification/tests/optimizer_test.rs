//! Dead code removal and control flow removal on small programs.

use dummy_cc::ast::type_wrapper::{TypeNative, TypeWrapper};
use dummy_cc::lexer::token::Operator;
use dummy_cc::lirgen::irnode::{CompareType, IrNode};
use dummy_cc::optimizer::optimizer::Optimizer;

fn t() -> TypeWrapper {
    TypeWrapper { type_native: TypeNative::U32, pointer: 0, constant: false }
}

fn function(name: &str, nodes: Vec<IrNode>) -> IrNode {
    IrNode::FunctionDeclaration(name.to_string(), t(), vec![], nodes)
}

#[test]
fn dead_code_is_removed() {
    let nodes = vec![
        IrNode::MovC(t(), 1, 10),
        IrNode::MovC(t(), 2, 20),
        IrNode::Binary(Operator::Plus, t(), 3, 1, 1),
        IrNode::Return(t(), 3),
    ];
    let mut o = Optimizer::new(2);
    let r = o.optimize(IrNode::Program(vec![function("main", nodes)]));
    let expected = IrNode::Program(vec![function(
        "main",
        vec![IrNode::MovC(t(), 1, 10), IrNode::Binary(Operator::Plus, t(), 3, 1, 1), IrNode::Return(t(), 3)],
    )]);
    assert_eq!(r, expected);
}

#[test]
fn jump_to_next_label_is_removed() {
    let nodes = vec![
        IrNode::MovC(t(), 1, 1),
        IrNode::Branch(CompareType::Always, t(), 0, 0, 5),
        IrNode::Label(5),
        IrNode::Return(t(), 1),
    ];
    let mut o = Optimizer::new(2);
    let r = o.optimize(IrNode::Program(vec![function("main", nodes)]));
    let expected = IrNode::Program(vec![function("main", vec![IrNode::MovC(t(), 1, 1), IrNode::Return(t(), 1)])]);
    assert_eq!(r, expected);
}

#[test]
fn jump_over_labels_to_its_target_is_removed() {
    let nodes = vec![
        IrNode::Branch(CompareType::Always, t(), 0, 0, 6),
        IrNode::Label(5),
        IrNode::Label(6),
        IrNode::Return(t(), 0),
    ];
    let mut o = Optimizer::new(2);
    let r = o.optimize(IrNode::Program(vec![function("main", nodes)]));
    let expected = IrNode::Program(vec![function("main", vec![IrNode::Label(5), IrNode::Return(t(), 0)])]);
    assert_eq!(r, expected);
}

#[test]
fn jump_over_code_is_kept() {
    let nodes = vec![
        IrNode::MovC(t(), 1, 1),
        IrNode::Branch(CompareType::NS, t(), 1, 0, 5),
        IrNode::Call("f".to_string(), t(), vec![], 0),
        IrNode::Label(5),
        IrNode::Return(t(), 0),
    ];
    let mut o = Optimizer::new(2);
    let input = IrNode::Program(vec![function("main", nodes)]);
    let r = o.optimize(input.clone());
    assert_eq!(r, input);
}

#[test]
fn init_is_left_alone() {
    let nodes = vec![IrNode::MovC(t(), 1, 10), IrNode::Return(t(), 0)];
    let mut o = Optimizer::new(2);
    let input = IrNode::Program(vec![function("init", nodes)]);
    let r = o.optimize(input.clone());
    assert_eq!(r, input);
}

#[test]
fn stores_to_non_local_addresses_are_kept() {
    let nodes = vec![
        IrNode::MovC(t(), 1, 4096),
        IrNode::MovC(t(), 2, 7),
        IrNode::Store(t(), 1, 2),
        IrNode::Alloc(t(), 3, 2, false, 1, false, String::from("x")),
        IrNode::Store(t(), 3, 2),
        IrNode::Return(t(), 0),
    ];
    let mut o = Optimizer::new(2);
    let r = o.optimize(IrNode::Program(vec![function("main", nodes)]));
    let expected = IrNode::Program(vec![function(
        "main",
        vec![
            IrNode::MovC(t(), 1, 4096),
            IrNode::MovC(t(), 2, 7),
            IrNode::Store(t(), 1, 2),
            IrNode::Return(t(), 0),
        ],
    )]);
    assert_eq!(r, expected);
}

#[test]
fn optimizer_front_agrees() {
    let nodes = vec![
        IrNode::MovC(t(), 1, 10),
        IrNode::MovC(t(), 2, 20),
        IrNode::Return(t(), 1),
    ];
    let input = IrNode::Program(vec![function("main", nodes)]);
    let mut a = Optimizer::new(2);
    let mut b = dummy_cc::optimizer::optimizer_impl::Optimizer::new(2);
    assert_eq!(a.optimize(input.clone()), b.optimize(input));
}

#[test]
fn optimizing_twice_changes_nothing_more() {
    let nodes = vec![
        IrNode::MovC(t(), 1, 1),
        IrNode::MovC(t(), 2, 9),
        IrNode::Branch(CompareType::Always, t(), 0, 0, 6),
        IrNode::Label(5),
        IrNode::Label(6),
        IrNode::Binary(Operator::Plus, t(), 3, 1, 1),
        IrNode::Return(t(), 3),
    ];
    let mut o = Optimizer::new(2);
    let once = o.optimize(IrNode::Program(vec![function("main", nodes)]));
    let twice = o.optimize(once.clone());
    assert_eq!(twice, once);
    let expected = IrNode::Program(vec![function(
        "main",
        vec![
            IrNode::MovC(t(), 1, 1),
            IrNode::Label(5),
            IrNode::Binary(Operator::Plus, t(), 3, 1, 1),
            IrNode::Return(t(), 3),
        ],
    )]);
    assert_eq!(once, expected);
}
