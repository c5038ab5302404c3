//! The generator with list caches, on small programs built by hand.

use dummy_cc::ast::ast_impl::{AstNode, AstNodeWrapper, SourceReference};
use dummy_cc::ast::type_wrapper::{TypeNative, TypeWrapper};
use dummy_cc::lexer::token::{Keyword, Operator, Tk, Token};
use dummy_cc::lirgen::irnode::IrNode;
use dummy_cc::lirgen::lirgen_impl::Lirgen;

fn u32_type() -> TypeWrapper {
    TypeWrapper { type_native: TypeNative::U32, pointer: 0, constant: false }
}

fn token(tk: Tk) -> Token {
    Token { tk, line_number: 1, last_character: 1, first_character: 1 }
}

fn wrap(node: AstNode) -> AstNodeWrapper {
    AstNodeWrapper { node, source_ref: SourceReference::default(), type_ref: u32_type() }
}

fn number(n: u64) -> AstNodeWrapper {
    wrap(AstNode::new_primary(&token(Tk::IntegerLiteral(n))))
}

fn ident(name: &str) -> AstNodeWrapper {
    wrap(AstNode::new_primary(&token(Tk::Identifier(name.to_string()))))
}

fn binary(op: Operator, a: &AstNodeWrapper, b: &AstNodeWrapper) -> AstNodeWrapper {
    wrap(AstNode::new_binary(&token(Tk::Operator(op)), a, b))
}

fn ret(e: &AstNodeWrapper) -> AstNodeWrapper {
    wrap(AstNode::new_jump(&token(Tk::Keyword(Keyword::Return)), e))
}

fn decl(name: &str, value: u64) -> AstNodeWrapper {
    let t = wrap(AstNode::new_type(&u32_type()));
    wrap(AstNode::new_var_decl(&t, &token(Tk::Identifier(name.to_string())), &number(value)))
}

fn store(target: &AstNodeWrapper, value: u64) -> AstNodeWrapper {
    wrap(AstNode::new_expr_statement(&binary(Operator::Assign, target, &number(value))))
}

fn function(name: &str, body: Vec<AstNodeWrapper>) -> AstNodeWrapper {
    let t = wrap(AstNode::new_type(&u32_type()));
    let block = wrap(AstNode::new_compound(&body));
    wrap(AstNode::new_func_decl(&t, &token(Tk::Identifier(name.to_string())), &vec![], &block))
}

fn program(functions: Vec<AstNodeWrapper>) -> AstNodeWrapper {
    wrap(AstNode::new_declaration_list(&functions))
}

fn empty_loop() -> AstNodeWrapper {
    let cond = binary(Operator::LTCompare, &number(1), &number(2));
    wrap(AstNode::new_while(&cond, &wrap(AstNode::new_compound(&vec![]))))
}

fn function_bodies(ir: &IrNode) -> Vec<Vec<IrNode>> {
    match ir {
        IrNode::Program(functions) => functions
            .iter()
            .map(|f| match f {
                IrNode::FunctionDeclaration(_, _, _, body) => body.clone(),
                _ => panic!("not a function"),
            })
            .collect(),
        _ => panic!("not a program"),
    }
}

const INIT: &str = "\nfunction<null> init () {\n\tv0 = call<null> main()\n\n\t%L_0:\n\tj %L_0\n}\n";

#[test]
fn list_generator_reuses_constants() {
    let p = program(vec![function("main", vec![ret(&binary(Operator::Plus, &number(1), &number(1)))])]);
    let mut l = Lirgen::new();
    let ir = l.linearize_ast(&p);
    assert_eq!(
        ir.to_string(),
        format!("{}{}", INIT, "\nfunction<u32> main () {\n\tv1 = <u32> $1\n\tv2 = add <u32> v1, v1\n\treturn<u32> v2\n}\n")
    );
}

#[test]
fn list_generator_reuses_computed_operations() {
    let sum = binary(Operator::Plus, &number(1), &number(2));
    let swapped = binary(Operator::Plus, &number(2), &number(1));
    let p = program(vec![function("main", vec![ret(&binary(Operator::Minus, &sum, &swapped))])]);
    let mut l = Lirgen::new();
    let ir = l.linearize_ast(&p);
    assert_eq!(
        ir.to_string(),
        format!(
            "{}{}",
            INIT,
            "\nfunction<u32> main () {\n\tv1 = <u32> $1\n\tv2 = <u32> $2\n\tv3 = add <u32> v1, v2\n\tv4 = sub <u32> v3, v3\n\treturn<u32> v4\n}\n"
        )
    );
}

#[test]
fn list_generator_caches_variables() {
    let p = program(vec![function("main", vec![decl("a", 5), ret(&ident("a"))])]);
    let mut l = Lirgen::new();
    let ir = l.linearize_ast(&p);
    assert_eq!(
        ir.to_string(),
        format!("{}{}", INIT, "\nfunction<u32> main () {\n\tv1 = <u32> $5\n\tv2 = alloc<u32> v1 \n\treturn<u32> v1\n}\n")
    );
}

#[test]
fn loop_forgets_the_constants_it_loaded() {
    let p = program(vec![function("main", vec![empty_loop(), ret(&number(1))])]);
    let mut l = Lirgen::new();
    let ir = l.linearize_ast(&p);
    let functions = function_bodies(&ir);
    assert_eq!(functions.len(), 2);
    match &ir {
        IrNode::Program(fs) => assert_eq!(
            fs[1].to_string(),
            "\nfunction<u32> main () {\n\n\t%L_1:\n\tv1 = <u32> $1\n\tv2 = <u32> $2\n\tjge<u32> v1, v2 %L_2\n\tj %L_1\n\n\t%L_2:\n\tv3 = <u32> $1\n\treturn<u32> v3\n}\n"
        ),
        _ => panic!("not a program"),
    }
}

#[test]
fn labels_restart_in_each_function() {
    let p = program(vec![function("f", vec![empty_loop(), ret(&number(0))]), function("main", vec![empty_loop(), ret(&number(0))])]);
    let mut l = Lirgen::new();
    let ir = l.linearize_ast(&p);
    let bodies = function_bodies(&ir);
    assert_eq!(bodies.len(), 3);
    for body in &bodies[1..] {
        assert!(matches!(body[0], IrNode::Label(1)));
    }
}

#[test]
fn variable_assigned_in_a_branch_is_loaded_after_it() {
    let cond = binary(Operator::GTCompare, &ident("a"), &number(10));
    let then = wrap(AstNode::new_compound(&vec![store(&ident("a"), 30)]));
    let branch = wrap(AstNode::new_if(&cond, &then, &wrap(AstNode::new_null())));
    let p = program(vec![function("main", vec![decl("a", 0), branch, ret(&ident("a"))])]);
    let mut l = Lirgen::new();
    let bodies = function_bodies(&l.linearize_ast(&p));
    let loads = bodies[1].iter().filter(|n| matches!(n, IrNode::LoadR(..))).count();
    assert_eq!(loads, 1);
}

#[test]
fn call_keeps_cached_values() {
    let callee = wrap(AstNode::new_primary(&token(Tk::Identifier("g".to_string()))));
    let call = wrap(AstNode::new_expr_statement(&wrap(AstNode::new_procedure(&callee, &vec![]))));
    let p = program(vec![function("main", vec![decl("a", 5), call, ret(&ident("a"))])]);
    let mut l = Lirgen::new();
    let bodies = function_bodies(&l.linearize_ast(&p));
    let loads = bodies[1].iter().filter(|n| matches!(n, IrNode::LoadR(..))).count();
    assert_eq!(loads, 0);
    assert!(bodies[1].iter().any(|n| matches!(n, IrNode::Call(name, _, args, 3) if name == "g" && args.is_empty())));
}

#[test]
fn prefix_plus_is_computed() {
    let e = wrap(AstNode::new_prefix(&token(Tk::Operator(Operator::Plus)), &number(4)));
    let p = program(vec![function("main", vec![ret(&e)])]);
    let mut l = Lirgen::new();
    let bodies = function_bodies(&l.linearize_ast(&p));
    assert_eq!(bodies[1].iter().filter(|n| matches!(n, IrNode::Unary(..))).count(), 1);
}

#[test]
fn globals_are_declared_in_init() {
    let p = program(vec![decl("g", 3), function("main", vec![ret(&number(0))])]);
    let mut l = Lirgen::new();
    let bodies = function_bodies(&l.linearize_ast(&p));
    assert!(bodies[0].iter().any(|n| matches!(n, IrNode::Alloc(_, _, _, true, _, _, name) if name == "g")));
}

fn assert_each_register_written_once(ir: &IrNode) {
    for body in function_bodies(ir) {
        let mut written: Vec<u32> = vec![];
        for n in body.iter() {
            let d = match n {
                IrNode::Store(..) => 0,
                _ => n.get_dest(),
            };
            if d != 0 {
                assert!(!written.contains(&d), "register v{} written twice", d);
                written.push(d);
            }
        }
    }
}

#[test]
fn list_generator_writes_each_register_once() {
    let assign = wrap(AstNode::new_expr_statement(&binary(
        Operator::Assign,
        &ident("a"),
        &binary(Operator::Plus, &ident("a"), &number(1)),
    )));
    let cond = binary(Operator::GTCompare, &ident("a"), &number(10));
    let then = wrap(AstNode::new_compound(&vec![store(&ident("a"), 30)]));
    let branch = wrap(AstNode::new_if(&cond, &then, &wrap(AstNode::new_null())));
    let body = vec![decl("a", 5), assign, branch, empty_loop(), ret(&binary(Operator::Plus, &ident("a"), &ident("a")))];
    let p = program(vec![decl("g", 1), function("f", vec![ret(&number(2))]), function("main", body)]);
    let mut l = Lirgen::new();
    let ir = l.linearize_ast(&p);
    assert_each_register_written_once(&ir);
}

#[test]
fn list_program_is_optimizable() {
    let p = program(vec![function("main", vec![decl("a", 5), ret(&number(7))])]);
    let mut l = Lirgen::new();
    let ir = l.linearize_ast(&p);
    let mut o = dummy_cc::optimizer::optimizer::Optimizer::new(2);
    let optimized = o.optimize(ir);
    assert_eq!(
        optimized.to_string(),
        format!("{}{}", INIT, "\nfunction<u32> main () {\n\tv3 = <u32> $7\n\treturn<u32> v3\n}\n")
    );
}
