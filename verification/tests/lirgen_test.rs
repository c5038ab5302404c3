//! Linearisation of small programs built by hand.

use dummy_cc::ast::ast_impl::{AstNode, AstNodeWrapper, SourceReference};
use dummy_cc::ast::type_wrapper::{TypeNative, TypeWrapper};
use dummy_cc::lexer::token::{Keyword, Operator, Tk, Token};
use dummy_cc::lirgen::irnode::IrNode;
use dummy_cc::lirgen::lirgen::Lirgen;
use dummy_cc::optimizer::optimizer::Optimizer;

fn u32_type() -> TypeWrapper {
    TypeWrapper { type_native: TypeNative::U32, pointer: 0, constant: false }
}

fn token(tk: Tk) -> Token {
    Token { tk, line_number: 1, last_character: 1, first_character: 1 }
}

fn wrap(node: AstNode) -> AstNodeWrapper {
    AstNodeWrapper { node, source_ref: SourceReference::default(), type_ref: u32_type() }
}

fn number(n: u64) -> AstNodeWrapper {
    wrap(AstNode::new_primary(&token(Tk::IntegerLiteral(n))))
}

fn ident(name: &str) -> AstNodeWrapper {
    wrap(AstNode::new_primary(&token(Tk::Identifier(name.to_string()))))
}

fn plus(a: &AstNodeWrapper, b: &AstNodeWrapper) -> AstNodeWrapper {
    wrap(AstNode::new_binary(&token(Tk::Operator(Operator::Plus)), a, b))
}

fn ret(e: &AstNodeWrapper) -> AstNodeWrapper {
    wrap(AstNode::new_jump(&token(Tk::Keyword(Keyword::Return)), e))
}

fn main_with(body: Vec<AstNodeWrapper>) -> AstNodeWrapper {
    let t = wrap(AstNode::new_type(&u32_type()));
    let block = wrap(AstNode::new_compound(&body));
    let f = wrap(AstNode::new_func_decl(&t, &token(Tk::Identifier("main".to_string())), &vec![], &block));
    wrap(AstNode::new_declaration_list(&vec![f]))
}

const INIT: &str = "\nfunction<null> init () {\n\tv0 = call<null> main()\n\n\t%L_0:\n\tj %L_0\n}\n";

#[test]
fn linearize_sum_of_constants() {
    let program = main_with(vec![ret(&plus(&number(1), &number(2)))]);
    let mut l = Lirgen::new(0);
    let ir = l.linearize_ast(&program);
    assert_eq!(
        ir.to_string(),
        format!(
            "{}{}",
            INIT,
            "\nfunction<u32> main () {\n\tv1 = <u32> $1\n\tv2 = <u32> $2\n\tv3 = add <u32> v1, v2\n\treturn<u32> v3\n}\n"
        )
    );
}

#[test]
fn constants_are_reused_from_level_one() {
    let program = main_with(vec![ret(&plus(&number(1), &number(1)))]);
    let mut l = Lirgen::new(1);
    let ir = l.linearize_ast(&program);
    assert_eq!(
        ir.to_string(),
        format!("{}{}", INIT, "\nfunction<u32> main () {\n\tv1 = <u32> $1\n\tv2 = add <u32> v1, v1\n\treturn<u32> v2\n}\n")
    );
}

#[test]
fn variables_are_loaded_at_level_zero() {
    let t = wrap(AstNode::new_type(&u32_type()));
    let decl = wrap(AstNode::new_var_decl(&t, &token(Tk::Identifier("a".to_string())), &number(5)));
    let program = main_with(vec![decl, ret(&ident("a"))]);
    let mut l = Lirgen::new(0);
    let ir = l.linearize_ast(&program);
    assert_eq!(
        ir.to_string(),
        format!(
            "{}{}",
            INIT,
            "\nfunction<u32> main () {\n\tv1 = <u32> $5\n\tv2 = alloc<u32> v1 \n\tv3 = load<u32> v2\n\treturn<u32> v3\n}\n"
        )
    );
}

#[test]
fn variables_are_cached_from_level_one() {
    let t = wrap(AstNode::new_type(&u32_type()));
    let decl = wrap(AstNode::new_var_decl(&t, &token(Tk::Identifier("a".to_string())), &number(5)));
    let program = main_with(vec![decl, ret(&ident("a"))]);
    let mut l = Lirgen::new(1);
    let ir = l.linearize_ast(&program);
    assert_eq!(
        ir.to_string(),
        format!("{}{}", INIT, "\nfunction<u32> main () {\n\tv1 = <u32> $5\n\tv2 = alloc<u32> v1 \n\treturn<u32> v1\n}\n")
    );
}

#[test]
fn linearized_program_is_optimizable() {
    let t = wrap(AstNode::new_type(&u32_type()));
    let decl = wrap(AstNode::new_var_decl(&t, &token(Tk::Identifier("a".to_string())), &number(5)));
    let program = main_with(vec![decl, ret(&number(7))]);
    let mut l = Lirgen::new(2);
    let ir = l.linearize_ast(&program);
    let mut o = Optimizer::new(2);
    let optimized = o.optimize(ir);
    assert_eq!(
        optimized.to_string(),
        format!("{}{}", INIT, "\nfunction<u32> main () {\n\tv3 = <u32> $7\n\treturn<u32> v3\n}\n")
    );
}

#[test]
fn while_loop_layout() {
    let cond = wrap(AstNode::new_binary(&token(Tk::Operator(Operator::LTCompare)), &number(1), &number(2)));
    let body = wrap(AstNode::new_compound(&vec![]));
    let w = wrap(AstNode::new_while(&cond, &body));
    let program = main_with(vec![w, ret(&number(0))]);
    let mut l = Lirgen::new(1);
    let ir = l.linearize_ast(&program);
    match ir {
        IrNode::Program(functions) => {
            assert_eq!(functions.len(), 2);
            assert_eq!(
                functions[1].to_string(),
                "\nfunction<u32> main () {\n\n\t%L_1:\n\tv1 = <u32> $1\n\tv2 = <u32> $2\n\tjge<u32> v1, v2 %L_2\n\tj %L_1\n\n\t%L_2:\n\tv3 = <u32> $0\n\treturn<u32> v3\n}\n"
            );
        },
        _ => panic!("not a program"),
    }
}

fn assert_single_assignment(ir: &IrNode) {
    match ir {
        IrNode::Program(functions) => {
            for f in functions.iter() {
                match f {
                    IrNode::FunctionDeclaration(_, _, _, body) => {
                        let mut written: Vec<u32> = vec![];
                        for n in body.iter() {
                            let d = match n {
                                IrNode::Store(..) => 0,
                                _ => n.get_dest(),
                            };
                            if d != 0 {
                                assert!(!written.contains(&d), "register v{} written twice", d);
                                written.push(d);
                            }
                        }
                    },
                    _ => panic!("not a function"),
                }
            }
        },
        _ => panic!("not a program"),
    }
}

fn assignments_program() -> AstNodeWrapper {
    let t = wrap(AstNode::new_type(&u32_type()));
    let decl = wrap(AstNode::new_var_decl(&t, &token(Tk::Identifier("a".to_string())), &number(5)));
    let assign = wrap(AstNode::new_binary(&token(Tk::Operator(Operator::Assign)), &ident("a"), &plus(&ident("a"), &number(1))));
    let stmt = wrap(AstNode::new_expr_statement(&assign));
    main_with(vec![decl, stmt, ret(&plus(&ident("a"), &ident("a")))])
}

#[test]
fn each_register_is_written_once() {
    let program = assignments_program();
    for level in 0..3 {
        let mut l = Lirgen::new(level);
        let ir = l.linearize_ast(&program);
        assert_single_assignment(&ir);
    }
}

#[test]
fn optimized_code_keeps_single_assignment() {
    let mut l = Lirgen::new(2);
    let ir = l.linearize_ast(&assignments_program());
    let mut o = Optimizer::new(2);
    let optimized = o.optimize(ir);
    assert_single_assignment(&optimized);
}

#[test]
fn linearized_program_assembles() {
    let program = main_with(vec![ret(&plus(&number(1), &number(2)))]);
    let mut l = Lirgen::new(0);
    let ir = l.linearize_ast(&program);
    let mut c = dummy_cc::backend::codegen_riscv::Codegen::new();
    let code = c.generate_code(&ir);
    for i in code.iter() {
        assert!(i.register_allocated);
        assert!(i.dest <= 17 && i.src1 <= 17 && i.src2 <= 17);
    }
    let text: Vec<String> = code.iter().map(|i| i.to_string()).collect();
    assert_eq!(text[0], "\ninit:\n");
    assert!(text.contains(&"\tjal\tra, main\n".to_string()));
    assert!(text.contains(&"L_0_0:\n".to_string()));
    assert!(text.contains(&"\nmain:\n".to_string()));
    assert!(text.contains(&"\taddi\tx0, x0, 2\n".to_string()));
    assert_eq!(text[text.len() - 1], "\tjalr\tx0, ra, 0\n");
}

#[test]
fn constants_loaded_in_a_branch_are_loaded_again_after_it() {
    let t = wrap(AstNode::new_type(&u32_type()));
    let decl_a = wrap(AstNode::new_var_decl(&t, &token(Tk::Identifier("a".to_string())), &number(0)));
    let decl_b = wrap(AstNode::new_var_decl(&t, &token(Tk::Identifier("b".to_string())), &number(20)));
    let assign = |name: &str, n: u64| {
        let e = wrap(AstNode::new_binary(&token(Tk::Operator(Operator::Assign)), &ident(name), &number(n)));
        wrap(AstNode::new_expr_statement(&e))
    };
    let cond = wrap(AstNode::new_binary(&token(Tk::Operator(Operator::GTCompare)), &ident("a"), &ident("b")));
    let then = wrap(AstNode::new_compound(&vec![assign("a", 20), assign("b", 30)]));
    let none = wrap(AstNode::new_null());
    let branch = wrap(AstNode::new_if(&cond, &then, &none));
    let program = main_with(vec![decl_a, decl_b, branch, assign("a", 30), ret(&number(0))]);
    let mut l = Lirgen::new(1);
    let ir = l.linearize_ast(&program);
    match ir {
        IrNode::Program(functions) => match &functions[1] {
            IrNode::FunctionDeclaration(_, _, _, body) => {
                let loads_of = |c: u32| body.iter().filter(|n| matches!(n, IrNode::MovC(_, _, v) if *v == c)).count();
                assert_eq!(loads_of(20), 1);
                assert_eq!(loads_of(30), 2);
            },
            _ => panic!("not a function"),
        },
        _ => panic!("not a program"),
    }
}

fn count_loads(program: &AstNodeWrapper) -> usize {
    let mut l = Lirgen::new(1);
    match l.linearize_ast(program) {
        IrNode::Program(functions) => match &functions[1] {
            IrNode::FunctionDeclaration(_, _, _, body) => body.iter().filter(|n| matches!(n, IrNode::LoadR(..))).count(),
            _ => panic!("not a function"),
        },
        _ => panic!("not a program"),
    }
}

fn decl(name: &str, value: u64) -> AstNodeWrapper {
    let t = wrap(AstNode::new_type(&u32_type()));
    wrap(AstNode::new_var_decl(&t, &token(Tk::Identifier(name.to_string())), &number(value)))
}

fn store(target: &AstNodeWrapper, value: u64) -> AstNodeWrapper {
    let e = wrap(AstNode::new_binary(&token(Tk::Operator(Operator::Assign)), target, &number(value)));
    wrap(AstNode::new_expr_statement(&e))
}

#[test]
fn variable_assigned_in_a_branch_is_read_again_after_it() {
    let cond = wrap(AstNode::new_binary(&token(Tk::Operator(Operator::GTCompare)), &ident("a"), &number(10)));
    let then = wrap(AstNode::new_compound(&vec![store(&ident("a"), 30)]));
    let branch = wrap(AstNode::new_if(&cond, &then, &wrap(AstNode::new_null())));
    let program = main_with(vec![decl("a", 0), branch, ret(&ident("a"))]);
    assert_eq!(count_loads(&program), 1);
    let untouched = main_with(vec![decl("a", 0), ret(&ident("a"))]);
    assert_eq!(count_loads(&untouched), 0);
}

#[test]
fn store_through_a_pointer_forgets_cached_variables() {
    let deref = wrap(AstNode::new_prefix(&token(Tk::Operator(Operator::Asterisk)), &ident("p")));
    let program = main_with(vec![decl("a", 5), decl("p", 0), store(&deref, 7), ret(&ident("a"))]);
    assert_eq!(count_loads(&program), 1);
    let direct = main_with(vec![decl("a", 5), decl("p", 0), store(&ident("p"), 7), ret(&ident("a"))]);
    assert_eq!(count_loads(&direct), 0);
}
