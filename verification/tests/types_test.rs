//! Types, source references and the printing of syntax trees.

use dummy_cc::ast::ast_impl::{AstNode, AstNodeWrapper, SourceReference};
use dummy_cc::ast::type_wrapper::{TypeNative, TypeWrapper};
use dummy_cc::lexer::token::{Keyword, Operator, Tk, Token};

fn token(tk: Tk, line: u32, first: u32, last: u32) -> Token {
    Token { tk, line_number: line, last_character: last, first_character: first }
}

fn node(n: AstNode) -> AstNodeWrapper {
    AstNodeWrapper { node: n, ..Default::default() }
}

#[test]
fn type_from_keywords() {
    assert_eq!(TypeNative::from_token(&token(Tk::Keyword(Keyword::U16), 1, 1, 3)), TypeNative::U16);
    assert_eq!(TypeNative::from_token(&token(Tk::Keyword(Keyword::I32), 1, 1, 3)), TypeNative::I32);
    assert_eq!(TypeNative::from_token(&token(Tk::Keyword(Keyword::Void), 1, 1, 4)), TypeNative::Void);
}

#[test]
fn type_text_and_size() {
    let t = TypeWrapper { type_native: TypeNative::U16, pointer: 0, constant: false };
    assert_eq!(t.to_string(), "u16");
    assert_eq!(t.get_size(), 2);
    let p = TypeWrapper { type_native: TypeNative::Void, pointer: 2, constant: true };
    assert_eq!(p.to_string(), "const void**");
    assert_eq!(p.get_size(), 4);
    assert_eq!(TypeWrapper::default().to_string(), "null");
    let b = TypeWrapper { type_native: TypeNative::I8, pointer: 0, constant: true };
    assert_eq!(b.get_size(), 1);
}

#[test]
fn type_compatibility() {
    let a = TypeWrapper { type_native: TypeNative::U32, pointer: 1, constant: false };
    let b = TypeWrapper { type_native: TypeNative::U32, pointer: 1, constant: true };
    let c = TypeWrapper { type_native: TypeNative::U32, pointer: 0, constant: false };
    let d = TypeWrapper { type_native: TypeNative::I32, pointer: 1, constant: false };
    assert!(TypeWrapper::are_compatible(&a, &b));
    assert!(TypeWrapper::are_compatible(&b, &a));
    assert!(!TypeWrapper::are_compatible(&a, &c));
    assert!(!TypeWrapper::are_compatible(&a, &d));
}

#[test]
fn source_references() {
    let a = SourceReference::from_token(&token(Tk::Semicolon, 3, 5, 7));
    assert_eq!(a, SourceReference { init_line: 3, init_char: 5, last_line: 3, last_char: 7 });
    let b = SourceReference { init_line: 4, init_char: 1, last_line: 6, last_char: 2 };
    let m = SourceReference::merge(&a, &b);
    assert_eq!(m, SourceReference { init_line: 3, init_char: 5, last_line: 6, last_char: 2 });
    assert_eq!(SourceReference::merge(&b, &a), m);
    let c = SourceReference { init_line: 3, init_char: 1, last_line: 3, last_char: 2 };
    assert_eq!(
        SourceReference::merge(&a, &c),
        SourceReference { init_line: 3, init_char: 1, last_line: 3, last_char: 7 }
    );
    assert_eq!(
        SourceReference::merge(&a, &a),
        SourceReference { init_line: 3, init_char: 5, last_line: 3, last_char: 7 }
    );
}

#[test]
fn printing_statements() {
    let x = node(AstNode::new_primary(&token(Tk::Identifier("x".to_string()), 1, 1, 1)));
    let one = node(AstNode::new_primary(&token(Tk::IntegerLiteral(1), 1, 1, 1)));
    let assign = node(AstNode::new_binary(&token(Tk::Operator(Operator::Assign), 1, 1, 1), &x, &one));
    let stmt = node(AstNode::new_expr_statement(&assign));
    assert_eq!(stmt.to_string(1), "  (x = 1);\n");
    let empty = node(AstNode::new_expr_statement(&node(AstNode::new_null())));
    assert_eq!(empty.to_string(0), ";\n");
    let ret = node(AstNode::new_jump(&token(Tk::Keyword(Keyword::Return), 1, 1, 6), &node(AstNode::new_null())));
    assert_eq!(ret.to_string(0), "return;\n");
    let brk = node(AstNode::new_jump(&token(Tk::Keyword(Keyword::Return), 1, 1, 6), &x));
    assert_eq!(brk.to_string(0), "return x;\n");
    let w = node(AstNode::new_while(&x, &node(AstNode::new_compound(&vec![]))));
    assert_eq!(w.to_string(0), "while(x){}\n");
    let call = node(AstNode::new_procedure(&x, &vec![one.clone(), x.clone()]));
    assert_eq!(call.to_string(0), "(x)(1,x)");
    let sel = node(AstNode::new_selector(&x, &one));
    assert_eq!(sel.to_string(0), "((x)[1])");
}

#[test]
fn printing_declarations() {
    let t = node(AstNode::new_type(&TypeWrapper { type_native: TypeNative::U8, pointer: 1, constant: false }));
    let name = token(Tk::Identifier("buf".to_string()), 1, 1, 3);
    let four = node(AstNode::new_primary(&token(Tk::IntegerLiteral(4), 1, 1, 1)));
    let arr = node(AstNode::new_array_decl(&t, &name, &four));
    assert_eq!(arr.to_string(0), "u8* buf[4];\n");
    let var = node(AstNode::new_var_decl(&t, &name, &node(AstNode::new_null())));
    assert_eq!(var.to_string(2), "    u8* buf;\n");
    let p1 = node(AstNode::new_parameter(&token(Tk::Identifier("a".to_string()), 1, 1, 1), &t));
    let p2 = node(AstNode::new_parameter(&token(Tk::Identifier("b".to_string()), 1, 1, 1), &t));
    let f = node(AstNode::new_func_decl(&t, &name, &vec![p1, p2], &node(AstNode::new_null())));
    assert_eq!(f.to_string(0), "u8* buf(u8* a,u8* b);\n");
    let list = node(AstNode::new_declaration_list(&vec![var.clone(), arr.clone()]));
    assert_eq!(list.to_string(0), "u8* buf;\nu8* buf[4];\n");
}
