//! Scopes of declarations, suggestions for unknown names and checks of calls.

use dummy_cc::ast::ast_impl::{AstNode, AstNodeWrapper, SourceReference};
use dummy_cc::ast::type_wrapper::{TypeNative, TypeWrapper};
use dummy_cc::lexer::token::{Tk, Token};
use dummy_cc::parser::resolution::Resolution;
use dummy_cc::parser::similar::closest_name;
use dummy_cc::parser::symbol_table::{Declaration, SymbolTable};

fn ty(n: TypeNative) -> TypeWrapper {
    TypeWrapper { type_native: n, pointer: 0, constant: false }
}

fn variable(name: &str) -> Declaration {
    Declaration { name: name.to_string(), is_function: false, return_type: ty(TypeNative::U32), arguments: vec![] }
}

fn function(name: &str, args: Vec<TypeWrapper>) -> Declaration {
    Declaration { name: name.to_string(), is_function: true, return_type: ty(TypeNative::U32), arguments: args }
}

fn identifier(name: &str) -> AstNodeWrapper {
    AstNodeWrapper {
        node: AstNode::new_primary(&Token {
            tk: Tk::Identifier(name.to_string()),
            line_number: 1,
            last_character: 1,
            first_character: 1,
        }),
        source_ref: SourceReference::default(),
        type_ref: ty(TypeNative::U32),
    }
}

fn argument(t: TypeWrapper) -> AstNodeWrapper {
    AstNodeWrapper { node: AstNode::new_null(), source_ref: SourceReference::default(), type_ref: t }
}

#[test]
fn definitions_are_found() {
    let mut s = SymbolTable::new();
    assert_eq!(s.add_definition(&variable("alpha")), Some(()));
    assert_eq!(s.search_definition(&"alpha".to_string()), Ok(variable("alpha")));
}

#[test]
fn redefinition_is_refused() {
    let mut s = SymbolTable::new();
    assert_eq!(s.add_definition(&variable("alpha")), Some(()));
    s.add_scope();
    assert_eq!(s.add_definition(&variable("alpha")), None);
    assert_eq!(s.add_to_next_scope(&variable("alpha")), None);
}

#[test]
fn closest_name_is_suggested() {
    let mut s = SymbolTable::new();
    s.add_definition(&variable("counter"));
    s.add_definition(&variable("value"));
    assert_eq!(s.search_definition(&"countr".to_string()), Err("counter".to_string()));
    assert_eq!(s.search_definition(&"valeu".to_string()), Err("value".to_string()));
}

#[test]
fn nothing_to_suggest_in_an_empty_table() {
    let s = SymbolTable::new();
    assert_eq!(s.search_definition(&"x".to_string()), Err("".to_string()));
}

#[test]
fn closest_name_takes_the_first_at_the_smallest_distance() {
    let names = vec!["ab".to_string(), "cd".to_string(), "ef".to_string()];
    assert_eq!(closest_name(&names, &vec![3, 1, 1]), "cd".to_string());
    assert_eq!(closest_name(&names, &vec![1000, 2000, 1000]), "".to_string());
    assert_eq!(closest_name(&names, &vec![999, 2000, 5]), "ef".to_string());
}

#[test]
fn scopes_are_closed() {
    let mut s = SymbolTable::new();
    s.add_scope();
    s.add_definition(&variable("inner"));
    assert!(s.search_definition(&"inner".to_string()).is_ok());
    s.remove_scope();
    assert!(s.search_definition(&"inner".to_string()).is_err());
}

#[test]
fn pending_declarations_enter_the_next_scope() {
    let mut s = SymbolTable::new();
    assert_eq!(s.add_to_next_scope(&variable("arg")), Some(()));
    assert!(s.search_definition(&"arg".to_string()).is_err());
    s.add_scope();
    assert_eq!(s.search_definition(&"arg".to_string()), Ok(variable("arg")));
}

#[test]
fn call_checks() {
    let mut s = SymbolTable::new();
    s.add_definition(&function("f", vec![ty(TypeNative::U32), ty(TypeNative::I8)]));
    s.add_definition(&variable("v"));

    let good = vec![argument(ty(TypeNative::U32)), argument(ty(TypeNative::I8))];
    assert_eq!(s.check_procedure(&identifier("f"), &good), Ok(function("f", vec![ty(TypeNative::U32), ty(TypeNative::I8)])));

    let not_identifier = argument(ty(TypeNative::U32));
    let r = s.check_procedure(&not_identifier, &good).unwrap_err();
    assert_eq!((r.1.as_str(), r.2.as_str()), ("function identifier", "expression"));

    let r = s.check_procedure(&identifier("v"), &good).unwrap_err();
    assert_eq!((r.1.as_str(), r.2.as_str()), ("function identifier", "variable identifier"));

    let r = s.check_procedure(&identifier("f"), &vec![argument(ty(TypeNative::U32))]).unwrap_err();
    assert_eq!((r.1.as_str(), r.2.as_str()), ("2 arguments", "1"));

    let bad = vec![argument(ty(TypeNative::U32)), argument(ty(TypeNative::U16))];
    let r = s.check_procedure(&identifier("f"), &bad).unwrap_err();
    assert_eq!((r.1.as_str(), r.2.as_str()), ("type i8", "type u16"));
    assert_eq!(r.0.type_ref, ty(TypeNative::U16));
}

#[test]
fn resolution_finds_and_suggests() {
    let mut r = Resolution::new();
    r.add_scope();
    r.add_identifier(&"width".to_string());
    r.add_identifier(&"height".to_string());
    assert_eq!(r.search_identifier(&"width".to_string()), Ok(()));
    assert_eq!(r.search_identifier(&"heigth".to_string()), Err("height".to_string()));
    r.add_scope();
    r.add_identifier(&"depth".to_string());
    assert_eq!(r.search_identifier(&"depth".to_string()), Ok(()));
    r.remove_scope();
    assert_eq!(r.search_identifier(&"depth".to_string()), Err("width".to_string()));
}

#[test]
fn call_of_undeclared_name_is_refused() {
    let s = SymbolTable::new();
    let r = s.check_procedure(&identifier("nowhere"), &vec![]).unwrap_err();
    assert_eq!(r.1, "function identifier");
    assert_eq!(r.2, "undeclared identifier");
}
