//! Parsing of programs, from their tokens to their syntax tree.

use dummy_cc::lexer::lexer::Lexer;
use dummy_cc::lexer::token::Token;
use dummy_cc::parser::parser::{parse, Parser};

fn tokens_of(text: &str) -> Vec<Token> {
    let mut l = Lexer::new(text.to_string(), false).unwrap();
    l.tokenize().unwrap()
}

fn printed(text: &str) -> String {
    let p = Parser::new(tokens_of(text), String::new());
    p.parse().ok().unwrap().to_string(0)
}

#[test]
fn parser_test_1() {
    let input = String::from(
            "
            const u32 N = (const u32)30;

            void swap(u32* a, u32* b) {
              u32 temp = *a;
              *a = *b;
              *b = temp;
            }

            void bubble_sort(u32* array, u32 n) {
              u32 i;
              u32 j;
              for(i = 0; i < n; i = i + 1) {
                for(j = i; j < n; j = j + 1) {
                  if (array[j] < array[i]) {
                    swap(&array[i], &array[j]);
                  }
                }
              }
            }

            u32** experimental_function() {
              u8 array[10];
              while(array[9] = (u8)20){
                for(;;){
                    break;
                }
                u32 daje = 80 * 20 - 32 << 21;
                if(daje){;;;;;}
              }
              return (u32**)0;
            }

            void main() {
              u32 array[N];
              bubble_sort(array, N);
            }
",
        );

        let expected = String::from(
            "const u32 N = ((const u32)30);
void swap(u32* a,u32* b){
  u32 temp = (*a);
  ((*a) = (*b));
  ((*b) = temp);
}
void bubble_sort(u32* array,u32 n){
  u32 i;
  u32 j;
  for((i = 0); (i < n); (i = (i + 1))){
    for((j = i); (j < n); (j = (j + 1))){
      if((((array)[j]) < ((array)[i]))){
        (swap)((&((array)[i])),(&((array)[j])));
      }
    }
  }
}
u32** experimental_function(){
  u8 array[10];
  while((((array)[9]) = ((u8)20))){
    for(; ; ){
      break;
    }
    u32 daje = (((80 * 20) - 32) << 21);
    if(daje){}
  }
  return ((u32**)0);
}
void main(){
  u32 array[N];
  (bubble_sort)(array,N);
}
",
        );

        let mut l = Lexer::new(input.clone(), false).unwrap();
    let tokens = l.tokenize();
    if tokens.is_none() {
        assert!(false);
    }
    let p = Parser::new(tokens.unwrap(), String::from(""));
    let ast_wrapped = p.parse();
    if ast_wrapped.is_ok() {
        assert_eq!(expected, ast_wrapped.ok().unwrap().to_string(0));
    } else {
        assert!(false);
    }
}

#[test]
fn binary_operators_group_from_the_left() {
    assert_eq!(printed("u32 x = 8 - 4 - 2;"), "u32 x = ((8 - 4) - 2);\n");
}

#[test]
fn multiplication_binds_tighter_than_addition() {
    assert_eq!(printed("u32 x = 1 + 2 * 3;"), "u32 x = (1 + (2 * 3));\n");
}

#[test]
fn empty_statements_give_no_node() {
    assert_eq!(printed("void f(){;;}"), "void f(){}\n");
}

#[test]
fn missing_semicolon_is_reported_at_the_token_found() {
    let tokens = tokens_of("u32 x = 1\nu32 y = 2;");
    match parse(&tokens) {
        Err(errors) => {
            assert_eq!(errors.len(), 1);
            assert_eq!(errors[0].position, 4);
            assert_eq!(errors[0].line_number, 2);
        },
        Ok(_) => panic!("accepted a declaration without `;`"),
    }
}

#[test]
fn empty_program_is_refused_at_end_of_file() {
    let tokens = tokens_of("");
    match parse(&tokens) {
        Err(errors) => assert_eq!(errors[0].position, 0),
        Ok(_) => panic!("accepted an empty program"),
    }
}

fn first_number(text: &str) -> Option<u64> {
    let mut l = Lexer::new(text.to_string(), false).unwrap();
    match l.tokenize() {
        Some(ts) => match &ts[0].tk {
            dummy_cc::lexer::token::Tk::IntegerLiteral(v) => Some(*v),
            _ => None,
        },
        None => None,
    }
}

#[test]
fn number_literals_lose_their_prefixes() {
    assert_eq!(first_number("00\n"), Some(0));
    assert_eq!(first_number("017\n"), Some(15));
    assert_eq!(first_number("0x1f\n"), Some(31));
    assert_eq!(first_number("0b101\n"), Some(5));
    assert_eq!(first_number("0x0x10\n"), Some(16));
    assert_eq!(first_number("0b0b1\n"), Some(1));
    assert_eq!(first_number("0xer\n"), None);
}

#[test]
fn empty_source_is_lexed() {
    let mut l = Lexer::new(String::new(), false).unwrap();
    let ts = l.tokenize().unwrap();
    assert_eq!(ts.len(), 1);
    assert!(matches!(ts[0].tk, dummy_cc::lexer::token::Tk::EOF));
}
