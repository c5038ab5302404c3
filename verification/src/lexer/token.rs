//! Tokens of the language: keywords, brackets, operators and the token kinds produced by the
//! lexer.

use vstd::prelude::*;
use crate::text::{chars_match, chars_of, decimal, push_char, push_decimal, push_str};

verus! {

/// Keywords of the language.
#[derive(Clone, Copy, Debug, PartialEq, Eq, Structural, PartialOrd, Ord)]
pub enum Keyword {
    Return,
    If,
    Else,
    While,
    For,
    And,
    Or,
    True,
    Const,
    False,
    Continue,
    Break,
    U8,
    U16,
    U32,
    I8,
    I16,
    I32,
    Void,
}

/// The keyword spelled by `s`, if any. `int` is a synonym of `u32` and `char` of `i8`.
pub open spec fn keyword_of(s: Seq<char>) -> Option<Keyword> {
    if s == "return"@ { Some(Keyword::Return) }
    else if s == "if"@ { Some(Keyword::If) }
    else if s == "else"@ { Some(Keyword::Else) }
    else if s == "while"@ { Some(Keyword::While) }
    else if s == "for"@ { Some(Keyword::For) }
    else if s == "and"@ { Some(Keyword::And) }
    else if s == "or"@ { Some(Keyword::Or) }
    else if s == "true"@ { Some(Keyword::True) }
    else if s == "const"@ { Some(Keyword::Const) }
    else if s == "false"@ { Some(Keyword::False) }
    else if s == "continue"@ { Some(Keyword::Continue) }
    else if s == "break"@ { Some(Keyword::Break) }
    else if s == "u8"@ { Some(Keyword::U8) }
    else if s == "u16"@ { Some(Keyword::U16) }
    else if s == "u32"@ || s == "int"@ { Some(Keyword::U32) }
    else if s == "i8"@ || s == "char"@ { Some(Keyword::I8) }
    else if s == "i16"@ { Some(Keyword::I16) }
    else if s == "i32"@ { Some(Keyword::I32) }
    else if s == "void"@ { Some(Keyword::Void) }
    else { None }
}

/// The canonical spelling of a keyword.
pub open spec fn keyword_text(k: Keyword) -> Seq<char> {
    match k {
        Keyword::Return => "return"@,
        Keyword::If => "if"@,
        Keyword::Else => "else"@,
        Keyword::While => "while"@,
        Keyword::For => "for"@,
        Keyword::And => "and"@,
        Keyword::Or => "or"@,
        Keyword::True => "true"@,
        Keyword::Const => "const"@,
        Keyword::False => "false"@,
        Keyword::Continue => "continue"@,
        Keyword::Break => "break"@,
        Keyword::U8 => "u8"@,
        Keyword::U16 => "u16"@,
        Keyword::U32 => "u32"@,
        Keyword::I8 => "i8"@,
        Keyword::I16 => "i16"@,
        Keyword::I32 => "i32"@,
        Keyword::Void => "void"@,
    }
}

/// The keyword spelled by the characters of `w`, if any.
pub fn keyword_of_chars(w: &Vec<char>) -> (r: Option<Keyword>)
    ensures
        r == keyword_of(w@),
{
    if chars_match(w, "return") { Some(Keyword::Return) }
    else if chars_match(w, "if") { Some(Keyword::If) }
    else if chars_match(w, "else") { Some(Keyword::Else) }
    else if chars_match(w, "while") { Some(Keyword::While) }
    else if chars_match(w, "for") { Some(Keyword::For) }
    else if chars_match(w, "and") { Some(Keyword::And) }
    else if chars_match(w, "or") { Some(Keyword::Or) }
    else if chars_match(w, "true") { Some(Keyword::True) }
    else if chars_match(w, "const") { Some(Keyword::Const) }
    else if chars_match(w, "false") { Some(Keyword::False) }
    else if chars_match(w, "continue") { Some(Keyword::Continue) }
    else if chars_match(w, "break") { Some(Keyword::Break) }
    else if chars_match(w, "u8") { Some(Keyword::U8) }
    else if chars_match(w, "u16") { Some(Keyword::U16) }
    else if chars_match(w, "u32") || chars_match(w, "int") { Some(Keyword::U32) }
    else if chars_match(w, "i8") || chars_match(w, "char") { Some(Keyword::I8) }
    else if chars_match(w, "i16") { Some(Keyword::I16) }
    else if chars_match(w, "i32") { Some(Keyword::I32) }
    else if chars_match(w, "void") { Some(Keyword::Void) }
    else { None }
}

impl Keyword {
    /// The keyword spelled by `input`, or `None` if `input` is not a keyword.
    pub fn from(input: &str) -> (r: Option<Keyword>)
        ensures
            r == keyword_of(input@),
    {
        let w = chars_of(input);
        keyword_of_chars(&w)
    }

    /// Appends the spelling of the keyword to `s`.
    pub fn push_text(&self, s: &mut String)
        ensures
            final(s)@ == old(s)@ + keyword_text(*self),
    {
        match self {
            Keyword::Return => push_str(s, "return"),
            Keyword::If => push_str(s, "if"),
            Keyword::Else => push_str(s, "else"),
            Keyword::While => push_str(s, "while"),
            Keyword::For => push_str(s, "for"),
            Keyword::And => push_str(s, "and"),
            Keyword::Or => push_str(s, "or"),
            Keyword::True => push_str(s, "true"),
            Keyword::Const => push_str(s, "const"),
            Keyword::False => push_str(s, "false"),
            Keyword::Continue => push_str(s, "continue"),
            Keyword::Break => push_str(s, "break"),
            Keyword::U8 => push_str(s, "u8"),
            Keyword::U16 => push_str(s, "u16"),
            Keyword::U32 => push_str(s, "u32"),
            Keyword::I8 => push_str(s, "i8"),
            Keyword::I16 => push_str(s, "i16"),
            Keyword::I32 => push_str(s, "i32"),
            Keyword::Void => push_str(s, "void"),
        }
    }
}

/// Brackets of the language.
#[derive(Clone, Copy, Debug, PartialEq, Eq, Structural, PartialOrd, Ord)]
pub enum Bracket {
    LCurly,
    RCurly,
    LSquare,
    RSquare,
    LBracket,
    RBracket,
}

/// The bracket written as the single character `c`, if any.
pub open spec fn bracket_of_char(c: char) -> Option<Bracket> {
    if c == '{' { Some(Bracket::LCurly) }
    else if c == '(' { Some(Bracket::LBracket) }
    else if c == '[' { Some(Bracket::LSquare) }
    else if c == '}' { Some(Bracket::RCurly) }
    else if c == ')' { Some(Bracket::RBracket) }
    else if c == ']' { Some(Bracket::RSquare) }
    else { None }
}

/// The bracket spelled by `s`, if any.
pub open spec fn bracket_of(s: Seq<char>) -> Option<Bracket> {
    if s.len() == 1 { bracket_of_char(s[0]) } else { None }
}

/// The character of a bracket.
pub open spec fn bracket_char(b: Bracket) -> char {
    match b {
        Bracket::LCurly => '{',
        Bracket::RCurly => '}',
        Bracket::LSquare => '[',
        Bracket::RSquare => ']',
        Bracket::LBracket => '(',
        Bracket::RBracket => ')',
    }
}

/// The bracket written as the single character `c`, if any.
pub fn bracket_from_char(c: char) -> (r: Option<Bracket>)
    ensures
        r == bracket_of_char(c),
{
    if c == '{' { Some(Bracket::LCurly) }
    else if c == '(' { Some(Bracket::LBracket) }
    else if c == '[' { Some(Bracket::LSquare) }
    else if c == '}' { Some(Bracket::RCurly) }
    else if c == ')' { Some(Bracket::RBracket) }
    else if c == ']' { Some(Bracket::RSquare) }
    else { None }
}

impl Bracket {
    /// The bracket spelled by `input`, or `None` if `input` is not a bracket.
    pub fn from(input: &str) -> (r: Option<Bracket>)
        ensures
            r == bracket_of(input@),
    {
        let w = chars_of(input);
        if w.len() == 1 {
            bracket_from_char(w[0])
        } else {
            None
        }
    }

    /// The character of the bracket.
    pub fn to_char(&self) -> (c: char)
        ensures
            c == bracket_char(*self),
    {
        match self {
            Bracket::LCurly => '{',
            Bracket::RCurly => '}',
            Bracket::LSquare => '[',
            Bracket::RSquare => ']',
            Bracket::LBracket => '(',
            Bracket::RBracket => ')',
        }
    }
}

/// Operators of the language.
#[derive(Clone, Copy, Debug, PartialEq, Eq, Structural, PartialOrd, Ord)]
pub enum Operator {
    Assign,
    EqualCompare,
    DiffCompare,
    LTCompare,
    GTCompare,
    LECompare,
    GECompare,
    Minus,
    Plus,
    Asterisk,
    Slash,
    XorOp,
    AndOp,
    OrOp,
    Not,
    Complement,
    Module,
    LShift,
    RShift,
    Comma,
}

/// The operator written as the single character `c`, if any.
pub open spec fn operator_of_char(c: char) -> Option<Operator> {
    if c == '=' { Some(Operator::Assign) }
    else if c == ',' { Some(Operator::Comma) }
    else if c == '<' { Some(Operator::LTCompare) }
    else if c == '>' { Some(Operator::GTCompare) }
    else if c == '-' { Some(Operator::Minus) }
    else if c == '+' { Some(Operator::Plus) }
    else if c == '*' { Some(Operator::Asterisk) }
    else if c == '/' { Some(Operator::Slash) }
    else if c == '^' { Some(Operator::XorOp) }
    else if c == '&' { Some(Operator::AndOp) }
    else if c == '~' { Some(Operator::Complement) }
    else if c == '!' { Some(Operator::Not) }
    else if c == '|' { Some(Operator::OrOp) }
    else if c == '%' { Some(Operator::Module) }
    else { None }
}

/// The operator written as the two characters `c1` `c2`, if any.
pub open spec fn operator_of_pair(c1: char, c2: char) -> Option<Operator> {
    if c1 == '=' && c2 == '=' { Some(Operator::EqualCompare) }
    else if c1 == '!' && c2 == '=' { Some(Operator::DiffCompare) }
    else if c1 == '<' && c2 == '=' { Some(Operator::LECompare) }
    else if c1 == '>' && c2 == '=' { Some(Operator::GECompare) }
    else if c1 == '<' && c2 == '<' { Some(Operator::LShift) }
    else if c1 == '>' && c2 == '>' { Some(Operator::RShift) }
    else { None }
}

/// The operator spelled by `s`, if any.
pub open spec fn operator_of(s: Seq<char>) -> Option<Operator> {
    if s.len() == 1 {
        operator_of_char(s[0])
    } else if s.len() == 2 {
        operator_of_pair(s[0], s[1])
    } else {
        None
    }
}

/// The spelling of an operator.
pub open spec fn operator_text(o: Operator) -> Seq<char> {
    match o {
        Operator::Assign => seq!['='],
        Operator::EqualCompare => seq!['=', '='],
        Operator::DiffCompare => seq!['!', '='],
        Operator::LTCompare => seq!['<'],
        Operator::GTCompare => seq!['>'],
        Operator::LECompare => seq!['<', '='],
        Operator::GECompare => seq!['>', '='],
        Operator::Minus => seq!['-'],
        Operator::Plus => seq!['+'],
        Operator::Asterisk => seq!['*'],
        Operator::Slash => seq!['/'],
        Operator::XorOp => seq!['^'],
        Operator::AndOp => seq!['&'],
        Operator::OrOp => seq!['|'],
        Operator::Not => seq!['!'],
        Operator::Complement => seq!['~'],
        Operator::Module => seq!['%'],
        Operator::LShift => seq!['<', '<'],
        Operator::RShift => seq!['>', '>'],
        Operator::Comma => seq![','],
    }
}

/// The operator written as the single character `c`, if any.
pub fn operator_from_char(c: char) -> (r: Option<Operator>)
    ensures
        r == operator_of_char(c),
{
    if c == '=' { Some(Operator::Assign) }
    else if c == ',' { Some(Operator::Comma) }
    else if c == '<' { Some(Operator::LTCompare) }
    else if c == '>' { Some(Operator::GTCompare) }
    else if c == '-' { Some(Operator::Minus) }
    else if c == '+' { Some(Operator::Plus) }
    else if c == '*' { Some(Operator::Asterisk) }
    else if c == '/' { Some(Operator::Slash) }
    else if c == '^' { Some(Operator::XorOp) }
    else if c == '&' { Some(Operator::AndOp) }
    else if c == '~' { Some(Operator::Complement) }
    else if c == '!' { Some(Operator::Not) }
    else if c == '|' { Some(Operator::OrOp) }
    else if c == '%' { Some(Operator::Module) }
    else { None }
}

/// The operator written as the two characters `c1` `c2`, if any.
pub fn operator_from_pair(c1: char, c2: char) -> (r: Option<Operator>)
    ensures
        r == operator_of_pair(c1, c2),
{
    if c1 == '=' && c2 == '=' { Some(Operator::EqualCompare) }
    else if c1 == '!' && c2 == '=' { Some(Operator::DiffCompare) }
    else if c1 == '<' && c2 == '=' { Some(Operator::LECompare) }
    else if c1 == '>' && c2 == '=' { Some(Operator::GECompare) }
    else if c1 == '<' && c2 == '<' { Some(Operator::LShift) }
    else if c1 == '>' && c2 == '>' { Some(Operator::RShift) }
    else { None }
}

impl Operator {
    /// The operator spelled by `input`, or `None` if `input` is not an operator.
    pub fn from(input: &str) -> (r: Option<Operator>)
        ensures
            r == operator_of(input@),
    {
        let w = chars_of(input);
        if w.len() == 1 {
            operator_from_char(w[0])
        } else if w.len() == 2 {
            operator_from_pair(w[0], w[1])
        } else {
            None
        }
    }

    /// Appends the spelling of the operator to `s`.
    pub fn push_text(&self, s: &mut String)
        ensures
            final(s)@ == old(s)@ + operator_text(*self),
    {
        let ghost s0 = s@;
        match self {
            Operator::Assign => { push_char(s, '='); },
            Operator::EqualCompare => { push_char(s, '='); push_char(s, '='); },
            Operator::DiffCompare => { push_char(s, '!'); push_char(s, '='); },
            Operator::LTCompare => { push_char(s, '<'); },
            Operator::GTCompare => { push_char(s, '>'); },
            Operator::LECompare => { push_char(s, '<'); push_char(s, '='); },
            Operator::GECompare => { push_char(s, '>'); push_char(s, '='); },
            Operator::Minus => { push_char(s, '-'); },
            Operator::Plus => { push_char(s, '+'); },
            Operator::Asterisk => { push_char(s, '*'); },
            Operator::Slash => { push_char(s, '/'); },
            Operator::XorOp => { push_char(s, '^'); },
            Operator::AndOp => { push_char(s, '&'); },
            Operator::OrOp => { push_char(s, '|'); },
            Operator::Not => { push_char(s, '!'); },
            Operator::Complement => { push_char(s, '~'); },
            Operator::Module => { push_char(s, '%'); },
            Operator::LShift => { push_char(s, '<'); push_char(s, '<'); },
            Operator::RShift => { push_char(s, '>'); push_char(s, '>'); },
            Operator::Comma => { push_char(s, ','); },
        }
        assert(s@ =~= s0 + operator_text(*self));
    }
}

/// Token kinds of the language.
#[derive(Clone, Debug, PartialEq, Eq, PartialOrd, Ord)]
pub enum Tk {
    Bracket(Bracket),
    Keyword(Keyword),
    Semicolon,
    Operator(Operator),
    Identifier(String),
    IntegerLiteral(u64),
    String(String),
    Char(char),
    EOF,
    ERROR,
}

/// A token kind with its text as a sequence of characters.
pub enum TkModel {
    Bracket(Bracket),
    Keyword(Keyword),
    Semicolon,
    Operator(Operator),
    Identifier(Seq<char>),
    IntegerLiteral(u64),
    String(Seq<char>),
    Char(char),
    EOF,
    ERROR,
}

impl View for Tk {
    type V = TkModel;

    open spec fn view(&self) -> TkModel {
        match self {
            Tk::Bracket(b) => TkModel::Bracket(*b),
            Tk::Keyword(k) => TkModel::Keyword(*k),
            Tk::Semicolon => TkModel::Semicolon,
            Tk::Operator(o) => TkModel::Operator(*o),
            Tk::Identifier(s) => TkModel::Identifier(s@),
            Tk::IntegerLiteral(n) => TkModel::IntegerLiteral(*n),
            Tk::String(s) => TkModel::String(s@),
            Tk::Char(c) => TkModel::Char(*c),
            Tk::EOF => TkModel::EOF,
            Tk::ERROR => TkModel::ERROR,
        }
    }
}

/// The text by which a token kind is shown: its spelling for brackets, keywords, operators and
/// identifiers, the decimal value of an integer, a quoted string or character, and `EOF` or
/// `ERROR` for the two markers.
pub open spec fn tk_text(t: TkModel) -> Seq<char> {
    match t {
        TkModel::Bracket(b) => seq![bracket_char(b)],
        TkModel::Keyword(k) => keyword_text(k),
        TkModel::Semicolon => seq![';'],
        TkModel::Operator(o) => operator_text(o),
        TkModel::Identifier(s) => s,
        TkModel::IntegerLiteral(n) => decimal(n as nat),
        TkModel::String(s) => seq!['"'] + s + seq!['"'],
        TkModel::Char(c) => seq!['\'', c, '\''],
        TkModel::EOF => "EOF"@,
        TkModel::ERROR => "ERROR"@,
    }
}

impl Tk {
    /// A copy of the token kind.
    pub fn duplicate(&self) -> (r: Tk)
        ensures
            r == *self,
    {
        match self {
            Tk::Bracket(b) => Tk::Bracket(*b),
            Tk::Keyword(k) => Tk::Keyword(*k),
            Tk::Semicolon => Tk::Semicolon,
            Tk::Operator(o) => Tk::Operator(*o),
            Tk::Identifier(s) => Tk::Identifier(s.clone()),
            Tk::IntegerLiteral(n) => Tk::IntegerLiteral(*n),
            Tk::String(s) => Tk::String(s.clone()),
            Tk::Char(c) => Tk::Char(*c),
            Tk::EOF => Tk::EOF,
            Tk::ERROR => Tk::ERROR,
        }
    }

    /// Appends the text of the token kind to `s`.
    pub fn push_text(&self, s: &mut String)
        ensures
            final(s)@ == old(s)@ + tk_text(self@),
    {
        let ghost s0 = s@;
        match self {
            Tk::Bracket(b) => {
                push_char(s, b.to_char());
            },
            Tk::Keyword(k) => {
                k.push_text(s);
            },
            Tk::Semicolon => {
                push_char(s, ';');
            },
            Tk::Operator(o) => {
                o.push_text(s);
            },
            Tk::Identifier(id) => {
                push_str(s, id.as_str());
            },
            Tk::IntegerLiteral(n) => {
                push_decimal(s, *n);
            },
            Tk::String(t) => {
                push_char(s, '"');
                push_str(s, t.as_str());
                push_char(s, '"');
            },
            Tk::Char(c) => {
                push_char(s, '\'');
                push_char(s, *c);
                push_char(s, '\'');
            },
            Tk::EOF => {
                push_str(s, "EOF");
            },
            Tk::ERROR => {
                push_str(s, "ERROR");
            },
        }
        assert(s@ =~= s0 + tk_text(self@));
    }

    /// The text by which the token kind is shown.
    pub fn to_string(&self) -> (r: String)
        ensures
            r@ == tk_text(self@),
    {
        let mut s = String::new();
        self.push_text(&mut s);
        assert(Seq::<char>::empty() + tk_text(self@) =~= tk_text(self@));
        s
    }

    /// The identifier named by the token kind, empty when it is not an identifier.
    pub fn get_identifier(&self) -> (r: String)
        ensures
            r@ == match self@ {
                TkModel::Identifier(s) => s,
                _ => Seq::<char>::empty(),
            },
    {
        match self {
            Tk::Identifier(s) => s.clone(),
            _ => String::new(),
        }
    }
}

/// A token together with its position in the source: its line and the columns of its first and
/// last characters.
#[derive(Clone, Debug, PartialEq, Eq, PartialOrd, Ord)]
pub struct Token {
    pub tk: Tk,
    pub line_number: u32,
    pub last_character: u32,
    pub first_character: u32,
}

/// A token with its kind seen as a model.
pub struct TokenModel {
    pub tk: TkModel,
    pub line_number: u32,
    pub last_character: u32,
    pub first_character: u32,
}

impl View for Token {
    type V = TokenModel;

    open spec fn view(&self) -> TokenModel {
        TokenModel {
            tk: self.tk@,
            line_number: self.line_number,
            last_character: self.last_character,
            first_character: self.first_character,
        }
    }
}

impl Token {
    /// A copy of the token.
    pub fn duplicate(&self) -> (r: Token)
        ensures
            r == *self,
    {
        Token {
            tk: self.tk.duplicate(),
            line_number: self.line_number,
            last_character: self.last_character,
            first_character: self.first_character,
        }
    }
}


/// Spelling and reading agree: the characters of an operator's spelling read back as that
/// operator, and an operator read from some characters is spelled by exactly those characters.
pub proof fn lemma_operator_spelling(o: Operator, s: Seq<char>)
    ensures
        operator_of(operator_text(o)) == Some(o),
        operator_of(s) == Some(o) ==> operator_text(o) == s,
{
    if operator_of(s) == Some(o) {
        if s.len() == 1 {
            assert(s =~= seq![s[0]]);
        } else {
            assert(s =~= seq![s[0], s[1]]);
        }
    }
}

/// Spelling and reading agree for brackets: a bracket read from a character is spelled by it, and
/// its spelling reads back as it.
pub proof fn lemma_bracket_spelling(b: Bracket, c: char)
    ensures
        bracket_of_char(bracket_char(b)) == Some(b),
        bracket_of_char(c) == Some(b) ==> bracket_char(b) == c,
{
}

/// Spelling and reading agree for keywords: a keyword's spelling reads back as it, and a keyword
/// read from some characters is spelled by them, `int` and `char` being the other spellings of
/// `u32` and `i8`.
pub proof fn lemma_keyword_spelling(k: Keyword, s: Seq<char>)
    ensures
        keyword_of(keyword_text(k)) == Some(k),
        keyword_of(s) == Some(k) ==> s == keyword_text(k) || (k == Keyword::U32 && s == "int"@) || (k
            == Keyword::I8 && s == "char"@),
{
    reveal_strlit("return");
    reveal_strlit("if");
    reveal_strlit("else");
    reveal_strlit("while");
    reveal_strlit("for");
    reveal_strlit("and");
    reveal_strlit("or");
    reveal_strlit("true");
    reveal_strlit("const");
    reveal_strlit("false");
    reveal_strlit("continue");
    reveal_strlit("break");
    reveal_strlit("u8");
    reveal_strlit("u16");
    reveal_strlit("u32");
    reveal_strlit("int");
    reveal_strlit("i8");
    reveal_strlit("char");
    reveal_strlit("i16");
    reveal_strlit("i32");
    reveal_strlit("void");
    assert("return"@ =~= seq!['r', 'e', 't', 'u', 'r', 'n']);
    assert("if"@ =~= seq!['i', 'f']);
    assert("else"@ =~= seq!['e', 'l', 's', 'e']);
    assert("while"@ =~= seq!['w', 'h', 'i', 'l', 'e']);
    assert("for"@ =~= seq!['f', 'o', 'r']);
    assert("and"@ =~= seq!['a', 'n', 'd']);
    assert("or"@ =~= seq!['o', 'r']);
    assert("true"@ =~= seq!['t', 'r', 'u', 'e']);
    assert("const"@ =~= seq!['c', 'o', 'n', 's', 't']);
    assert("false"@ =~= seq!['f', 'a', 'l', 's', 'e']);
    assert("continue"@ =~= seq!['c', 'o', 'n', 't', 'i', 'n', 'u', 'e']);
    assert("break"@ =~= seq!['b', 'r', 'e', 'a', 'k']);
    assert("u8"@ =~= seq!['u', '8']);
    assert("u16"@ =~= seq!['u', '1', '6']);
    assert("u32"@ =~= seq!['u', '3', '2']);
    assert("int"@ =~= seq!['i', 'n', 't']);
    assert("i8"@ =~= seq!['i', '8']);
    assert("char"@ =~= seq!['c', 'h', 'a', 'r']);
    assert("i16"@ =~= seq!['i', '1', '6']);
    assert("i32"@ =~= seq!['i', '3', '2']);
    assert("void"@ =~= seq!['v', 'o', 'i', 'd']);
}

} // verus!
