//! The lexer with the basic vocabulary of the language: `int`, `char`, `bool` and `main`
//! are keywords, `&`, `|` and `^` are the operators `And`, `Or` and `Xor`, identifiers are made
//! of alphanumeric characters only, and a token carries the column of its last character.
//!
//! The characters are scanned as by `crate::lexer::lexer::Lexer`; only the words and the
//! operators are named differently, and `,` is not a token.

use vstd::prelude::*;
use crate::lexer::lexer::{
    count_errors, lex_from, Lexer as CoreLexer, LexerCreationError, LEXER_INPUT_LIMIT,
};
use crate::lexer::token::{
    Bracket as CoreBracket, Operator as CoreOperator, Tk as CoreTk, TkModel, TokenModel,
};
use crate::text::{chars_match, chars_of, string_of};

verus! {

/// Keywords of the language.
#[derive(Clone, Copy, Debug, PartialEq, Eq, Structural, PartialOrd, Ord)]
pub enum Keyword {
    Int,
    Main,
    Return,
    Char,
    If,
    Else,
    While,
    For,
    Bool,
    And,
    Or,
    True,
    False,
    Continue,
    Break,
}

/// The keyword spelled by `s`, if any.
pub open spec fn keyword_of(s: Seq<char>) -> Option<Keyword> {
    if s == "int"@ { Some(Keyword::Int) }
    else if s == "main"@ { Some(Keyword::Main) }
    else if s == "return"@ { Some(Keyword::Return) }
    else if s == "char"@ { Some(Keyword::Char) }
    else if s == "if"@ { Some(Keyword::If) }
    else if s == "else"@ { Some(Keyword::Else) }
    else if s == "while"@ { Some(Keyword::While) }
    else if s == "for"@ { Some(Keyword::For) }
    else if s == "bool"@ { Some(Keyword::Bool) }
    else if s == "and"@ { Some(Keyword::And) }
    else if s == "or"@ { Some(Keyword::Or) }
    else if s == "true"@ { Some(Keyword::True) }
    else if s == "false"@ { Some(Keyword::False) }
    else if s == "continue"@ { Some(Keyword::Continue) }
    else if s == "break"@ { Some(Keyword::Break) }
    else { None }
}

/// The keyword spelled by the characters of `w`, if any.
fn keyword_of_chars(w: &Vec<char>) -> (r: Option<Keyword>)
    ensures
        r == keyword_of(w@),
{
    if chars_match(w, "int") { Some(Keyword::Int) }
    else if chars_match(w, "main") { Some(Keyword::Main) }
    else if chars_match(w, "return") { Some(Keyword::Return) }
    else if chars_match(w, "char") { Some(Keyword::Char) }
    else if chars_match(w, "if") { Some(Keyword::If) }
    else if chars_match(w, "else") { Some(Keyword::Else) }
    else if chars_match(w, "while") { Some(Keyword::While) }
    else if chars_match(w, "for") { Some(Keyword::For) }
    else if chars_match(w, "bool") { Some(Keyword::Bool) }
    else if chars_match(w, "and") { Some(Keyword::And) }
    else if chars_match(w, "or") { Some(Keyword::Or) }
    else if chars_match(w, "true") { Some(Keyword::True) }
    else if chars_match(w, "false") { Some(Keyword::False) }
    else if chars_match(w, "continue") { Some(Keyword::Continue) }
    else if chars_match(w, "break") { Some(Keyword::Break) }
    else { None }
}

impl Keyword {
    /// The keyword spelled by `input`, or `None` if `input` is not a keyword.
    fn from(input: &str) -> (r: Option<Keyword>)
        ensures
            r == keyword_of(input@),
    {
        let w = chars_of(input);
        keyword_of_chars(&w)
    }
}

/// Brackets of the language.
#[derive(Clone, Copy, Debug, PartialEq, Eq, Structural, PartialOrd, Ord)]
pub enum Bracket {
    LCurly,
    RCurly,
    LSquare,
    RSquare,
    LBracket,
    RBracket,
}

/// The bracket named as in this vocabulary.
pub open spec fn bracket_of(b: CoreBracket) -> Bracket {
    match b {
        CoreBracket::LCurly => Bracket::LCurly,
        CoreBracket::RCurly => Bracket::RCurly,
        CoreBracket::LSquare => Bracket::LSquare,
        CoreBracket::RSquare => Bracket::RSquare,
        CoreBracket::LBracket => Bracket::LBracket,
        CoreBracket::RBracket => Bracket::RBracket,
    }
}

fn convert_bracket(b: CoreBracket) -> (r: Bracket)
    ensures
        r == bracket_of(b),
{
    match b {
        CoreBracket::LCurly => Bracket::LCurly,
        CoreBracket::RCurly => Bracket::RCurly,
        CoreBracket::LSquare => Bracket::LSquare,
        CoreBracket::RSquare => Bracket::RSquare,
        CoreBracket::LBracket => Bracket::LBracket,
        CoreBracket::RBracket => Bracket::RBracket,
    }
}

/// Operators of the language.
#[derive(Clone, Copy, Debug, PartialEq, Eq, Structural, PartialOrd, Ord)]
pub enum Operator {
    Assign,
    EqualCompare,
    DiffCompare,
    LTCompare,
    GTCompare,
    LECompare,
    GECompare,
    Minus,
    Plus,
    Asterisk,
    Slash,
    Xor,
    And,
    Not,
    Complement,
    Or,
    Module,
    LShift,
    RShift,
}

/// The operator named as in this vocabulary; `,` has no name here.
pub open spec fn operator_of(o: CoreOperator) -> Option<Operator> {
    match o {
        CoreOperator::Assign => Some(Operator::Assign),
        CoreOperator::EqualCompare => Some(Operator::EqualCompare),
        CoreOperator::DiffCompare => Some(Operator::DiffCompare),
        CoreOperator::LTCompare => Some(Operator::LTCompare),
        CoreOperator::GTCompare => Some(Operator::GTCompare),
        CoreOperator::LECompare => Some(Operator::LECompare),
        CoreOperator::GECompare => Some(Operator::GECompare),
        CoreOperator::Minus => Some(Operator::Minus),
        CoreOperator::Plus => Some(Operator::Plus),
        CoreOperator::Asterisk => Some(Operator::Asterisk),
        CoreOperator::Slash => Some(Operator::Slash),
        CoreOperator::XorOp => Some(Operator::Xor),
        CoreOperator::AndOp => Some(Operator::And),
        CoreOperator::OrOp => Some(Operator::Or),
        CoreOperator::Not => Some(Operator::Not),
        CoreOperator::Complement => Some(Operator::Complement),
        CoreOperator::Module => Some(Operator::Module),
        CoreOperator::LShift => Some(Operator::LShift),
        CoreOperator::RShift => Some(Operator::RShift),
        CoreOperator::Comma => None,
    }
}

fn convert_operator(o: CoreOperator) -> (r: Option<Operator>)
    ensures
        r == operator_of(o),
{
    match o {
        CoreOperator::Assign => Some(Operator::Assign),
        CoreOperator::EqualCompare => Some(Operator::EqualCompare),
        CoreOperator::DiffCompare => Some(Operator::DiffCompare),
        CoreOperator::LTCompare => Some(Operator::LTCompare),
        CoreOperator::GTCompare => Some(Operator::GTCompare),
        CoreOperator::LECompare => Some(Operator::LECompare),
        CoreOperator::GECompare => Some(Operator::GECompare),
        CoreOperator::Minus => Some(Operator::Minus),
        CoreOperator::Plus => Some(Operator::Plus),
        CoreOperator::Asterisk => Some(Operator::Asterisk),
        CoreOperator::Slash => Some(Operator::Slash),
        CoreOperator::XorOp => Some(Operator::Xor),
        CoreOperator::AndOp => Some(Operator::And),
        CoreOperator::OrOp => Some(Operator::Or),
        CoreOperator::Not => Some(Operator::Not),
        CoreOperator::Complement => Some(Operator::Complement),
        CoreOperator::Module => Some(Operator::Module),
        CoreOperator::LShift => Some(Operator::LShift),
        CoreOperator::RShift => Some(Operator::RShift),
        CoreOperator::Comma => None,
    }
}

/// Token kinds of the language.
#[derive(Clone, Debug, PartialEq, Eq, PartialOrd, Ord)]
pub enum Tk {
    Bracket(Bracket),
    Keyword(Keyword),
    Semicolon,
    Operator(Operator),
    Identifier(String),
    IntegerLiteral(u64),
    String(String),
    Char(char),
    EOF,
    ERROR,
}

/// A token kind with its text as a sequence of characters.
pub enum BasicTkModel {
    Bracket(Bracket),
    Keyword(Keyword),
    Semicolon,
    Operator(Operator),
    Identifier(Seq<char>),
    IntegerLiteral(u64),
    String(Seq<char>),
    Char(char),
    EOF,
    ERROR,
}

impl View for Tk {
    type V = BasicTkModel;

    open spec fn view(&self) -> BasicTkModel {
        match self {
            Tk::Bracket(b) => BasicTkModel::Bracket(*b),
            Tk::Keyword(k) => BasicTkModel::Keyword(*k),
            Tk::Semicolon => BasicTkModel::Semicolon,
            Tk::Operator(o) => BasicTkModel::Operator(*o),
            Tk::Identifier(s) => BasicTkModel::Identifier(s@),
            Tk::IntegerLiteral(n) => BasicTkModel::IntegerLiteral(*n),
            Tk::String(s) => BasicTkModel::String(s@),
            Tk::Char(c) => BasicTkModel::Char(*c),
            Tk::EOF => BasicTkModel::EOF,
            Tk::ERROR => BasicTkModel::ERROR,
        }
    }
}

/// A scanned token kind in this vocabulary: words become keywords or identifiers, and a `,`
/// (or anything that has no name here) is an error.
pub open spec fn basic_of(t: TkModel) -> BasicTkModel {
    match t {
        TkModel::Bracket(b) => BasicTkModel::Bracket(bracket_of(b)),
        TkModel::Keyword(_) => BasicTkModel::ERROR,
        TkModel::Semicolon => BasicTkModel::Semicolon,
        TkModel::Operator(o) => match operator_of(o) {
            Some(p) => BasicTkModel::Operator(p),
            None => BasicTkModel::ERROR,
        },
        TkModel::Identifier(w) => match keyword_of(w) {
            Some(k) => BasicTkModel::Keyword(k),
            None => BasicTkModel::Identifier(w),
        },
        TkModel::IntegerLiteral(n) => BasicTkModel::IntegerLiteral(n),
        TkModel::String(s) => BasicTkModel::String(s),
        TkModel::Char(c) => BasicTkModel::Char(c),
        TkModel::EOF => BasicTkModel::EOF,
        TkModel::ERROR => BasicTkModel::ERROR,
    }
}

/// Whether a scanned token kind has no name in this vocabulary (a `,`).
pub open spec fn is_unnamed(t: TkModel) -> bool {
    match t {
        TkModel::Operator(o) => operator_of(o) is None,
        TkModel::Keyword(_) => true,
        _ => false,
    }
}

/// The kind of a scanned token in this vocabulary.
fn convert_tk(t: &CoreTk) -> (r: Tk)
    ensures
        r@ == basic_of(t@),
{
    match t {
        CoreTk::Bracket(b) => Tk::Bracket(convert_bracket(*b)),
        CoreTk::Keyword(_) => Tk::ERROR,
        CoreTk::Semicolon => Tk::Semicolon,
        CoreTk::Operator(o) => match convert_operator(*o) {
            Some(p) => Tk::Operator(p),
            None => Tk::ERROR,
        },
        CoreTk::Identifier(w) => {
            let cs = chars_of(w.as_str());
            match keyword_of_chars(&cs) {
                Some(k) => Tk::Keyword(k),
                None => Tk::Identifier(string_of(&cs)),
            }
        },
        CoreTk::IntegerLiteral(n) => Tk::IntegerLiteral(*n),
        CoreTk::String(s) => Tk::String(s.clone()),
        CoreTk::Char(c) => Tk::Char(*c),
        CoreTk::EOF => Tk::EOF,
        CoreTk::ERROR => Tk::ERROR,
    }
}

/// A token together with its line and the column of its last character.
#[derive(Clone, Debug, PartialEq, Eq, PartialOrd, Ord)]
pub struct Token {
    pub tk: Tk,
    pub line_number: u32,
    pub character_number: u32,
}

/// A token with its kind seen as a model.
pub struct BasicTokenModel {
    pub tk: BasicTkModel,
    pub line_number: u32,
    pub character_number: u32,
}

impl View for Token {
    type V = BasicTokenModel;

    open spec fn view(&self) -> BasicTokenModel {
        BasicTokenModel { tk: self.tk@, line_number: self.line_number, character_number: self.character_number }
    }
}

/// No more tokens lose their name than there are tokens.
pub proof fn lemma_count_unnamed_len(ts: Seq<TokenModel>)
    ensures
        count_unnamed(ts) <= ts.len(),
    decreases ts.len(),
{
    if ts.len() > 0 {
        lemma_count_unnamed_len(ts.drop_last());
    }
}

/// A scanned token in this vocabulary.
pub open spec fn basic_token(t: TokenModel) -> BasicTokenModel {
    BasicTokenModel {
        tk: basic_of(t.tk),
        line_number: t.line_number,
        character_number: t.last_character,
    }
}

/// The models of a list of tokens.
pub open spec fn basic_view(v: Seq<Token>) -> Seq<BasicTokenModel> {
    v.map_values(|t: Token| t@)
}

/// The number of scanned tokens that have no name in this vocabulary.
pub open spec fn count_unnamed(ts: Seq<TokenModel>) -> nat
    decreases ts.len(),
{
    if ts.len() == 0 {
        0
    } else {
        count_unnamed(ts.drop_last()) + if is_unnamed(ts.last().tk) { 1nat } else { 0nat }
    }
}

impl Token {
    fn duplicate(&self) -> (r: Token)
        ensures
            r@ == self@,
    {
        let tk = match &self.tk {
            Tk::Bracket(b) => Tk::Bracket(*b),
            Tk::Keyword(k) => Tk::Keyword(*k),
            Tk::Semicolon => Tk::Semicolon,
            Tk::Operator(o) => Tk::Operator(*o),
            Tk::Identifier(s) => Tk::Identifier(s.clone()),
            Tk::IntegerLiteral(n) => Tk::IntegerLiteral(*n),
            Tk::String(s) => Tk::String(s.clone()),
            Tk::Char(c) => Tk::Char(*c),
            Tk::EOF => Tk::EOF,
            Tk::ERROR => Tk::ERROR,
        };
        Token { tk, line_number: self.line_number, character_number: self.character_number }
    }
}

/// The lexer in this vocabulary.
#[derive(Clone, Debug)]
pub struct Lexer {
    scanner: CoreLexer,
    lexemes_list: Vec<Token>,
    unnamed_counter: u32,
}

impl Lexer {
    /// The scanner underneath.
    pub closed spec fn scanner(&self) -> CoreLexer {
        self.scanner
    }

    /// The tokens produced so far.
    pub closed spec fn tokens(&self) -> Seq<BasicTokenModel> {
        basic_view(self.lexemes_list@)
    }

    /// The number of errors found so far: invalid tokens and tokens with no name here.
    pub closed spec fn error_count(&self) -> nat {
        self.scanner.error_count() + self.unnamed_counter as nat
    }

    /// The number of tokens found so far that have no name in this vocabulary.
    pub closed spec fn unnamed(&self) -> nat {
        self.unnamed_counter as nat
    }

    /// The lexer is consistent.
    pub closed spec fn wf(&self) -> bool {
        &&& self.scanner.wf()
        &&& !self.scanner.accepts_underscore()
    }

    /// A lexer over the text `file_name` when `is_file` is false; identifiers are made of
    /// alphanumeric characters only. Files are not read here: when `is_file` is set the result
    /// is `Err(FileInput)`.
    pub fn new(file_name: String, is_file: bool) -> (r: Result<Lexer, LexerCreationError>)
        requires
            !is_file ==> file_name@.len() < LEXER_INPUT_LIMIT,
        ensures
            is_file ==> r == Err::<Lexer, LexerCreationError>(LexerCreationError::FileInput),
            !is_file ==> (r matches Ok(l) && {
                &&& l.wf()
                &&& l.scanner().source() == file_name@
                &&& l.scanner().index() == 0
                &&& l.scanner().first() == 0
                &&& l.tokens() == Seq::<BasicTokenModel>::empty()
                &&& l.error_count() == 0
            }),
    {
        if is_file {
            return Err(LexerCreationError::FileInput);
        }
        let input_code = chars_of(file_name.as_str());
        let scanner = CoreLexer::with_words(input_code, file_name, false, false);
        let r = Lexer { scanner, lexemes_list: Vec::new(), unnamed_counter: 0 };
        assert(basic_view(r.lexemes_list@) =~= Seq::<BasicTokenModel>::empty());
        Ok(r)
    }

    /// The next token, as `crate::lexer::lexer::Lexer::get_next_token` scans it, named in this
    /// vocabulary; a token with no name here is an error and gives `None`.
    pub fn get_next_token(&mut self) -> (r: Option<Tk>)
        requires
            old(self).wf(),
            old(self).scanner().error_count() < u32::MAX,
            old(self).unnamed() < LEXER_INPUT_LIMIT,
        ensures
            final(self).wf(),
            final(self).scanner().source() == old(self).scanner().source(),
            final(self).scanner().index() == crate::lexer::lexer::scan(
                old(self).scanner().source(),
                old(self).scanner().index(),
                false,
            ).1,
            match crate::lexer::lexer::scan(old(self).scanner().source(), old(self).scanner().index(), false).0 {
                Some(m) => if is_unnamed(m) {
                    r is None
                } else {
                    r matches Some(t) && t@ == basic_of(m)
                },
                None => r is None,
            },
            final(self).error_count() == old(self).error_count() + if r is None { 1nat } else { 0nat },
            final(self).tokens() == old(self).tokens(),
    {
        let t = self.scanner.next_word_token();
        match t {
            None => None,
            Some(t) => {
                let c = convert_tk(&t);
                match c {
                    Tk::ERROR => {
                        self.unnamed_counter = self.unnamed_counter + 1;
                        None
                    },
                    _ => Some(c),
                }
            },
        }
    }

    /// Tokenize the rest of the input as `crate::lexer::lexer::Lexer::tokenize` does, naming the
    /// tokens in this vocabulary; each token carries the column of its last character. The list
    /// is returned when no error was found so far (a token with no name here counts as one),
    /// and `None` otherwise.
    pub fn tokenize(&mut self) -> (r: Option<Vec<Token>>)
        requires
            old(self).wf(),
            old(self).scanner().error_count() <= LEXER_INPUT_LIMIT,
            old(self).unnamed() <= LEXER_INPUT_LIMIT,
        ensures
            final(self).wf(),
            final(self).scanner().source() == old(self).scanner().source(),
            final(self).tokens() == old(self).tokens() + lex_from(
                old(self).scanner().source(),
                old(self).scanner().index(),
                old(self).scanner().first(),
                false,
            ).map_values(|t: TokenModel| basic_token(t)),
            final(self).error_count() == old(self).error_count() + count_errors(
                lex_from(old(self).scanner().source(), old(self).scanner().index(), old(self).scanner().first(), false),
            ) + count_unnamed(
                lex_from(old(self).scanner().source(), old(self).scanner().index(), old(self).scanner().first(), false),
            ),
            r is Some <==> final(self).error_count() == 0,
            r matches Some(v) ==> basic_view(v@) == final(self).tokens(),
    {
        let ghost raw = lex_from(self.scanner.source(), self.scanner.index(), self.scanner.first(), false);
        let start = self.scanner.token_list().len();
        let ghost before = self.scanner.tokens();
        self.scanner.run_words();
        let ghost l0 = self.lexemes_list@;
        let ghost n0 = self.unnamed_counter;
        let ghost sc = self.scanner;
        let list = self.scanner.token_list();
        let end = list.len();
        assert(crate::lexer::lexer::tokens_view(list@) == before + raw);
        assert(crate::lexer::lexer::tokens_view(list@).len() == list@.len());
        proof {
            old(self).scanner().lemma_wf();
            crate::lexer::lexer::lemma_lex_from_len(
                self.scanner.source(), old(self).scanner().index(), old(self).scanner().first(), false);
        }
        assert(start == before.len());
        assert(end == start + raw.len());
        assert(raw.subrange(0, 0) =~= Seq::<TokenModel>::empty());
        assert(basic_view(self.lexemes_list@) =~= basic_view(l0) + raw.subrange(0, 0).map_values(
            |t: TokenModel| basic_token(t)));
        let mut i = start;
        while i < end
            invariant
                start <= i <= end,
                end == list@.len(),
                end == start + raw.len(),
                start == before.len(),
                crate::lexer::lexer::tokens_view(list@) == before + raw,
                self.scanner == sc,
                self.scanner.wf(),
                !self.scanner.accepts_underscore(),
                n0 <= LEXER_INPUT_LIMIT,
                self.unnamed_counter == n0 + count_unnamed(raw.subrange(0, i - start)),
                raw.len() <= LEXER_INPUT_LIMIT + 3,
                basic_view(self.lexemes_list@) == basic_view(l0) + raw.subrange(0, i - start).map_values(
                    |t: TokenModel| basic_token(t),
                ),
            decreases end - i,
        {
            let tok = &list[i];
            assert(crate::lexer::lexer::tokens_view(list@)[i as int] == list@[i as int]@);
            assert(list@[i as int]@ == raw[i - start]);
            let c = convert_tk(&tok.tk);
            proof {
                lemma_count_unnamed_len(raw.subrange(0, i - start));
            }
            let ghost sub = raw.subrange(0, i - start);
            let ghost sub1 = raw.subrange(0, i + 1 - start);
            assert(sub1.drop_last() =~= sub);
            if is_comma(&tok.tk) {
                self.unnamed_counter = self.unnamed_counter + 1;
            }
            let t = Token { tk: c, line_number: tok.line_number, character_number: tok.last_character };
            let ghost lv = self.lexemes_list@;
            self.lexemes_list.push(t);
            assert(self.lexemes_list@ == lv.push(t));
            assert(basic_view(self.lexemes_list@) =~= basic_view(lv).push(t@));
            assert(sub1.map_values(|t: TokenModel| basic_token(t)) =~= sub.map_values(
                |t: TokenModel| basic_token(t),
            ).push(basic_token(raw[i - start])));
            i = i + 1;
        }
        assert(raw.subrange(0, end - start) =~= raw);
        if self.scanner.errors_found() == 0 && self.unnamed_counter == 0 {
            Some(copy_basic(&self.lexemes_list))
        } else {
            None
        }
    }
}

/// Whether a scanned token kind has no name in this vocabulary.
fn is_comma(t: &CoreTk) -> (b: bool)
    ensures
        b == is_unnamed(t@),
{
    match t {
        CoreTk::Operator(CoreOperator::Comma) => true,
        CoreTk::Keyword(_) => true,
        _ => false,
    }
}

/// A copy of a list of tokens.
fn copy_basic(v: &Vec<Token>) -> (r: Vec<Token>)
    ensures
        basic_view(r@) == basic_view(v@),
{
    let mut r: Vec<Token> = Vec::new();
    let mut i: usize = 0;
    while i < v.len()
        invariant
            i <= v.len(),
            basic_view(r@) == basic_view(v@).subrange(0, i as int),
        decreases v.len() - i,
    {
        let t = v[i].duplicate();
        let ghost r0 = r@;
        r.push(t);
        assert(r@ == r0.push(t));
        assert(basic_view(r@) =~= basic_view(r0).push(t@));
        i = i + 1;
        assert(basic_view(r@) =~= basic_view(v@).subrange(0, i as int));
    }
    assert(basic_view(v@).subrange(0, i as int) =~= basic_view(v@));
    r
}

} // verus!
