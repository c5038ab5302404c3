//! The lexer: turns the characters of a source file into a list of tokens.
//!
//! The lexer walks the input one character at a time. Its position is an index into the input;
//! the line and column of a position are determined by the input alone (`line_at`, `col_at`).
//! Reading past the last character yields `'\0'`, the end-of-input marker.

use vstd::prelude::*;
use crate::lexer::token::{
    bracket_from_char, bracket_of_char, keyword_of, keyword_of_chars, operator_from_char,
    operator_from_pair, operator_of_char, operator_of_pair, operator_text, Tk, TkModel, Token, TokenModel,
};
use crate::text::{
    is_alphabetic, is_alphanumeric, is_numeric, is_unicode_alphabetic, is_unicode_numeric,
    is_unicode_whitespace, is_whitespace, lemma_subrange_push, string_of,
};

verus! {

/// Inputs are limited so that positions always fit the `u32` fields of a token.
pub const LEXER_INPUT_LIMIT: usize = 0x4000_0000;

/// The character at index `i`, or `'\0'` past the end of the input.
pub open spec fn char_at(s: Seq<char>, i: int) -> char {
    if 0 <= i < s.len() { s[i] } else { '\0' }
}

/// The line (counted from 1) of index `i`.
pub open spec fn line_at(s: Seq<char>, i: int) -> int
    decreases i,
{
    if i <= 0 {
        1
    } else {
        line_at(s, i - 1) + if char_at(s, i - 1) == '\n' { 1int } else { 0int }
    }
}

/// The column (counted from 1) of index `i` within its line.
pub open spec fn col_at(s: Seq<char>, i: int) -> int
    decreases i,
{
    if i <= 0 {
        1
    } else if char_at(s, i - 1) == '\n' {
        1
    } else {
        col_at(s, i - 1) + 1
    }
}

/// Whether `c` may continue an identifier (`_` counts when `underscore` is set).
pub open spec fn is_word_char(c: char, underscore: bool) -> bool {
    is_unicode_alphabetic(c) || is_unicode_numeric(c) || (underscore && c == '_')
}

/// Whether `c` is skipped as blank space.
pub open spec fn is_blank(c: char) -> bool {
    is_unicode_whitespace(c) && c != '\0'
}

/// The first index from `i` on that is not blank space.
pub open spec fn skip_ws(s: Seq<char>, i: int) -> int
    decreases s.len() - i,
{
    if 0 <= i < s.len() && is_blank(s[i]) {
        skip_ws(s, i + 1)
    } else {
        i
    }
}

/// The first index from `i` on that is neither blank space nor inside a `//` comment; a comment
/// runs up to the end of its line. `in_comment` tells whether index `i` is inside a comment.
pub open spec fn skip_blank(s: Seq<char>, i: int, in_comment: bool) -> int
    decreases s.len() - i, if in_comment { 1int } else { 0int },
{
    if i < 0 || i >= s.len() {
        i
    } else if in_comment {
        if s[i] == '\n' {
            skip_blank(s, i, false)
        } else {
            skip_blank(s, i + 1, true)
        }
    } else if is_blank(s[i]) {
        skip_blank(s, i + 1, false)
    } else if i + 1 < s.len() && s[i] == '/' && s[i + 1] == '/' {
        skip_blank(s, i + 1, true)
    } else {
        i
    }
}

/// The index of the last character of the word starting at `k`.
pub open spec fn word_end(s: Seq<char>, k: int, underscore: bool) -> int
    decreases s.len() - k,
{
    if 0 <= k && k + 1 < s.len() && is_word_char(s[k + 1], underscore) {
        word_end(s, k + 1, underscore)
    } else {
        k
    }
}

/// Scanning a string literal from index `k`: whether it is closed by `"` before a new line or
/// the end of the input, and the index where the scan stops.
pub open spec fn string_end(s: Seq<char>, k: int) -> (bool, int)
    decreases s.len() - k,
{
    if k < 0 || k >= s.len() {
        (false, k)
    } else if s[k] == '"' {
        (true, k)
    } else if s[k] == '\n' {
        (false, k)
    } else {
        string_end(s, k + 1)
    }
}

/// `w` without the prefix `p`, when it starts with it; one prefix only is removed.
pub open spec fn trim_prefix(w: Seq<char>, p: Seq<char>) -> Seq<char> {
    if w.len() >= p.len() && w.subrange(0, p.len() as int) == p {
        w.skip(p.len() as int)
    } else {
        w
    }
}

/// `w` with every leading repetition of the prefix `p` removed.
pub open spec fn trim_repeated(w: Seq<char>, p: Seq<char>) -> Seq<char>
    decreases w.len(),
{
    if p.len() > 0 && w.len() >= p.len() && w.subrange(0, p.len() as int) == p {
        trim_repeated(w.skip(p.len() as int), p)
    } else {
        w
    }
}

/// The value of a digit in bases up to 36 (`0`-`9`, then `a`-`z` or `A`-`Z`).
pub open spec fn digit_value(c: char) -> Option<nat> {
    if '0' <= c && c <= '9' {
        Some((c as int - '0' as int) as nat)
    } else if 'a' <= c && c <= 'z' {
        Some((c as int - 'a' as int + 10) as nat)
    } else if 'A' <= c && c <= 'Z' {
        Some((c as int - 'A' as int + 10) as nat)
    } else {
        None
    }
}

/// The value of the digits `t` in base `r`, if each is a digit of that base.
pub open spec fn digits_value(t: Seq<char>, r: nat) -> Option<nat>
    decreases t.len(),
{
    if t.len() == 0 {
        Some(0)
    } else {
        match (digits_value(t.drop_last(), r), digit_value(t.last())) {
            (Some(v), Some(d)) => if d < r { Some(v * r + d) } else { None },
            _ => None,
        }
    }
}

/// The number written by the digits `t` in base `r`: `None` when `t` is empty, holds a character
/// that is no digit of the base, or denotes a value that does not fit in 64 bits.
pub open spec fn parse_radix(t: Seq<char>, r: nat) -> Option<u64> {
    if t.len() == 0 {
        None
    } else {
        match digits_value(t, r) {
            Some(v) => if v <= u64::MAX { Some(v as u64) } else { None },
            None => None,
        }
    }
}

/// The value of a number literal: hexadecimal when it holds an `x` (after dropping every
/// leading `0x`), binary when it holds a `b` (after dropping every leading `0b`), octal when it
/// starts with `0` and has more than one character (after dropping that `0`), decimal otherwise.
pub open spec fn number_value(w: Seq<char>) -> Option<u64> {
    if w.contains('x') {
        parse_radix(trim_repeated(w, seq!['0', 'x']), 16)
    } else if w.contains('b') {
        parse_radix(trim_repeated(w, seq!['0', 'b']), 2)
    } else if w.len() > 1 && w[0] == '0' {
        parse_radix(trim_prefix(w, seq!['0']), 8)
    } else {
        parse_radix(w, 10)
    }
}

/// The base in which a number literal is read: 16 with an `x`, 2 with a `b`, 8 with a leading
/// `0` followed by more digits, else 10 (as in `number_value`).
pub open spec fn number_base(w: Seq<char>) -> u32 {
    if w.contains('x') {
        16
    } else if w.contains('b') {
        2
    } else if w.len() > 1 && w[0] == '0' {
        8
    } else {
        10
    }
}

/// Scanning one token whose first character is at index `j`: the token found (`None` for an
/// invalid one) and the index of the last character it covers. Words are returned as
/// identifiers; `classify` later recognises keywords.
pub open spec fn scan(s: Seq<char>, j: int, underscore: bool) -> (Option<TkModel>, int) {
    let c = char_at(s, j);
    if c == '\0' {
        (Some(TkModel::EOF), j)
    } else if c == ';' {
        (Some(TkModel::Semicolon), j)
    } else if bracket_of_char(c) is Some {
        (Some(TkModel::Bracket(bracket_of_char(c)->0)), j)
    } else if operator_of_char(c) is Some {
        match operator_of_pair(c, char_at(s, j + 1)) {
            Some(o) => (Some(TkModel::Operator(o)), j + 1),
            None => (Some(TkModel::Operator(operator_of_char(c)->0)), j),
        }
    } else if c == '"' {
        if j + 1 >= s.len() {
            (None, j + 1)
        } else {
            let (closed, k) = string_end(s, j + 2);
            if closed {
                (Some(TkModel::String(s.subrange(j + 1, k))), k)
            } else {
                (None, k)
            }
        }
    } else if c == '\'' {
        let c1 = char_at(s, j + 1);
        if c1 == '\n' {
            (None, j + 1)
        } else if char_at(s, j + 2) != '\'' {
            (None, j + 2)
        } else {
            (Some(TkModel::Char(c1)), j + 2)
        }
    } else if is_unicode_alphabetic(c) || (underscore && c == '_') {
        let k = word_end(s, j, underscore);
        (Some(TkModel::Identifier(s.subrange(j, k + 1))), k)
    } else if is_unicode_numeric(c) {
        let k = word_end(s, j, false);
        match number_value(s.subrange(j, k + 1)) {
            Some(v) => (Some(TkModel::IntegerLiteral(v)), k),
            None => (None, k),
        }
    } else {
        (None, j)
    }
}

/// A scanned word becomes a keyword when it spells one.
pub open spec fn classify(t: TkModel) -> TkModel {
    match t {
        TkModel::Identifier(w) => match keyword_of(w) {
            Some(k) => TkModel::Keyword(k),
            None => TkModel::Identifier(w),
        },
        _ => t,
    }
}

/// A token model with its kind classified.
pub open spec fn classify_token(t: TokenModel) -> TokenModel {
    TokenModel { tk: classify(t.tk), ..t }
}

/// The tokens produced from index `i` to the end of the input, the end-of-file token last.
/// `first` is the first column of the previous token, which the end-of-file token repeats.
/// Words are left unclassified.
pub open spec fn lex_from(s: Seq<char>, i: int, first: u32, underscore: bool) -> Seq<TokenModel>
    decreases s.len() + 2 - i,
{
    if i < 0 || i >= s.len() {
        seq![TokenModel {
            tk: TkModel::EOF,
            line_number: line_at(s, i) as u32,
            last_character: col_at(s, i) as u32,
            first_character: first,
        }]
    } else {
        let j = skip_blank(s, i, false);
        let f = col_at(s, j) as u32;
        let (t, k) = scan(s, j, underscore);
        proof {
            lemma_skip_blank_ge(s, i, false);
            lemma_scan_ge(s, j, underscore);
            assert(i <= j <= k <= s.len() + 1);
        }
        let rest = lex_from(s, k + 1, f, underscore);
        match t {
            Some(TkModel::EOF) => rest,
            _ => seq![
                TokenModel {
                    tk: match t {
                        Some(m) => m,
                        None => TkModel::ERROR,
                    },
                    line_number: line_at(s, k) as u32,
                    last_character: col_at(s, k) as u32,
                    first_character: f,
                },
            ] + rest,
        }
    }
}

/// The number of error tokens in a list of tokens.
pub open spec fn count_errors(ts: Seq<TokenModel>) -> nat
    decreases ts.len(),
{
    if ts.len() == 0 {
        0
    } else {
        count_errors(ts.drop_last()) + if ts.last().tk is ERROR { 1nat } else { 0nat }
    }
}

/// The models of a list of tokens.
pub open spec fn tokens_view(v: Seq<Token>) -> Seq<TokenModel> {
    v.map_values(|t: Token| t@)
}

/// Skipping blanks and comments never moves back, and stops at the end of the input.
pub proof fn lemma_skip_blank_ge(s: Seq<char>, i: int, c: bool)
    ensures
        skip_blank(s, i, c) >= i,
        i >= 0 ==> skip_blank(s, i, c) <= if i > s.len() { i } else { s.len() as int },
    decreases s.len() - i, if c { 1int } else { 0int },
{
    if i < 0 || i >= s.len() {
    } else if c {
        if s[i] == '\n' {
            lemma_skip_blank_ge(s, i, false);
        } else {
            lemma_skip_blank_ge(s, i + 1, true);
        }
    } else if is_blank(s[i]) {
        lemma_skip_blank_ge(s, i + 1, false);
    } else if i + 1 < s.len() && s[i] == '/' && s[i + 1] == '/' {
        lemma_skip_blank_ge(s, i + 1, true);
    }
}

/// The end of a word is at or after its start, inside the input, every character up to it is a
/// word character, and the next one is not.
pub proof fn lemma_word_end(s: Seq<char>, k: int, u: bool)
    ensures
        word_end(s, k, u) >= k,
        0 <= k < s.len() ==> word_end(s, k, u) < s.len(),
        forall|m: int| k < m <= word_end(s, k, u) ==> is_word_char(#[trigger] s[m], u),
        0 <= k ==> !(word_end(s, k, u) + 1 < s.len() && is_word_char(s[word_end(s, k, u) + 1], u)),
    decreases s.len() - k,
{
    if 0 <= k && k + 1 < s.len() && is_word_char(s[k + 1], u) {
        lemma_word_end(s, k + 1, u);
    }
}

/// The end of a string literal is at or after its start, and within the input.
pub proof fn lemma_string_end(s: Seq<char>, k: int)
    ensures
        string_end(s, k).1 >= k,
        k >= 0 ==> string_end(s, k).1 <= if k > s.len() { k } else { s.len() as int },
    decreases s.len() - k,
{
    if k < 0 || k >= s.len() {
    } else if s[k] == '"' || s[k] == '\n' {
    } else {
        lemma_string_end(s, k + 1);
    }
}

/// Scanning a token never moves back, and goes at most one past the end of the input.
pub proof fn lemma_scan_ge(s: Seq<char>, j: int, u: bool)
    ensures
        scan(s, j, u).1 >= j,
        j >= 0 ==> scan(s, j, u).1 <= if j >= s.len() { j } else { s.len() as int + 1 },
{
    lemma_word_end(s, j, u);
    lemma_word_end(s, j, false);
    lemma_string_end(s, j + 2);
}

/// Line and column numbers start at 1 and are at most one more than the position.
pub proof fn lemma_positions(s: Seq<char>, i: int)
    ensures
        1 <= line_at(s, i) <= if i < 0 { 1 } else { i + 1 },
        1 <= col_at(s, i) <= if i < 0 { 1 } else { i + 1 },
    decreases i,
{
    if i > 0 {
        lemma_positions(s, i - 1);
    }
}


/// Skipping white space never moves back, stays within the input, is idempotent, and leaves
/// the same place for the skipping of blanks and comments.
pub proof fn lemma_skip_ws(s: Seq<char>, i: int)
    ensures
        skip_ws(s, i) >= i,
        i >= 0 ==> skip_blank(s, skip_ws(s, i), false) == skip_blank(s, i, false),
        skip_ws(s, skip_ws(s, i)) == skip_ws(s, i),
        0 <= i <= s.len() ==> skip_ws(s, i) <= s.len(),
    decreases s.len() - i,
{
    if 0 <= i < s.len() && is_blank(s[i]) {
        lemma_skip_ws(s, i + 1);
    }
}

/// A prefix that is not a number in base `r` makes the whole text none either; when both are
/// numbers, the prefix's value is at most the whole's.
pub proof fn lemma_digits_prefix(t: Seq<char>, r: nat, k: int)
    requires
        0 <= k <= t.len(),
        r >= 1,
    ensures
        digits_value(t.subrange(0, k), r) is None ==> digits_value(t, r) is None,
        digits_value(t.subrange(0, k), r) is Some && digits_value(t, r) is Some
            ==> digits_value(t.subrange(0, k), r)->0 <= digits_value(t, r)->0,
    decreases t.len() - k,
{
    if k < t.len() {
        lemma_digits_prefix(t, r, k + 1);
        let a = t.subrange(0, k + 1);
        assert(a.drop_last() =~= t.subrange(0, k));
        if let (Some(v), Some(d)) = (digits_value(a.drop_last(), r), digit_value(a.last())) {
            if d < r {
                assert(v * r + d >= v) by (nonlinear_arith)
                    requires
                        r >= 1,
                        d >= 0,
                        v >= 0,
                ;
            }
        }
    } else {
        assert(t.subrange(0, k) =~= t);
    }
}

/// Lexing from a position gives at least one token (the end of file) and at most one per
/// remaining character plus one.
pub proof fn lemma_lex_from_len(s: Seq<char>, i: int, f: u32, u: bool)
    ensures
        lex_from(s, i, f, u).len() <= if 0 <= i < s.len() { s.len() - i + 1 } else { 1 },
        lex_from(s, i, f, u).len() >= 1,
    decreases s.len() + 2 - i,
{
    if 0 <= i < s.len() {
        let j = skip_blank(s, i, false);
        let (t, k) = scan(s, j, u);
        lemma_skip_blank_ge(s, i, false);
        lemma_scan_ge(s, j, u);
        lemma_lex_from_len(s, k + 1, col_at(s, j) as u32, u);
    }
}

/// A single token counts as an error exactly when it is the error token.
pub proof fn lemma_count_errors_single(t: TokenModel)
    ensures
        count_errors(seq![t]) == if t.tk is ERROR { 1nat } else { 0nat },
{
    assert(seq![t].drop_last() =~= Seq::<TokenModel>::empty());
    reveal_with_fuel(count_errors, 2);
}

/// The errors of two token lists put together are the errors of each, added.
pub proof fn lemma_count_errors_append(a: Seq<TokenModel>, b: Seq<TokenModel>)
    ensures
        count_errors(a + b) == count_errors(a) + count_errors(b),
    decreases b.len(),
{
    if b.len() == 0 {
        assert(a + b =~= a);
    } else {
        lemma_count_errors_append(a, b.drop_last());
        assert((a + b).drop_last() =~= a + b.drop_last());
    }
}

/// The kinds of errors the lexer reports.
#[derive(Clone, Copy, Debug, PartialEq, Eq, Structural)]
pub enum LexErrorKind {
    /// A string literal not closed before the end of its line.
    UnclosedString,
    /// A character literal not made of one character between quotes.
    MalformedCharacter,
    /// A number literal that cannot be read in its base (the base is given).
    InvalidNumber(u32),
    /// A character that starts no token.
    InvalidCharacter,
}

/// An error found by the lexer, with the position where it was found and the text of the
/// offending number, if any.
#[derive(Clone, Debug)]
pub struct LexError {
    pub kind: LexErrorKind,
    pub text: String,
    pub line_number: u32,
    pub character_number: u32,
    pub first_character: u32,
}

/// Why a lexer could not be created.
#[derive(Clone, Debug, PartialEq, Eq, Structural)]
pub enum LexerCreationError {
    /// The lexer was asked to read a file itself; files are read by the caller, which hands the
    /// characters to `Lexer::from_source`.
    FileInput,
}

/// The lexer: the input, the position reached, the tokens produced so far and the errors found.
#[derive(Clone, Debug)]
pub struct Lexer {
    input_code: Vec<char>,
    current_index: usize,
    current_char: char,
    lexemes_list: Vec<Token>,
    current_line_number: u32,
    current_character_number: u32,
    errors_counter: u32,
    file_name: String,
    is_file: bool,
    current_first_character: u32,
    errors: Vec<LexError>,
    underscore: bool,
}

/// The models of a list of tokens, with words classified as keywords when `c` is set.
pub open spec fn classified(ts: Seq<TokenModel>, c: bool) -> Seq<TokenModel> {
    if c { ts.map_values(|t: TokenModel| classify_token(t)) } else { ts }
}

/// A copy of a list of tokens.
pub fn copy_tokens(v: &Vec<Token>) -> (r: Vec<Token>)
    ensures
        tokens_view(r@) == tokens_view(v@),
{
    let mut r: Vec<Token> = Vec::new();
    let mut i: usize = 0;
    while i < v.len()
        invariant
            i <= v.len(),
            tokens_view(r@) == tokens_view(v@).subrange(0, i as int),
        decreases v.len() - i,
    {
        let t = v[i].duplicate();
        let ghost r0 = r@;
        r.push(t);
        assert(r@ == r0.push(t));
        assert(tokens_view(r@) =~= tokens_view(r0).push(t@));
        i = i + 1;
        assert(tokens_view(r@) =~= tokens_view(v@).subrange(0, i as int));
    }
    assert(tokens_view(v@).subrange(0, i as int) =~= tokens_view(v@));
    r
}

impl Lexer {
    /// The characters being lexed.
    pub closed spec fn source(&self) -> Seq<char> {
        self.input_code@
    }

    /// The index of the character under examination.
    pub closed spec fn index(&self) -> int {
        self.current_index as int
    }

    /// The tokens produced so far.
    pub closed spec fn tokens(&self) -> Seq<TokenModel> {
        tokens_view(self.lexemes_list@)
    }

    /// The number of errors found so far.
    pub closed spec fn error_count(&self) -> nat {
        self.errors_counter as nat
    }

    /// The column of the first character of the last token scanned.
    pub closed spec fn first(&self) -> u32 {
        self.current_first_character
    }

    /// Whether identifiers may hold `_`.
    pub closed spec fn accepts_underscore(&self) -> bool {
        self.underscore
    }

    /// The name of the file being lexed.
    pub closed spec fn file_name(&self) -> Seq<char> {
        self.file_name@
    }

    /// Whether the input comes from a file.
    pub closed spec fn from_file(&self) -> bool {
        self.is_file
    }

    /// The lexer's state is consistent: the current character, line and column are those of the
    /// current index, and the error log matches the error count.
    pub closed spec fn wf(&self) -> bool {
        &&& self.input_code.len() < LEXER_INPUT_LIMIT
        &&& self.current_index <= self.input_code.len() + 2
        &&& self.current_char == char_at(self.input_code@, self.current_index as int)
        &&& self.current_line_number as int == line_at(self.input_code@, self.current_index as int)
        &&& self.current_character_number as int == col_at(
            self.input_code@,
            self.current_index as int,
        )
        &&& self.errors_counter as int == self.errors@.len()
    }

    /// What a consistent lexer guarantees of its position and input.
    pub proof fn lemma_wf(&self)
        requires
            self.wf(),
        ensures
            0 <= self.index() <= self.source().len() + 2,
            0 < self.source().len() || self.source().len() == 0,
            self.source().len() < LEXER_INPUT_LIMIT,
    {
    }

    /// Everything but the position and the current first column is the same in both lexers.
    pub open spec fn same_input(&self, other: &Lexer) -> bool {
        &&& self.source() == other.source()
        &&& self.accepts_underscore() == other.accepts_underscore()
        &&& self.file_name() == other.file_name()
        &&& self.from_file() == other.from_file()
    }

    /// A lexer over the given characters, positioned on the first one.
    pub(crate) fn with_words(
        input_code: Vec<char>,
        file_name: String,
        is_file: bool,
        underscore: bool,
    ) -> (r: Lexer)
        requires
            input_code.len() < LEXER_INPUT_LIMIT,
        ensures
            r.wf(),
            r.source() == input_code@,
            r.index() == 0,
            r.tokens() == Seq::<TokenModel>::empty(),
            r.error_count() == 0,
            r.first() == 0,
            r.accepts_underscore() == underscore,
            r.file_name() == file_name@,
            r.from_file() == is_file,
    {
        let c = if input_code.len() > 0 {
            input_code[0]
        } else {
            '\0'
        };
        let r = Lexer {
            current_char: c,
            input_code,
            current_index: 0,
            lexemes_list: Vec::new(),
            current_line_number: 1,
            current_character_number: 1,
            errors_counter: 0,
            file_name,
            is_file,
            current_first_character: 0,
            errors: Vec::new(),
            underscore: underscore,
        };
        assert(tokens_view(r.lexemes_list@) =~= Seq::<TokenModel>::empty());
        r
    }

    /// A lexer over the characters of a source; identifiers may hold `_`. `file_name` and
    /// `is_file` tell where the characters come from, for the error messages.
    pub fn from_source(input_code: Vec<char>, file_name: String, is_file: bool) -> (r: Lexer)
        requires
            input_code.len() < LEXER_INPUT_LIMIT,
        ensures
            r.wf(),
            r.source() == input_code@,
            r.index() == 0,
            r.tokens() == Seq::<TokenModel>::empty(),
            r.error_count() == 0,
            r.first() == 0,
            r.accepts_underscore(),
            r.file_name() == file_name@,
            r.from_file() == is_file,
    {
        Lexer::with_words(input_code, file_name, is_file, true)
    }

    /// A lexer over the text `file_name` when `is_file` is false. Files are not read here: when
    /// `is_file` is set the result is `Err(FileInput)`, and the caller reads the file and uses
    /// `from_source`.
    pub fn new(file_name: String, is_file: bool) -> (r: Result<Lexer, LexerCreationError>)
        requires
            !is_file ==> file_name@.len() < LEXER_INPUT_LIMIT,
        ensures
            is_file ==> r == Err::<Lexer, LexerCreationError>(LexerCreationError::FileInput),
            !is_file ==> (r matches Ok(l) && {
                &&& l.wf()
                &&& l.source() == file_name@
                &&& l.index() == 0
                &&& l.tokens() == Seq::<TokenModel>::empty()
                &&& l.error_count() == 0
                &&& l.first() == 0
                &&& l.accepts_underscore()
                &&& l.file_name() == file_name@
                &&& !l.from_file()
            }),
    {
        if is_file {
            return Err(LexerCreationError::FileInput);
        }
        let input_code = crate::text::chars_of(file_name.as_str());
        Ok(Lexer::with_words(input_code, file_name, false, true))
    }

    /// The errors found so far, in order.
    pub fn errors(&self) -> (r: &Vec<LexError>)
        ensures
            r@.len() == self.error_count() || !self.wf(),
    {
        &self.errors
    }

    /// The character at `index`, or `'\0'` past the end of the input.
    fn get_char(&self, index: usize) -> (c: char)
        ensures
            c == char_at(self.input_code@, index as int),
    {
        if index < self.input_code.len() {
            self.input_code[index]
        } else {
            '\0'
        }
    }

    /// Move to the next character, updating line and column.
    fn advance_index(&mut self)
        requires
            old(self).wf(),
            old(self).current_index <= old(self).input_code.len() + 1,
        ensures
            final(self).wf(),
            final(self).same_input(old(self)),
            final(self).index() == old(self).index() + 1,
            final(self).tokens() == old(self).tokens(),
            final(self).error_count() == old(self).error_count(),
            final(self).first() == old(self).first(),
            final(self).errors@ == old(self).errors@,
    {
        proof {
            lemma_positions(self.input_code@, self.current_index as int);
            lemma_positions(self.input_code@, self.current_index as int + 1);
        }
        self.current_index += 1;
        self.current_character_number += 1;
        if self.current_char == '\n' {
            self.current_line_number += 1;
            self.current_character_number = 1;
        }
        if self.current_index >= self.input_code.len() {
            self.current_char = '\0';
        } else {
            self.current_char = self.get_char(self.current_index);
        }
    }

    /// Skip blank characters.
    fn skip_whitespaces(&mut self)
        requires
            old(self).wf(),
        ensures
            final(self).wf(),
            final(self).same_input(old(self)),
            final(self).index() == skip_ws(old(self).source(), old(self).index()),
            final(self).tokens() == old(self).tokens(),
            final(self).error_count() == old(self).error_count(),
            final(self).first() == old(self).first(),
            final(self).errors@ == old(self).errors@,
    {
        let ghost s = self.input_code@;
        let ghost target = skip_ws(s, self.current_index as int);
        while is_whitespace(self.current_char) && self.current_char != '\0'
            invariant
                self.wf(),
                self.same_input(old(self)),
                self.input_code@ == s,
                skip_ws(s, self.current_index as int) == target,
                self.tokens() == old(self).tokens(),
                self.error_count() == old(self).error_count(),
                self.first() == old(self).first(),
                self.errors@ == old(self).errors@,
            decreases s.len() + 2 - self.current_index,
        {
            self.advance_index();
        }
    }

    /// Skip `//` comments and the blank characters around them. The current character must
    /// not be blank.
    fn skip_comments(&mut self)
        requires
            old(self).wf(),
            skip_ws(old(self).source(), old(self).index()) == old(self).index(),
        ensures
            final(self).wf(),
            final(self).same_input(old(self)),
            final(self).index() == skip_blank(old(self).source(), old(self).index(), false),
            final(self).tokens() == old(self).tokens(),
            final(self).error_count() == old(self).error_count(),
            final(self).first() == old(self).first(),
            final(self).errors@ == old(self).errors@,
    {
        let ghost s = self.input_code@;
        let ghost target = skip_blank(s, self.current_index as int, false);
        loop
            invariant
                self.wf(),
                self.same_input(old(self)),
                self.input_code@ == s,
                skip_blank(s, self.current_index as int, false) == target,
                skip_ws(s, self.current_index as int) == self.current_index as int,
                self.tokens() == old(self).tokens(),
                self.error_count() == old(self).error_count(),
                self.first() == old(self).first(),
                self.errors@ == old(self).errors@,
            ensures
                self.current_index == target,
            decreases s.len() + 2 - self.current_index,
        {
            if self.current_char == '/' && self.current_index + 1 < self.input_code.len()
                && self.get_char(self.current_index + 1) == '/' {
                let ghost i = self.current_index as int;
                proof {
                    lemma_skip_ws(s, i + 1);
                }
                assert(skip_blank(s, i, false) == skip_blank(s, i + 1, true));
                self.advance_index();
                while self.current_index < self.input_code.len() && self.current_char != '\n'
                    invariant
                        self.wf(),
                        self.same_input(old(self)),
                        self.input_code@ == s,
                        skip_blank(s, self.current_index as int, true) == target,
                        i < self.current_index <= s.len(),
                        self.tokens() == old(self).tokens(),
                        self.error_count() == old(self).error_count(),
                        self.first() == old(self).first(),
                        self.errors@ == old(self).errors@,
                    decreases s.len() - self.current_index,
                {
                    self.advance_index();
                }
                let ghost j = self.current_index as int;
                assert(skip_blank(s, j, false) == target);
                proof {
                    lemma_skip_ws(s, j);
                }
                self.skip_whitespaces();
            } else {
                proof {
                    lemma_skip_ws(s, self.current_index as int + 1);
                }
                break;
            }
        }
    }

    /// Record an error at the current position.
    fn lexer_error(&mut self, kind: LexErrorKind, text: String)
        requires
            old(self).wf(),
            old(self).error_count() < u32::MAX,
        ensures
            final(self).wf(),
            final(self).same_input(old(self)),
            final(self).index() == old(self).index(),
            final(self).tokens() == old(self).tokens(),
            final(self).error_count() == old(self).error_count() + 1,
            final(self).first() == old(self).first(),
    {
        self.errors_counter += 1;
        let e = LexError {
            kind,
            text,
            line_number: self.current_line_number,
            character_number: self.current_character_number,
            first_character: self.current_first_character,
        };
        self.errors.push(e);
    }

    /// Read a word starting at the current character: it goes on while the next character is
    /// alphanumeric (or `_`, when `underscore` is set).
    fn read_word(&mut self, underscore: bool) -> (w: Vec<char>)
        requires
            old(self).wf(),
            old(self).current_index < old(self).input_code.len(),
        ensures
            final(self).wf(),
            final(self).same_input(old(self)),
            final(self).index() == word_end(old(self).source(), old(self).index(), underscore),
            w@ == old(self).source().subrange(old(self).index(), final(self).index() + 1),
            final(self).tokens() == old(self).tokens(),
            final(self).error_count() == old(self).error_count(),
            final(self).first() == old(self).first(),
            final(self).errors@ == old(self).errors@,
    {
        let ghost s = self.input_code@;
        let ghost j = self.current_index as int;
        let ghost target = word_end(s, j, underscore);
        let mut w: Vec<char> = Vec::new();
        w.push(self.input_code[self.current_index]);
        assert(w@ =~= s.subrange(j, j + 1));
        while self.current_index + 1 < self.input_code.len() && (is_alphanumeric(
            self.input_code[self.current_index + 1],
        ) || (underscore && self.input_code[self.current_index + 1] == '_'))
            invariant
                self.wf(),
                self.same_input(old(self)),
                self.input_code@ == s,
                0 <= j <= self.current_index < s.len(),
                j == old(self).index(),
                word_end(s, self.current_index as int, underscore) == target,
                w@ == s.subrange(j, self.current_index + 1),
                self.tokens() == old(self).tokens(),
                self.error_count() == old(self).error_count(),
                self.first() == old(self).first(),
                self.errors@ == old(self).errors@,
            decreases s.len() - self.current_index,
        {
            let ghost w0 = w@;
            let ghost m = self.current_index as int;
            assert(j <= m);
            self.advance_index();
            assert(self.current_index as int == m + 1);
            assert(self.current_char == s[self.current_index as int]);
            w.push(self.current_char);
            assert(w@ == w0.push(s[self.current_index as int]));
            let ghost n = self.current_index as int;
            assert(n < s.len());
            proof {
                lemma_subrange_push(s, j, n);
            }
        }
        w
    }

    /// Read the characters of a string literal, the opening quote already passed. The first
    /// character is always taken; then characters are taken up to a closing quote (success) or
    /// a new line or the end of the input (failure).
    fn read_string(&mut self) -> (r: Option<Vec<char>>)
        requires
            old(self).wf(),
        ensures
            final(self).wf(),
            final(self).same_input(old(self)),
            old(self).index() >= old(self).source().len() ==> r is None && final(self).index()
                == old(self).index(),
            old(self).index() < old(self).source().len() ==> ({
                let (closed, k) = string_end(old(self).source(), old(self).index() + 1);
                &&& final(self).index() == k
                &&& closed ==> (r matches Some(w) && w@ == old(self).source().subrange(
                    old(self).index(),
                    k,
                ))
                &&& !closed ==> r is None
            }),
            final(self).tokens() == old(self).tokens(),
            final(self).error_count() == old(self).error_count(),
            final(self).first() == old(self).first(),
            final(self).errors@ == old(self).errors@,
    {
        if self.current_index >= self.input_code.len() {
            return None;
        }
        let ghost s = self.input_code@;
        let ghost p = self.current_index as int;
        let ghost target = string_end(s, p + 1);
        let mut w: Vec<char> = Vec::new();
        w.push(self.current_char);
        assert(w@ =~= s.subrange(p, p + 1));
        loop
            invariant
                self.wf(),
                self.same_input(old(self)),
                self.input_code@ == s,
                0 <= p <= self.current_index < s.len(),
                p == old(self).index(),
                s == old(self).source(),
                target == string_end(s, p + 1),
                string_end(s, self.current_index + 1) == target,
                w@ == s.subrange(p, self.current_index + 1),
                self.tokens() == old(self).tokens(),
                self.error_count() == old(self).error_count(),
                self.first() == old(self).first(),
                self.errors@ == old(self).errors@,
            decreases s.len() - self.current_index,
        {
            self.advance_index();
            if self.current_index >= self.input_code.len() {
                assert(string_end(s, self.current_index as int) == (false, self.current_index as int));
                return None;
            }
            let c = self.current_char;
            assert(c == s[self.current_index as int]);
            if c == '"' {
                assert(string_end(s, self.current_index as int) == (true, self.current_index as int));
                return Some(w);
            }
            if c == '\n' {
                assert(string_end(s, self.current_index as int) == (false, self.current_index as int));
                return None;
            }
            assert(string_end(s, self.current_index as int) == string_end(s, self.current_index + 1));
            let ghost w0 = w@;
            w.push(c);
            assert(w@ == w0.push(c));
            assert(w@ =~= s.subrange(p, self.current_index + 1));
        }
    }

    /// Scan one token whose first character is the current one. Words are classified as
    /// keywords when `classify` is set. An invalid token is reported as an error and gives
    /// `None`.
    fn scan_token(&mut self, keywords: bool) -> (r: Option<Tk>)
        requires
            old(self).wf(),
            old(self).error_count() < u32::MAX,
        ensures
            final(self).wf(),
            final(self).same_input(old(self)),
            final(self).index() == scan(
                old(self).source(),
                old(self).index(),
                old(self).accepts_underscore(),
            ).1,
            match scan(old(self).source(), old(self).index(), old(self).accepts_underscore()).0 {
                Some(m) => r matches Some(t) && t@ == if keywords { classify(m) } else { m },
                None => r is None,
            },
            final(self).error_count() == old(self).error_count() + if r is None { 1nat } else { 0nat },
            final(self).tokens() == old(self).tokens(),
            final(self).first() == old(self).first(),
    {
        let ghost s = self.input_code@;
        let ghost j = self.current_index as int;
        let c = self.current_char;
        if c == '\0' {
            return Some(Tk::EOF);
        }
        if c == ';' {
            return Some(Tk::Semicolon);
        }
        match bracket_from_char(c) {
            Some(b) => {
                return Some(Tk::Bracket(b));
            },
            None => {},
        }
        match operator_from_char(c) {
            Some(op) => {
                let c2 = self.get_char(self.current_index + 1);
                match operator_from_pair(c, c2) {
                    Some(o2) => {
                        self.advance_index();
                        return Some(Tk::Operator(o2));
                    },
                    None => {
                        return Some(Tk::Operator(op));
                    },
                }
            },
            None => {},
        }
        if c == '"' {
            self.advance_index();
            let w = self.read_string();
            match w {
                Some(w) => {
                    return Some(Tk::String(string_of(&w)));
                },
                None => {
                    self.lexer_error(LexErrorKind::UnclosedString, String::new());
                    return None;
                },
            }
        }
        if c == '\'' {
            self.advance_index();
            let c1 = self.current_char;
            if c1 == '\n' {
                self.lexer_error(LexErrorKind::MalformedCharacter, String::new());
                return None;
            }
            self.advance_index();
            if self.current_char != '\'' {
                self.lexer_error(LexErrorKind::MalformedCharacter, String::new());
                return None;
            }
            return Some(Tk::Char(c1));
        }
        if is_alphabetic(c) || (self.underscore && c == '_') {
            let u = self.underscore;
            let w = self.read_word(u);
            if keywords {
                match keyword_of_chars(&w) {
                    Some(k) => {
                        return Some(Tk::Keyword(k));
                    },
                    None => {
                        return Some(Tk::Identifier(string_of(&w)));
                    },
                }
            } else {
                return Some(Tk::Identifier(string_of(&w)));
            }
        }
        if is_numeric(c) {
            proof {
                lemma_word_end(s, j, false);
            }
            let w = self.read_word(false);
            match number_of(&w) {
                Some(v) => {
                    return Some(Tk::IntegerLiteral(v));
                },
                None => {
                    let radix = number_radix(&w);
                    self.lexer_error(LexErrorKind::InvalidNumber(radix), string_of(&w));
                    return None;
                },
            }
        }
        self.lexer_error(LexErrorKind::InvalidCharacter, String::new());
        None
    }

    /// The next token, scanned from the current character: brackets, operators (the longest
    /// one), string and character literals, keywords, identifiers and numbers; `EOF` at the end
    /// of the input. An invalid token is reported as an error and gives `None`.
    pub fn get_next_token(&mut self) -> (r: Option<Tk>)
        requires
            old(self).wf(),
            old(self).error_count() < u32::MAX,
        ensures
            final(self).wf(),
            final(self).same_input(old(self)),
            final(self).index() == scan(
                old(self).source(),
                old(self).index(),
                old(self).accepts_underscore(),
            ).1,
            match scan(old(self).source(), old(self).index(), old(self).accepts_underscore()).0 {
                Some(m) => r matches Some(t) && t@ == classify(m),
                None => r is None,
            },
            final(self).error_count() == old(self).error_count() + if r is None { 1nat } else { 0nat },
            final(self).tokens() == old(self).tokens(),
            final(self).first() == old(self).first(),
    {
        self.scan_token(true)
    }

    /// Lex the rest of the input, appending its tokens and the end-of-file token.
    fn run(&mut self, keywords: bool)
        requires
            old(self).wf(),
            old(self).error_count() <= LEXER_INPUT_LIMIT,
        ensures
            final(self).wf(),
            final(self).same_input(old(self)),
            final(self).tokens() == old(self).tokens() + classified(
                lex_from(
                    old(self).source(),
                    old(self).index(),
                    old(self).first(),
                    old(self).accepts_underscore(),
                ),
                keywords,
            ),
            final(self).error_count() == old(self).error_count() + count_errors(
                lex_from(
                    old(self).source(),
                    old(self).index(),
                    old(self).first(),
                    old(self).accepts_underscore(),
                ),
            ),
            final(self).index() >= final(self).source().len(),
    {
        let ghost s = self.input_code@;
        let ghost u = self.underscore;
        let ghost all = lex_from(s, self.current_index as int, self.current_first_character, u);
        let ghost t0 = self.tokens();
        let ghost e0 = self.error_count();
        let ghost i0 = self.current_index as int;
        while self.current_index < self.input_code.len()
            invariant
                self.wf(),
                self.same_input(old(self)),
                self.input_code@ == s,
                self.underscore == u,
                t0 == old(self).tokens(),
                e0 == old(self).error_count(),
                all == lex_from(s, old(self).index(), old(self).first(), u),
                e0 <= LEXER_INPUT_LIMIT,
                t0 + classified(all, keywords) == self.tokens() + classified(
                    lex_from(s, self.current_index as int, self.current_first_character, u),
                    keywords,
                ),
                e0 + count_errors(all) == self.error_count() + count_errors(
                    lex_from(s, self.current_index as int, self.current_first_character, u),
                ),
                self.error_count() <= e0 + self.current_index,
            decreases s.len() + 2 - self.current_index,
        {
            let ghost i = self.current_index as int;
            let ghost f = self.current_first_character;
            proof {
                lemma_skip_ws(s, i);
            }
            self.skip_whitespaces();
            self.skip_comments();
            let ghost j = self.current_index as int;
            assert(j == skip_blank(s, i, false));
            proof {
                lemma_skip_blank_ge(s, i, false);
                lemma_scan_ge(s, j, u);
            }
            self.current_first_character = self.current_character_number;
            let ghost before = self.tokens();
            let token = self.scan_token(keywords);
            let ghost k = self.current_index as int;
            let ghost rest = lex_from(s, k + 1, self.current_first_character, u);
            let ghost tok = TokenModel {
                tk: match scan(s, j, u).0 {
                    Some(m) => m,
                    None => TkModel::ERROR,
                },
                line_number: line_at(s, k) as u32,
                last_character: col_at(s, k) as u32,
                first_character: self.current_first_character,
            };
            assert(self.current_first_character == col_at(s, j) as u32);
            match token {
                None => {
                    let t = Token {
                        tk: Tk::ERROR,
                        line_number: self.current_line_number,
                        last_character: self.current_character_number,
                        first_character: self.current_first_character,
                    };
                    let ghost l0 = self.lexemes_list@;
                    self.lexemes_list.push(t);
                    assert(self.lexemes_list@ == l0.push(t));
                    assert(tokens_view(self.lexemes_list@) =~= tokens_view(l0).push(t@));
                    assert(lex_from(s, i, f, u) == seq![tok] + rest);
                    assert(classified(seq![tok] + rest, keywords) =~= classified(seq![tok], keywords)
                        + classified(rest, keywords));
                    assert(classified(seq![tok], keywords) =~= seq![t@]);
                    proof {
                        lemma_count_errors_append(seq![tok], rest);
                        assert(seq![tok].drop_last() =~= Seq::<TokenModel>::empty());
                        lemma_count_errors_single(tok);
                    }
                },
                Some(Tk::EOF) => {
                    assert(scan(s, j, u).0 == Some(TkModel::EOF));
                    assert(lex_from(s, i, f, u) == rest);
                },
                Some(tk) => {
                    let t = Token {
                        tk,
                        line_number: self.current_line_number,
                        last_character: self.current_character_number,
                        first_character: self.current_first_character,
                    };
                    let ghost l0 = self.lexemes_list@;
                    self.lexemes_list.push(t);
                    assert(self.lexemes_list@ == l0.push(t));
                    assert(tokens_view(self.lexemes_list@) =~= tokens_view(l0).push(t@));
                    assert(scan(s, j, u).0 != Some(TkModel::EOF));
                    assert(lex_from(s, i, f, u) == seq![tok] + rest);
                    assert(classified(seq![tok] + rest, keywords) =~= classified(seq![tok], keywords)
                        + classified(rest, keywords));
                    assert(classified(seq![tok], keywords) =~= seq![t@]);
                    proof {
                        lemma_count_errors_append(seq![tok], rest);
                        assert(seq![tok].drop_last() =~= Seq::<TokenModel>::empty());
                        assert(!(tok.tk is ERROR));
                        lemma_count_errors_single(tok);
                    }
                },
            }
            self.advance_index();
        }
        let t = Token {
            tk: Tk::EOF,
            line_number: self.current_line_number,
            last_character: self.current_character_number,
            first_character: self.current_first_character,
        };
        let ghost l0 = self.lexemes_list@;
        self.lexemes_list.push(t);
        assert(self.lexemes_list@ == l0.push(t));
        assert(tokens_view(self.lexemes_list@) =~= tokens_view(l0).push(t@));
        let ghost last = lex_from(s, self.current_index as int, self.current_first_character, u);
        assert(last == seq![t@]);
        assert(classified(last, keywords) =~= seq![t@]);
        proof {
            assert(seq![t@].drop_last() =~= Seq::<TokenModel>::empty());
            lemma_count_errors_single(t@);
        }
    }

    /// Tokenize the rest of the input. The tokens are appended to the list kept by the lexer,
    /// the end-of-file token last; the list is returned when no error was found so far, and
    /// `None` otherwise.
    pub fn tokenize(&mut self) -> (r: Option<Vec<Token>>)
        requires
            old(self).wf(),
            old(self).error_count() <= LEXER_INPUT_LIMIT,
        ensures
            final(self).wf(),
            final(self).same_input(old(self)),
            final(self).tokens() == old(self).tokens() + classified(
                lex_from(
                    old(self).source(),
                    old(self).index(),
                    old(self).first(),
                    old(self).accepts_underscore(),
                ),
                true,
            ),
            final(self).error_count() == old(self).error_count() + count_errors(
                lex_from(
                    old(self).source(),
                    old(self).index(),
                    old(self).first(),
                    old(self).accepts_underscore(),
                ),
            ),
            r is Some <==> final(self).error_count() == 0,
            r matches Some(v) ==> tokens_view(v@) == final(self).tokens(),
    {
        self.run(true);
        if self.errors_counter == 0 {
            Some(copy_tokens(&self.lexemes_list))
        } else {
            None
        }
    }

    /// Lex the rest of the input leaving words unclassified, appending the tokens.
    pub(crate) fn run_words(&mut self)
        requires
            old(self).wf(),
            old(self).error_count() <= LEXER_INPUT_LIMIT,
        ensures
            final(self).wf(),
            final(self).same_input(old(self)),
            final(self).tokens() == old(self).tokens() + lex_from(
                old(self).source(),
                old(self).index(),
                old(self).first(),
                old(self).accepts_underscore(),
            ),
            final(self).error_count() == old(self).error_count() + count_errors(
                lex_from(
                    old(self).source(),
                    old(self).index(),
                    old(self).first(),
                    old(self).accepts_underscore(),
                ),
            ),
    {
        self.run(false);
    }

    /// The next token with words left unclassified (see `get_next_token`).
    pub(crate) fn next_word_token(&mut self) -> (r: Option<Tk>)
        requires
            old(self).wf(),
            old(self).error_count() < u32::MAX,
        ensures
            final(self).wf(),
            final(self).same_input(old(self)),
            final(self).index() == scan(
                old(self).source(),
                old(self).index(),
                old(self).accepts_underscore(),
            ).1,
            match scan(old(self).source(), old(self).index(), old(self).accepts_underscore()).0 {
                Some(m) => r matches Some(t) && t@ == m,
                None => r is None,
            },
            final(self).error_count() == old(self).error_count() + if r is None { 1nat } else { 0nat },
            final(self).tokens() == old(self).tokens(),
            final(self).first() == old(self).first(),
    {
        self.scan_token(false)
    }

    /// The tokens produced so far.
    pub fn token_list(&self) -> (r: &Vec<Token>)
        ensures
            tokens_view(r@) == self.tokens(),
    {
        &self.lexemes_list
    }

    /// The number of errors found so far.
    pub fn errors_found(&self) -> (r: u32)
        ensures
            r == self.error_count(),
    {
        self.errors_counter
    }
}

/// Whether `w` holds the character `c`.
fn contains_char(w: &Vec<char>, c: char) -> (b: bool)
    ensures
        b == w@.contains(c),
{
    let mut i: usize = 0;
    while i < w.len()
        invariant
            i <= w.len(),
            forall|k: int| 0 <= k < i ==> w@[k] != c,
        decreases w.len() - i,
    {
        if w[i] == c {
            return true;
        }
        i = i + 1;
    }
    false
}

/// Whether `p` occurs in `w` at position `pos`.
fn has_prefix_at(w: &Vec<char>, pos: usize, p: &Vec<char>) -> (b: bool)
    requires
        pos <= w.len(),
    ensures
        b == (pos + p.len() <= w.len() && w@.subrange(pos as int, pos + p.len()) == p@),
{
    if p.len() > w.len() - pos {
        return false;
    }
    let mut i: usize = 0;
    while i < p.len()
        invariant
            pos + p.len() <= w.len(),
            i <= p.len(),
            forall|k: int| 0 <= k < i ==> w@[pos + k] == p@[k],
        decreases p.len() - i,
    {
        if w[pos + i] != p[i] {
            assert(w@.subrange(pos as int, pos + p.len())[i as int] != p@[i as int]);
            return false;
        }
        i = i + 1;
    }
    assert(w@.subrange(pos as int, pos + p.len()) =~= p@);
    true
}

/// `w` with every leading repetition of `p` removed.
fn trim_repeats(w: &Vec<char>, p: &Vec<char>) -> (r: Vec<char>)
    requires
        p.len() > 0,
    ensures
        r@ == trim_repeated(w@, p@),
{
    let mut pos: usize = 0;
    assert(w@.skip(0) =~= w@);
    while has_prefix_at(w, pos, p)
        invariant
            p.len() > 0,
            pos <= w.len(),
            trim_repeated(w@.skip(pos as int), p@) == trim_repeated(w@, p@),
        decreases w.len() - pos,
    {
        assert(w@.skip(pos as int).subrange(0, p.len() as int) =~= w@.subrange(
            pos as int,
            pos + p.len(),
        ));
        assert(w@.skip(pos as int).skip(p.len() as int) =~= w@.skip(pos + p.len()));
        pos = pos + p.len();
    }
    if p.len() <= w.len() - pos {
        assert(w@.skip(pos as int).subrange(0, p.len() as int) =~= w@.subrange(
            pos as int,
            pos + p.len(),
        ));
    }
    let mut r: Vec<char> = Vec::new();
    let mut i: usize = pos;
    while i < w.len()
        invariant
            pos <= i <= w.len(),
            r@ == w@.subrange(pos as int, i as int),
        decreases w.len() - i,
    {
        r.push(w[i]);
        i = i + 1;
        assert(r@ =~= w@.subrange(pos as int, i as int));
    }
    assert(r@ =~= w@.skip(pos as int));
    r
}

/// `w` without the prefix `p`, when it starts with it.
fn trim_leading(w: &Vec<char>, p: &Vec<char>) -> (r: Vec<char>)
    ensures
        r@ == trim_prefix(w@, p@),
{
    let pos: usize = if has_prefix_at(w, 0, p) {
        p.len()
    } else {
        0
    };
    let mut r: Vec<char> = Vec::new();
    let mut i: usize = pos;
    while i < w.len()
        invariant
            pos <= i <= w.len(),
            r@ == w@.subrange(pos as int, i as int),
        decreases w.len() - i,
    {
        r.push(w[i]);
        i = i + 1;
        assert(r@ =~= w@.subrange(pos as int, i as int));
    }
    assert(r@ =~= w@.skip(pos as int));
    assert(w@.skip(0) =~= w@);
    r
}

/// The value of a digit in bases up to 36.
fn digit_of_char(c: char) -> (r: Option<u64>)
    ensures
        match digit_value(c) {
            Some(d) => r == Some(d as u64),
            None => r is None,
        },
{
    if '0' <= c && c <= '9' {
        Some((c as u32 - '0' as u32) as u64)
    } else if 'a' <= c && c <= 'z' {
        Some((c as u32 - 'a' as u32 + 10) as u64)
    } else if 'A' <= c && c <= 'Z' {
        Some((c as u32 - 'A' as u32 + 10) as u64)
    } else {
        None
    }
}

/// The number written by the digits `t` in base `r`.
fn parse_digits(t: &Vec<char>, r: u64) -> (res: Option<u64>)
    requires
        2 <= r <= 36,
    ensures
        res == parse_radix(t@, r as nat),
{
    if t.len() == 0 {
        return None;
    }
    let mut v: u64 = 0;
    let mut i: usize = 0;
    assert(t@.subrange(0, 0) =~= Seq::<char>::empty());
    while i < t.len()
        invariant
            2 <= r <= 36,
            i <= t.len(),
            t.len() > 0,
            digits_value(t@.subrange(0, i as int), r as nat) == Some(v as nat),
        decreases t.len() - i,
    {
        let ghost a = t@.subrange(0, i + 1);
        assert(a.drop_last() =~= t@.subrange(0, i as int));
        assert(a.last() == t@[i as int]);
        proof {
            lemma_digits_prefix(t@, r as nat, i + 1);
        }
        let d = digit_of_char(t[i]);
        match d {
            None => {
                return None;
            },
            Some(d) => {
                if d >= r {
                    return None;
                }
                match v.checked_mul(r) {
                    None => {
                        assert(v * r + d > u64::MAX) by (nonlinear_arith)
                            requires
                                v * r > u64::MAX,
                                d >= 0,
                        ;
                        return None;
                    },
                    Some(m) => match m.checked_add(d) {
                        None => {
                            return None;
                        },
                        Some(n) => {
                            v = n;
                        },
                    },
                }
            },
        }
        i = i + 1;
    }
    assert(t@.subrange(0, i as int) =~= t@);
    Some(v)
}

/// The value of a number literal (see `number_value`).
fn number_of(w: &Vec<char>) -> (res: Option<u64>)
    requires
        w.len() >= 1,
    ensures
        res == number_value(w@),
{
    if contains_char(w, 'x') {
        let p = vec!['0', 'x'];
        assert(p@ =~= seq!['0', 'x']);
        let t = trim_repeats(w, &p);
        parse_digits(&t, 16)
    } else if contains_char(w, 'b') {
        let p = vec!['0', 'b'];
        assert(p@ =~= seq!['0', 'b']);
        let t = trim_repeats(w, &p);
        parse_digits(&t, 2)
    } else if w.len() > 1 && w[0] == '0' {
        let p = vec!['0'];
        assert(p@ =~= seq!['0']);
        let t = trim_leading(w, &p);
        parse_digits(&t, 8)
    } else {
        parse_digits(w, 10)
    }
}

/// The base in which a number literal is read (see `number_value`).
fn number_radix(w: &Vec<char>) -> (r: u32)
    requires
        w.len() >= 1,
    ensures
        r == number_base(w@),
{
    if contains_char(w, 'x') {
        16
    } else if contains_char(w, 'b') {
        2
    } else if w.len() > 1 && w[0] == '0' {
        8
    } else {
        10
    }
}


/// An operator token covers exactly the characters of its spelling, the longest operator being
/// taken: the token scanned from index `j` ends at the index after which the characters from `j`
/// spell its operator.
pub proof fn lemma_operator_token_spelling(s: Seq<char>, j: int, underscore: bool)
    ensures
        scan(s, j, underscore).0 matches Some(TkModel::Operator(o)) ==> 0 <= j <= scan(s, j, underscore).1
            < s.len() && s.subrange(j, scan(s, j, underscore).1 + 1) == operator_text(o),
        0 <= j && j + 1 < s.len() && operator_of_pair(s[j], s[j + 1]) is Some ==> scan(s, j, underscore).1
            == j + 1,
{
    let c = char_at(s, j);
    if scan(s, j, underscore).0 matches Some(TkModel::Operator(o)) {
        assert(operator_of_char(c) is Some);
        assert(0 <= j < s.len());
        match operator_of_pair(c, char_at(s, j + 1)) {
            Some(p) => {
                assert(j + 1 < s.len());
                assert(s.subrange(j, j + 2) =~= seq![s[j], s[j + 1]]);
            },
            None => {
                assert(s.subrange(j, j + 1) =~= seq![s[j]]);
            },
        }
    }
}

} // verus!
