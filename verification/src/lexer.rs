//! The Hul lexer: turns source text into a sequence of tokens.
//!
//! The token stream is specified by `tokenize`, a function on the source characters;
//! `Lexer::collect_tokens` is proved to compute it, including every error message.
use vstd::prelude::*;
use crate::text::{alphabetic, alphanumeric, ascii_digit, located, unicode_whitespace};

verus! {

/// The kind of a token, without its text.
#[derive(Debug, Clone, Copy, PartialEq, Eq, Structural)]
pub enum TokenKind {
    Number,
    String,
    True,
    False,
    Nil,
    Identifier,
    Let,
    If,
    Else,
    While,
    For,
    Break,
    Continue,
    Print,
    Fn,
    Return,
    And,
    Or,
    Not,
    Plus,
    Minus,
    Star,
    Slash,
    Percent,
    EqualEqual,
    BangEqual,
    Less,
    LessEqual,
    Greater,
    GreaterEqual,
    Assign,
    Semicolon,
    Comma,
    LParen,
    RParen,
    LBrace,
    RBrace,
    Eof,
}

/// A token of Hul source.
///
/// A number literal keeps its source text (digits and at most one `.`); its numeric
/// value is whatever `f64`'s decimal parsing makes of that text.
#[derive(Debug, Clone, PartialEq)]
pub enum TokenType {
    Number(String),
    String(String),
    True,
    False,
    Nil,
    Identifier(String),
    Let,
    If,
    Else,
    While,
    For,
    Break,
    Continue,
    Print,
    Fn,
    Return,
    And,
    Or,
    Not,
    Plus,
    Minus,
    Star,
    Slash,
    Percent,
    EqualEqual,
    BangEqual,
    Less,
    LessEqual,
    Greater,
    GreaterEqual,
    Assign,
    Semicolon,
    Comma,
    LParen,
    RParen,
    LBrace,
    RBrace,
    Eof,
}

/// Kinds whose token carries text.
pub open spec fn has_text(k: TokenKind) -> bool {
    k == TokenKind::Number || k == TokenKind::String || k == TokenKind::Identifier
}

impl TokenType {
    pub open spec fn spec_kind(&self) -> TokenKind {
        match self {
            TokenType::Number(_) => TokenKind::Number,
            TokenType::String(_) => TokenKind::String,
            TokenType::True => TokenKind::True,
            TokenType::False => TokenKind::False,
            TokenType::Nil => TokenKind::Nil,
            TokenType::Identifier(_) => TokenKind::Identifier,
            TokenType::Let => TokenKind::Let,
            TokenType::If => TokenKind::If,
            TokenType::Else => TokenKind::Else,
            TokenType::While => TokenKind::While,
            TokenType::For => TokenKind::For,
            TokenType::Break => TokenKind::Break,
            TokenType::Continue => TokenKind::Continue,
            TokenType::Print => TokenKind::Print,
            TokenType::Fn => TokenKind::Fn,
            TokenType::Return => TokenKind::Return,
            TokenType::And => TokenKind::And,
            TokenType::Or => TokenKind::Or,
            TokenType::Not => TokenKind::Not,
            TokenType::Plus => TokenKind::Plus,
            TokenType::Minus => TokenKind::Minus,
            TokenType::Star => TokenKind::Star,
            TokenType::Slash => TokenKind::Slash,
            TokenType::Percent => TokenKind::Percent,
            TokenType::EqualEqual => TokenKind::EqualEqual,
            TokenType::BangEqual => TokenKind::BangEqual,
            TokenType::Less => TokenKind::Less,
            TokenType::LessEqual => TokenKind::LessEqual,
            TokenType::Greater => TokenKind::Greater,
            TokenType::GreaterEqual => TokenKind::GreaterEqual,
            TokenType::Assign => TokenKind::Assign,
            TokenType::Semicolon => TokenKind::Semicolon,
            TokenType::Comma => TokenKind::Comma,
            TokenType::LParen => TokenKind::LParen,
            TokenType::RParen => TokenKind::RParen,
            TokenType::LBrace => TokenKind::LBrace,
            TokenType::RBrace => TokenKind::RBrace,
            TokenType::Eof => TokenKind::Eof,
        }
    }

    /// The text a token carries: the literal's source text, the string's contents,
    /// the identifier's name; empty for every other kind.
    pub open spec fn text(&self) -> Seq<char> {
        match self {
            TokenType::Number(s) => s@,
            TokenType::String(s) => s@,
            TokenType::Identifier(s) => s@,
            _ => Seq::empty(),
        }
    }

    /// The kind of this token.
    pub fn kind(&self) -> (k: TokenKind)
        ensures
            k == self.spec_kind(),
    {
        match self {
            TokenType::Number(_) => TokenKind::Number,
            TokenType::String(_) => TokenKind::String,
            TokenType::True => TokenKind::True,
            TokenType::False => TokenKind::False,
            TokenType::Nil => TokenKind::Nil,
            TokenType::Identifier(_) => TokenKind::Identifier,
            TokenType::Let => TokenKind::Let,
            TokenType::If => TokenKind::If,
            TokenType::Else => TokenKind::Else,
            TokenType::While => TokenKind::While,
            TokenType::For => TokenKind::For,
            TokenType::Break => TokenKind::Break,
            TokenType::Continue => TokenKind::Continue,
            TokenType::Print => TokenKind::Print,
            TokenType::Fn => TokenKind::Fn,
            TokenType::Return => TokenKind::Return,
            TokenType::And => TokenKind::And,
            TokenType::Or => TokenKind::Or,
            TokenType::Not => TokenKind::Not,
            TokenType::Plus => TokenKind::Plus,
            TokenType::Minus => TokenKind::Minus,
            TokenType::Star => TokenKind::Star,
            TokenType::Slash => TokenKind::Slash,
            TokenType::Percent => TokenKind::Percent,
            TokenType::EqualEqual => TokenKind::EqualEqual,
            TokenType::BangEqual => TokenKind::BangEqual,
            TokenType::Less => TokenKind::Less,
            TokenType::LessEqual => TokenKind::LessEqual,
            TokenType::Greater => TokenKind::Greater,
            TokenType::GreaterEqual => TokenKind::GreaterEqual,
            TokenType::Assign => TokenKind::Assign,
            TokenType::Semicolon => TokenKind::Semicolon,
            TokenType::Comma => TokenKind::Comma,
            TokenType::LParen => TokenKind::LParen,
            TokenType::RParen => TokenKind::RParen,
            TokenType::LBrace => TokenKind::LBrace,
            TokenType::RBrace => TokenKind::RBrace,
            TokenType::Eof => TokenKind::Eof,
        }
    }

    /// The token of a kind that carries no text.
    pub fn plain(k: TokenKind) -> (t: TokenType)
        requires
            !has_text(k),
        ensures
            t.spec_kind() == k,
            t.text() == Seq::<char>::empty(),
    {
        match k {
            TokenKind::True => TokenType::True,
            TokenKind::False => TokenType::False,
            TokenKind::Nil => TokenType::Nil,
            TokenKind::Let => TokenType::Let,
            TokenKind::If => TokenType::If,
            TokenKind::Else => TokenType::Else,
            TokenKind::While => TokenType::While,
            TokenKind::For => TokenType::For,
            TokenKind::Break => TokenType::Break,
            TokenKind::Continue => TokenType::Continue,
            TokenKind::Print => TokenType::Print,
            TokenKind::Fn => TokenType::Fn,
            TokenKind::Return => TokenType::Return,
            TokenKind::And => TokenType::And,
            TokenKind::Or => TokenType::Or,
            TokenKind::Not => TokenType::Not,
            TokenKind::Plus => TokenType::Plus,
            TokenKind::Minus => TokenType::Minus,
            TokenKind::Star => TokenType::Star,
            TokenKind::Slash => TokenType::Slash,
            TokenKind::Percent => TokenType::Percent,
            TokenKind::EqualEqual => TokenType::EqualEqual,
            TokenKind::BangEqual => TokenType::BangEqual,
            TokenKind::Less => TokenType::Less,
            TokenKind::LessEqual => TokenType::LessEqual,
            TokenKind::Greater => TokenType::Greater,
            TokenKind::GreaterEqual => TokenType::GreaterEqual,
            TokenKind::Assign => TokenType::Assign,
            TokenKind::Semicolon => TokenType::Semicolon,
            TokenKind::Comma => TokenType::Comma,
            TokenKind::LParen => TokenType::LParen,
            TokenKind::RParen => TokenType::RParen,
            TokenKind::LBrace => TokenType::LBrace,
            TokenKind::RBrace => TokenType::RBrace,
            _ => TokenType::Eof,
        }
    }
}

/// A token together with the position (1-based line and column) of its first character.
#[derive(Debug, Clone)]
pub struct Token {
    pub ty: TokenType,
    pub line: usize,
    pub col: usize,
}

/// What a token is, for contracts: its kind, its text and its position.
pub struct SToken {
    pub kind: TokenKind,
    pub text: Seq<char>,
    pub line: nat,
    pub col: nat,
}

impl View for Token {
    type V = SToken;

    open spec fn view(&self) -> SToken {
        SToken { kind: self.ty.spec_kind(), text: self.ty.text(), line: self.line as nat, col: self.col as nat }
    }
}

// ==================== positions ====================

/// The line of the character at index `i`: one more than the newlines before it.
pub open spec fn line_at(cs: Seq<char>, i: int) -> nat
    decreases i,
{
    if i <= 0 {
        1
    } else if cs[i - 1] == '\n' {
        line_at(cs, i - 1) + 1
    } else {
        line_at(cs, i - 1)
    }
}

/// The column of the character at index `i`: one more than the characters between it
/// and the last newline before it (or the start).
pub open spec fn col_at(cs: Seq<char>, i: int) -> nat
    decreases i,
{
    if i <= 0 {
        1
    } else if cs[i - 1] == '\n' {
        1
    } else {
        col_at(cs, i - 1) + 1
    }
}

/// Lines and columns are positive and grow at most by one per character.
pub proof fn lemma_position_bounds(cs: Seq<char>, i: int)
    requires
        0 <= i,
    ensures
        1 <= line_at(cs, i) <= i + 1,
        1 <= col_at(cs, i) <= i + 1,
    decreases i,
{
    if i > 0 {
        lemma_position_bounds(cs, i - 1);
    }
}

// ==================== the token grammar ====================

/// The first index at or after `i` that is not whitespace.
pub open spec fn skip_ws(cs: Seq<char>, i: int) -> int
    decreases cs.len() - i,
{
    if 0 <= i < cs.len() && unicode_whitespace(cs[i]) {
        skip_ws(cs, i + 1)
    } else {
        i
    }
}

/// The index of the newline that ends the line containing index `k` (or the end).
pub open spec fn line_end(cs: Seq<char>, k: int) -> int
    decreases cs.len() - k,
{
    if 0 <= k < cs.len() && cs[k] != '\n' {
        line_end(cs, k + 1)
    } else {
        k
    }
}

/// The index just after the first `*/` at or after `k`, if there is one.
pub open spec fn block_end(cs: Seq<char>, k: int) -> Option<int>
    decreases cs.len() - k,
{
    if k < 0 || k >= cs.len() {
        None
    } else if cs[k] == '*' && k + 1 < cs.len() && cs[k + 1] == '/' {
        Some(k + 2)
    } else {
        block_end(cs, k + 1)
    }
}

/// The end of a run of digits and dots starting at `k`.
pub open spec fn number_end(cs: Seq<char>, k: int) -> int
    decreases cs.len() - k,
{
    if 0 <= k < cs.len() && (ascii_digit(cs[k]) || cs[k] == '.') {
        number_end(cs, k + 1)
    } else {
        k
    }
}

/// The end of a run of identifier characters (alphanumeric or `_`) starting at `k`.
pub open spec fn ident_end(cs: Seq<char>, k: int) -> int
    decreases cs.len() - k,
{
    if 0 <= k < cs.len() && (alphanumeric(cs[k]) || cs[k] == '_') {
        ident_end(cs, k + 1)
    } else {
        k
    }
}

/// The number of `.` in a sequence.
pub open spec fn count_dots(s: Seq<char>) -> nat
    decreases s.len(),
{
    if s.len() == 0 {
        0
    } else {
        count_dots(s.drop_last()) + if s.last() == '.' { 1nat } else { 0nat }
    }
}

/// A run of digits and dots is a number literal when it has at most one dot
/// (it always starts with a digit).
pub open spec fn valid_number(s: Seq<char>) -> bool {
    count_dots(s) <= 1
}

/// The kind of a word: a keyword's kind, or `Identifier`.
pub open spec fn keyword_kind(t: Seq<char>) -> TokenKind {
    if t == "let"@ {
        TokenKind::Let
    } else if t == "fn"@ {
        TokenKind::Fn
    } else if t == "return"@ {
        TokenKind::Return
    } else if t == "if"@ {
        TokenKind::If
    } else if t == "else"@ {
        TokenKind::Else
    } else if t == "while"@ {
        TokenKind::While
    } else if t == "for"@ {
        TokenKind::For
    } else if t == "break"@ {
        TokenKind::Break
    } else if t == "continue"@ {
        TokenKind::Continue
    } else if t == "print"@ {
        TokenKind::Print
    } else if t == "and"@ {
        TokenKind::And
    } else if t == "or"@ {
        TokenKind::Or
    } else if t == "not"@ {
        TokenKind::Not
    } else if t == "true"@ {
        TokenKind::True
    } else if t == "false"@ {
        TokenKind::False
    } else if t == "nil"@ {
        TokenKind::Nil
    } else {
        TokenKind::Identifier
    }
}

/// The character an escape `\c` stands for.
pub open spec fn escape_of(c: char) -> Option<char> {
    if c == 'n' {
        Some('\n')
    } else if c == 't' {
        Some('\t')
    } else if c == 'r' {
        Some('\r')
    } else if c == '\\' {
        Some('\\')
    } else if c == '"' {
        Some('"')
    } else {
        None
    }
}

/// The token made of the single character `c`, if there is one.
pub open spec fn single_char_kind(c: char) -> Option<TokenKind> {
    if c == '+' {
        Some(TokenKind::Plus)
    } else if c == '-' {
        Some(TokenKind::Minus)
    } else if c == '*' {
        Some(TokenKind::Star)
    } else if c == '%' {
        Some(TokenKind::Percent)
    } else if c == '(' {
        Some(TokenKind::LParen)
    } else if c == ')' {
        Some(TokenKind::RParen)
    } else if c == '{' {
        Some(TokenKind::LBrace)
    } else if c == '}' {
        Some(TokenKind::RBrace)
    } else if c == ';' {
        Some(TokenKind::Semicolon)
    } else if c == ',' {
        Some(TokenKind::Comma)
    } else {
        None
    }
}

/// The contents of a string literal whose body starts at `k`, with the index after its
/// closing quote; `acc` is what was read so far and (`sl`, `sc`) the opening quote's position.
pub open spec fn scan_string(cs: Seq<char>, k: int, acc: Seq<char>, sl: nat, sc: nat) -> Result<
    (Seq<char>, int),
    Seq<char>,
>
    decreases cs.len() - k,
{
    if k < 0 || k >= cs.len() {
        Err(located("Unterminated string literal"@, sl, sc))
    } else if cs[k] == '"' {
        Ok((acc, k + 1))
    } else if cs[k] == '\\' {
        if k + 1 >= cs.len() {
            Err(located("Unexpected EOF in string escape"@, line_at(cs, k + 1), col_at(cs, k + 1)))
        } else {
            match escape_of(cs[k + 1]) {
                Some(e) => scan_string(cs, k + 2, acc.push(e), sl, sc),
                None => Err(
                    located(
                        "Unknown escape '\\"@ + seq![cs[k + 1]] + "'"@,
                        line_at(cs, k + 2),
                        col_at(cs, k + 2),
                    ),
                ),
            }
        }
    } else {
        scan_string(cs, k + 1, acc.push(cs[k]), sl, sc)
    }
}

/// Where the lexer stands after reading a string literal whose body starts at `k`:
/// after the closing quote, after an unknown escape, or at the end of the text.
pub open spec fn string_stop(cs: Seq<char>, k: int) -> int
    decreases cs.len() - k,
{
    if k < 0 || k >= cs.len() {
        cs.len() as int
    } else if cs[k] == '"' {
        k + 1
    } else if cs[k] == '\\' {
        if k + 1 >= cs.len() {
            cs.len() as int
        } else if escape_of(cs[k + 1]) is Some {
            string_stop(cs, k + 2)
        } else {
            k + 2
        }
    } else {
        string_stop(cs, k + 1)
    }
}

/// What the lexer finds at a non-blank index.
pub enum Scan {
    /// A comment, ending just before the given index.
    Skip(int),
    /// A token of the given kind and text, ending just before the given index.
    Tok(TokenKind, Seq<char>, int),
    /// A lexical error with its message.
    Fail(Seq<char>),
}

/// What starts at index `j` (a non-blank character).
pub open spec fn scan_at(cs: Seq<char>, j: int) -> Scan {
    let c = cs[j];
    let l = line_at(cs, j);
    let co = col_at(cs, j);
    let next_is = |d: char| j + 1 < cs.len() && cs[j + 1] == d;
    if c == '/' {
        if next_is('/') {
            Scan::Skip(line_end(cs, j + 2))
        } else if next_is('*') {
            match block_end(cs, j + 2) {
                Some(e) => Scan::Skip(e),
                None => Scan::Fail(located("Unterminated block comment starting"@, l, co)),
            }
        } else {
            Scan::Tok(TokenKind::Slash, Seq::empty(), j + 1)
        }
    } else if single_char_kind(c) is Some {
        Scan::Tok(single_char_kind(c)->0, Seq::empty(), j + 1)
    } else if c == '=' {
        if next_is('=') {
            Scan::Tok(TokenKind::EqualEqual, Seq::empty(), j + 2)
        } else {
            Scan::Tok(TokenKind::Assign, Seq::empty(), j + 1)
        }
    } else if c == '!' {
        if next_is('=') {
            Scan::Tok(TokenKind::BangEqual, Seq::empty(), j + 2)
        } else {
            Scan::Fail(located("Unexpected character '"@ + seq![c] + "'"@, l, co))
        }
    } else if c == '<' {
        if next_is('=') {
            Scan::Tok(TokenKind::LessEqual, Seq::empty(), j + 2)
        } else {
            Scan::Tok(TokenKind::Less, Seq::empty(), j + 1)
        }
    } else if c == '>' {
        if next_is('=') {
            Scan::Tok(TokenKind::GreaterEqual, Seq::empty(), j + 2)
        } else {
            Scan::Tok(TokenKind::Greater, Seq::empty(), j + 1)
        }
    } else if c == '"' {
        match scan_string(cs, j + 1, Seq::empty(), l, co) {
            Ok((s, e)) => Scan::Tok(TokenKind::String, s, e),
            Err(m) => Scan::Fail(m),
        }
    } else if ascii_digit(c) {
        let e = number_end(cs, j + 1);
        let lexeme = cs.subrange(j, e);
        if valid_number(lexeme) {
            Scan::Tok(TokenKind::Number, lexeme, e)
        } else {
            Scan::Fail(located("Invalid number literal '"@ + lexeme + "'"@, l, co))
        }
    } else if alphabetic(c) || c == '_' {
        let e = ident_end(cs, j + 1);
        let word = cs.subrange(j, e);
        let k = keyword_kind(word);
        Scan::Tok(k, if k == TokenKind::Identifier { word } else { Seq::empty() }, e)
    } else {
        Scan::Fail(located("Unexpected character '"@ + seq![c] + "'"@, l, co))
    }
}

/// Skipping blanks moves forward and stays within the text.
pub proof fn lemma_skip_ws(cs: Seq<char>, i: int)
    requires
        0 <= i <= cs.len(),
    ensures
        i <= skip_ws(cs, i) <= cs.len(),
    decreases cs.len() - i,
{
    if i < cs.len() && unicode_whitespace(cs[i]) {
        lemma_skip_ws(cs, i + 1);
    }
}

/// The end of a line comment lies between its start and the end of the text.
pub proof fn lemma_line_end(cs: Seq<char>, k: int)
    requires
        0 <= k <= cs.len(),
    ensures
        k <= line_end(cs, k) <= cs.len(),
    decreases cs.len() - k,
{
    if k < cs.len() && cs[k] != '\n' {
        lemma_line_end(cs, k + 1);
    }
}

/// A closing `*/` found from `k` ends after `k + 2`, within the text.
pub proof fn lemma_block_end(cs: Seq<char>, k: int)
    requires
        0 <= k,
    ensures
        block_end(cs, k) matches Some(e) ==> k + 2 <= e <= cs.len(),
    decreases cs.len() - k,
{
    if 0 <= k < cs.len() && !(cs[k] == '*' && k + 1 < cs.len() && cs[k + 1] == '/') {
        lemma_block_end(cs, k + 1);
    }
}

/// A run of digits and dots from `k` ends within the text.
pub proof fn lemma_number_end(cs: Seq<char>, k: int)
    requires
        0 <= k <= cs.len(),
    ensures
        k <= number_end(cs, k) <= cs.len(),
    decreases cs.len() - k,
{
    if k < cs.len() && (ascii_digit(cs[k]) || cs[k] == '.') {
        lemma_number_end(cs, k + 1);
    }
}

/// A run of identifier characters from `k` ends within the text.
pub proof fn lemma_ident_end(cs: Seq<char>, k: int)
    requires
        0 <= k <= cs.len(),
    ensures
        k <= ident_end(cs, k) <= cs.len(),
    decreases cs.len() - k,
{
    if k < cs.len() && (alphanumeric(cs[k]) || cs[k] == '_') {
        lemma_ident_end(cs, k + 1);
    }
}

proof fn lemma_scan_string(cs: Seq<char>, k: int, acc: Seq<char>, sl: nat, sc: nat)
    requires
        0 <= k,
    ensures
        scan_string(cs, k, acc, sl, sc) matches Ok((_, e)) ==> k < e <= cs.len(),
    decreases cs.len() - k,
{
    if 0 <= k < cs.len() && cs[k] != '"' {
        if cs[k] == '\\' {
            if k + 1 < cs.len() {
                if let Some(e) = escape_of(cs[k + 1]) {
                    lemma_scan_string(cs, k + 2, acc.push(e), sl, sc);
                }
            }
        } else {
            lemma_scan_string(cs, k + 1, acc.push(cs[k]), sl, sc);
        }
    }
}

/// Whatever is found at a non-blank index ends after it.
pub proof fn lemma_scan_progress(cs: Seq<char>, j: int)
    requires
        0 <= j < cs.len(),
    ensures
        scan_at(cs, j) matches Scan::Skip(k) ==> j < k <= cs.len(),
        scan_at(cs, j) matches Scan::Tok(_, _, k) ==> j < k <= cs.len(),
{
    lemma_line_end(cs, if j + 2 <= cs.len() { j + 2 } else { cs.len() as int });
    lemma_block_end(cs, j + 2);
    lemma_number_end(cs, j + 1);
    lemma_ident_end(cs, j + 1);
    lemma_scan_string(cs, j + 1, Seq::empty(), line_at(cs, j), col_at(cs, j));
}

/// The next token at or after index `i` (with the index after it), none at the end of
/// the input, or the error met on the way. Blanks and comments are skipped.
pub open spec fn next_token_from(cs: Seq<char>, i: int) -> Result<Option<(SToken, int)>, Seq<char>>
    decreases cs.len() - i,
{
    if i < 0 || i > cs.len() {
        Ok(None)
    } else {
        let j = skip_ws(cs, i);
        if j >= cs.len() {
            Ok(None)
        } else {
            proof {
                lemma_skip_ws(cs, i);
                lemma_scan_progress(cs, j);
            }
            match scan_at(cs, j) {
                Scan::Skip(k) => next_token_from(cs, k),
                Scan::Tok(kind, text, k) => Ok(
                    Some((SToken { kind, text, line: line_at(cs, j), col: col_at(cs, j) }, k)),
                ),
                Scan::Fail(m) => Err(m),
            }
        }
    }
}

/// A token found from index `i` ends after `i`, within the text.
pub proof fn lemma_next_progress(cs: Seq<char>, i: int)
    requires
        0 <= i <= cs.len(),
    ensures
        next_token_from(cs, i) matches Ok(Some((_, k))) ==> i < k <= cs.len(),
    decreases cs.len() - i,
{
    let j = skip_ws(cs, i);
    lemma_skip_ws(cs, i);
    if j < cs.len() {
        lemma_scan_progress(cs, j);
        if let Scan::Skip(k) = scan_at(cs, j) {
            lemma_next_progress(cs, k);
        }
    }
}

/// All tokens from index `i` to the end of the input, or the first error.
pub open spec fn tokens_from(cs: Seq<char>, i: int) -> Result<Seq<SToken>, Seq<char>>
    decreases cs.len() - i,
{
    if i < 0 || i > cs.len() {
        Ok(Seq::empty())
    } else {
        proof {
            lemma_next_progress(cs, i);
        }
        match next_token_from(cs, i) {
            Ok(None) => Ok(Seq::empty()),
            Ok(Some((t, k))) => match tokens_from(cs, k) {
                Ok(ts) => Ok(seq![t] + ts),
                Err(m) => Err(m),
            },
            Err(m) => Err(m),
        }
    }
}

/// The tokens of a source text, or the message of its first lexical error.
pub open spec fn tokenize(cs: Seq<char>) -> Result<Seq<SToken>, Seq<char>> {
    tokens_from(cs, 0)
}

/// Position (`l1`, `c1`) comes before (`l2`, `c2`): on an earlier line, or earlier on the
/// same line.
pub open spec fn before(l1: nat, c1: nat, l2: nat, c2: nat) -> bool {
    l1 < l2 || (l1 == l2 && c1 < c2)
}

/// A later character has a later position.
pub proof fn lemma_position_order(cs: Seq<char>, a: int, b: int)
    requires
        0 <= a < b,
    ensures
        before(line_at(cs, a), col_at(cs, a), line_at(cs, b), col_at(cs, b)),
    decreases b,
{
    if a < b - 1 {
        lemma_position_order(cs, a, b - 1);
    }
}

/// The token found from index `i` starts at an index at or after `i`, before the
/// index where it ends, with that index's line and column.
proof fn lemma_next_start(cs: Seq<char>, i: int)
    requires
        0 <= i,
    ensures
        next_token_from(cs, i) matches Ok(Some((t, k))) ==> exists|j: int|
            i <= j < k && t.line == line_at(cs, j) && #[trigger] t.col == col_at(cs, j),
    decreases cs.len() - i,
{
    if i <= cs.len() {
        let j = skip_ws(cs, i);
        lemma_skip_ws(cs, i);
        if j < cs.len() {
            lemma_scan_progress(cs, j);
            if let Scan::Skip(k) = scan_at(cs, j) {
                lemma_next_start(cs, k);
            }
        }
    }
}

/// Positions: the token found from index `i` is what the grammar reads at an index `j`
/// at or after `i` and before the index `k` where the token ends (its first character
/// is `cs[j]`), and its line and column are those of `j`: one more than the newlines
/// before `j`, and one more than the characters between the last of them and `j`.
pub proof fn lemma_token_start(cs: Seq<char>, i: int)
    requires
        0 <= i,
    ensures
        next_token_from(cs, i) matches Ok(Some((t, k))) ==> exists|j: int|
            i <= j < k && #[trigger] scan_at(cs, j) == Scan::Tok(t.kind, t.text, k) && t.line == line_at(cs, j)
                && t.col == col_at(cs, j),
    decreases cs.len() - i,
{
    if i <= cs.len() {
        let j = skip_ws(cs, i);
        lemma_skip_ws(cs, i);
        if j < cs.len() {
            lemma_scan_progress(cs, j);
            if let Scan::Skip(k) = scan_at(cs, j) {
                lemma_token_start(cs, k);
            }
        }
    }
}

/// The rest of the text from `i` is only blanks and comments: white space, `//`
/// comments (to a newline or the end) and `/* */` comments each closed by a `*/`.
pub open spec fn only_blanks(cs: Seq<char>, i: int) -> bool
    decreases cs.len() - i,
{
    if i < 0 || i >= cs.len() {
        true
    } else if unicode_whitespace(cs[i]) {
        only_blanks(cs, i + 1)
    } else if cs[i] == '/' && i + 1 < cs.len() && cs[i + 1] == '/' {
        proof {
            lemma_line_end(cs, i + 2);
        }
        only_blanks(cs, line_end(cs, i + 2))
    } else if cs[i] == '/' && i + 1 < cs.len() && cs[i + 1] == '*' {
        proof {
            lemma_block_end(cs, i + 2);
        }
        match block_end(cs, i + 2) {
            Some(e) => only_blanks(cs, e),
            None => false,
        }
    } else {
        false
    }
}

proof fn lemma_blanks_skip_ws(cs: Seq<char>, i: int)
    requires
        0 <= i <= cs.len(),
    ensures
        only_blanks(cs, i) == only_blanks(cs, skip_ws(cs, i)),
        skip_ws(cs, i) < cs.len() ==> !unicode_whitespace(cs[skip_ws(cs, i)]),
    decreases cs.len() - i,
{
    if i < cs.len() && unicode_whitespace(cs[i]) {
        lemma_blanks_skip_ws(cs, i + 1);
    }
}

/// The scanner finds no token exactly when the rest of the text is blanks and closed
/// comments (and `Lexer::next_token` then leaves the lexer at the end).
pub proof fn lemma_no_token_iff_blanks(cs: Seq<char>, i: int)
    requires
        0 <= i <= cs.len(),
    ensures
        (next_token_from(cs, i) == Ok::<Option<(SToken, int)>, Seq<char>>(None)) == only_blanks(cs, i),
    decreases cs.len() - i,
{
    lemma_skip_ws(cs, i);
    lemma_blanks_skip_ws(cs, i);
    let j = skip_ws(cs, i);
    if j < cs.len() {
        lemma_scan_progress(cs, j);
        lemma_line_end(cs, if j + 2 <= cs.len() { j + 2 } else { cs.len() as int });
        lemma_block_end(cs, j + 2);
        let c = cs[j];
        let slash2 = c == '/' && j + 1 < cs.len() && cs[j + 1] == '/';
        let star = c == '/' && j + 1 < cs.len() && cs[j + 1] == '*';
        if slash2 {
            assert(scan_at(cs, j) == Scan::Skip(line_end(cs, j + 2)));
            assert(only_blanks(cs, j) == only_blanks(cs, line_end(cs, j + 2)));
            lemma_no_token_iff_blanks(cs, line_end(cs, j + 2));
        } else if star {
            match block_end(cs, j + 2) {
                Some(e) => {
                    assert(scan_at(cs, j) == Scan::Skip(e));
                    assert(only_blanks(cs, j) == only_blanks(cs, e));
                    lemma_no_token_iff_blanks(cs, e);
                },
                None => {
                    assert(!only_blanks(cs, j));
                },
            }
        } else {
            assert(!only_blanks(cs, j));
            assert(!(scan_at(cs, j) is Skip));
        }
    }
}

/// Tokens come in the order of the text: each token's position is after the previous
/// token's, and all are at or after the position of index `i`.
pub proof fn lemma_tokens_in_order(cs: Seq<char>, i: int)
    requires
        0 <= i,
    ensures
        tokens_from(cs, i) matches Ok(ts) ==> {
            &&& forall|m: int| 0 <= m < ts.len() ==> !before(#[trigger] ts[m].line, ts[m].col, line_at(cs, i), col_at(cs, i))
            &&& forall|m: int, n: int| 0 <= m < n < ts.len() ==> before(#[trigger] ts[m].line, ts[m].col, #[trigger] ts[n].line, ts[n].col)
        },
    decreases cs.len() - i,
{
    if i <= cs.len() {
        lemma_next_progress(cs, i);
        lemma_next_start(cs, i);
        if let Ok(Some((t, k))) = next_token_from(cs, i) {
            lemma_tokens_in_order(cs, k);
            if let Ok(rest) = tokens_from(cs, k) {
                let ts = seq![t] + rest;
                let j = choose|j: int| i <= j < k && t.line == line_at(cs, j) && #[trigger] t.col == col_at(cs, j);
                lemma_position_order(cs, j, k);
                if i < j {
                    lemma_position_order(cs, i, j);
                }
                if i < k {
                    lemma_position_order(cs, i, k);
                }
                assert forall|m: int| 0 <= m < ts.len() implies !before(#[trigger] ts[m].line, ts[m].col, line_at(cs, i), col_at(cs, i)) by {
                    if m > 0 {
                        assert(ts[m] == rest[m - 1]);
                    }
                }
                assert forall|m: int, n: int| 0 <= m < n < ts.len() implies before(#[trigger] ts[m].line, ts[m].col, #[trigger] ts[n].line, ts[n].col) by {
                    assert(ts[n] == rest[n - 1]);
                    if m > 0 {
                        assert(ts[m] == rest[m - 1]);
                    }
                }
            }
        }
    }
}

/// Two-character operators: at the first non-blank index `j` from `i`, `==`, `<=`, `>=`
/// and `!=` are one token each, at `j`'s position; a lone `=`, `<` or `>` is a
/// one-character token and a lone `!` an error.
pub proof fn lemma_two_char_operators(cs: Seq<char>, i: int)
    requires
        0 <= i <= cs.len(),
        skip_ws(cs, i) < cs.len(),
        ({
            let c = cs[skip_ws(cs, i)];
            c == '=' || c == '<' || c == '>' || c == '!'
        }),
    ensures
        ({
            let j = skip_ws(cs, i);
            let c = cs[j];
            let pair = j + 1 < cs.len() && cs[j + 1] == '=';
            let at = |k: TokenKind, e: int|
                Ok::<Option<(SToken, int)>, Seq<char>>(
                    Some((SToken { kind: k, text: Seq::empty(), line: line_at(cs, j), col: col_at(cs, j) }, e)),
                );
            &&& pair && c == '=' ==> next_token_from(cs, i) == at(TokenKind::EqualEqual, j + 2)
            &&& pair && c == '<' ==> next_token_from(cs, i) == at(TokenKind::LessEqual, j + 2)
            &&& pair && c == '>' ==> next_token_from(cs, i) == at(TokenKind::GreaterEqual, j + 2)
            &&& pair && c == '!' ==> next_token_from(cs, i) == at(TokenKind::BangEqual, j + 2)
            &&& !pair && c == '=' ==> next_token_from(cs, i) == at(TokenKind::Assign, j + 1)
            &&& !pair && c == '<' ==> next_token_from(cs, i) == at(TokenKind::Less, j + 1)
            &&& !pair && c == '>' ==> next_token_from(cs, i) == at(TokenKind::Greater, j + 1)
            &&& !pair && c == '!' ==> next_token_from(cs, i) is Err
        }),
{
    lemma_skip_ws(cs, i);
}

/// A `/` that starts no comment is the division token, at its own position, and the
/// lexer moves just past it.
pub proof fn lemma_lone_slash(cs: Seq<char>, i: int)
    requires
        0 <= i <= cs.len(),
        skip_ws(cs, i) < cs.len(),
        cs[skip_ws(cs, i)] == '/',
        !(skip_ws(cs, i) + 1 < cs.len() && (cs[skip_ws(cs, i) + 1] == '/' || cs[skip_ws(cs, i) + 1] == '*')),
    ensures
        next_token_from(cs, i) == Ok::<Option<(SToken, int)>, Seq<char>>(Some((
            SToken {
                kind: TokenKind::Slash,
                text: Seq::empty(),
                line: line_at(cs, skip_ws(cs, i)),
                col: col_at(cs, skip_ws(cs, i)),
            },
            skip_ws(cs, i) + 1,
        ))),
{
    lemma_skip_ws(cs, i);
}

/// What starts at an index is never an end-of-input token.
proof fn lemma_scan_not_eof(cs: Seq<char>, j: int)
    requires
        0 <= j < cs.len(),
    ensures
        scan_at(cs, j) matches Scan::Tok(k, _, _) ==> k != TokenKind::Eof,
{
}

/// The token found from an index is never an end-of-input token.
proof fn lemma_next_not_eof(cs: Seq<char>, i: int)
    ensures
        next_token_from(cs, i) matches Ok(Some((t, _))) ==> t.kind != TokenKind::Eof,
    decreases cs.len() - i,
{
    if 0 <= i <= cs.len() {
        let j = skip_ws(cs, i);
        lemma_skip_ws(cs, i);
        if j < cs.len() {
            lemma_scan_progress(cs, j);
            lemma_scan_not_eof(cs, j);
            if let Scan::Skip(k) = scan_at(cs, j) {
                lemma_next_not_eof(cs, k);
            }
        }
    }
}

/// The lexer never produces an end-of-input token: the input ends where the token
/// sequence ends.
pub proof fn lemma_no_eof_token(cs: Seq<char>, i: int)
    ensures
        tokens_from(cs, i) matches Ok(ts) ==> forall|k: int| 0 <= k < ts.len() ==> #[trigger] ts[k].kind != TokenKind::Eof,
    decreases cs.len() - i,
{
    if 0 <= i <= cs.len() {
        lemma_next_progress(cs, i);
        lemma_next_not_eof(cs, i);
        if let Ok(Some((t, k))) = next_token_from(cs, i) {
            lemma_no_eof_token(cs, k);
            if let Ok(rest) = tokens_from(cs, k) {
                let ts = seq![t] + rest;
                assert forall|m: int| 0 <= m < ts.len() implies #[trigger] ts[m].kind != TokenKind::Eof by {
                    if m > 0 {
                        assert(ts[m] == rest[m - 1]);
                    }
                }
            }
        }
    }
}

/// The character an escape stands for.
fn escape(c: char) -> (r: Option<char>)
    ensures
        r == escape_of(c),
{
    if c == 'n' {
        Some('\n')
    } else if c == 't' {
        Some('\t')
    } else if c == 'r' {
        Some('\r')
    } else if c == '\\' {
        Some('\\')
    } else if c == '"' {
        Some('"')
    } else {
        None
    }
}

/// The token made of the single character `c`, if there is one.
fn single_char(c: char) -> (r: Option<TokenKind>)
    ensures
        r == single_char_kind(c),
{
    if c == '+' {
        Some(TokenKind::Plus)
    } else if c == '-' {
        Some(TokenKind::Minus)
    } else if c == '*' {
        Some(TokenKind::Star)
    } else if c == '%' {
        Some(TokenKind::Percent)
    } else if c == '(' {
        Some(TokenKind::LParen)
    } else if c == ')' {
        Some(TokenKind::RParen)
    } else if c == '{' {
        Some(TokenKind::LBrace)
    } else if c == '}' {
        Some(TokenKind::RBrace)
    } else if c == ';' {
        Some(TokenKind::Semicolon)
    } else if c == ',' {
        Some(TokenKind::Comma)
    } else {
        None
    }
}

/// `Unexpected character 'c' at line:col`.
fn unexpected_character(c: char, line: usize, col: usize) -> (m: String)
    ensures
        m@ == located("Unexpected character '"@ + seq![c] + "'"@, line as nat, col as nat),
{
    let mut msg = crate::text::string_of("Unexpected character '");
    crate::text::push_char(&mut msg, c);
    crate::text::append_str(&mut msg, "'");
    crate::text::append_location(&mut msg, line, col);
    assert(msg@ =~= located("Unexpected character '"@ + seq![c] + "'"@, line as nat, col as nat));
    msg
}

/// Tokens `p` followed by the outcome `r` of lexing the rest.
pub open spec fn prepend_tokens(p: Seq<SToken>, r: Result<Seq<SToken>, Seq<char>>) -> Result<
    Seq<SToken>,
    Seq<char>,
> {
    match r {
        Ok(ts) => Ok(p + ts),
        Err(m) => Err(m),
    }
}

/// What a lexer's result says, for contracts.
pub open spec fn tokens_view(r: Result<Vec<Token>, String>) -> Result<Seq<SToken>, Seq<char>> {
    match r {
        Ok(v) => Ok(v@.map_values(|t: Token| t@)),
        Err(e) => Err(e@),
    }
}

} // verus!

verus! {

/// The lexer: scans a source text character by character, keeping the position
/// (line and column) of the next character.
pub struct Lexer {
    chars: Vec<char>,
    pos: usize,
    line: usize,
    col: usize,
}

impl Lexer {
    /// The source text being scanned.
    pub closed spec fn source(&self) -> Seq<char> {
        self.chars@
    }

    /// The index of the next character to scan.
    pub closed spec fn position(&self) -> int {
        self.pos as int
    }

    /// The line the lexer stands on (1-based).
    pub closed spec fn cur_line(&self) -> nat {
        self.line as nat
    }

    /// The column the lexer stands at (1-based).
    pub closed spec fn cur_col(&self) -> nat {
        self.col as nat
    }

    /// What the invariant says: the position is within the text, and the line and column
    /// are those of the position.
    pub proof fn lemma_wf(&self)
        requires
            self.wf(),
        ensures
            0 <= self.position() <= self.source().len(),
            self.cur_line() == line_at(self.source(), self.position()),
            self.cur_col() == col_at(self.source(), self.position()),
    {
    }

    /// The lexer's invariant: its line and column are those of its position.
    pub closed spec fn wf(&self) -> bool {
        &&& self.pos <= self.chars@.len()
        &&& self.chars@.len() < usize::MAX
        &&& self.line == line_at(self.chars@, self.pos as int)
        &&& self.col == col_at(self.chars@, self.pos as int)
    }

    /// A lexer at the start of `source` (line 1, column 1).
    pub fn new(source: &str) -> (l: Lexer)
        requires
            source@.len() < usize::MAX,
        ensures
            l.wf(),
            l.source() == source@,
            l.position() == 0,
            l.cur_line() == 1,
            l.cur_col() == 1,
    {
        Lexer { chars: crate::text::chars_of(source), pos: 0, line: 1, col: 1 }
    }

    /// Moves past the next character and returns it; `None` at the end.
    fn advance(&mut self) -> (r: Option<char>)
        requires
            old(self).wf(),
        ensures
            final(self).wf(),
            final(self).chars@ == old(self).chars@,
            old(self).pos < old(self).chars@.len() ==> r == Some(old(self).chars@[old(self).pos as int])
                && final(self).pos == old(self).pos + 1,
            old(self).pos >= old(self).chars@.len() ==> r is None && final(self).pos == old(self).pos,
    {
        if self.pos >= self.chars.len() {
            return None;
        }
        proof {
            lemma_position_bounds(self.chars@, self.pos as int);
        }
        let ch = self.chars[self.pos];
        self.pos += 1;
        if ch == '\n' {
            self.line += 1;
            self.col = 1;
        } else {
            self.col += 1;
        }
        Some(ch)
    }

    /// The next character, without moving.
    fn peek(&self) -> (r: Option<char>)
        ensures
            self.pos < self.chars@.len() ==> r == Some(self.chars@[self.pos as int]),
            self.pos >= self.chars@.len() ==> r is None,
    {
        if self.pos < self.chars.len() {
            Some(self.chars[self.pos])
        } else {
            None
        }
    }

    /// Whether the next character is `c`.
    fn peek_is(&self, c: char) -> (r: bool)
        ensures
            r == (self.pos < self.chars@.len() && self.chars@[self.pos as int] == c),
    {
        self.pos < self.chars.len() && self.chars[self.pos] == c
    }

    /// The current line and column.
    fn current_pos(&self) -> (r: (usize, usize))
        ensures
            r == (self.line, self.col),
    {
        (self.line, self.col)
    }

    /// A token of the given type at the given position.
    fn make_token(&self, ty: TokenType, line: usize, col: usize) -> (t: Token)
        ensures
            t.ty == ty,
            t.line == line,
            t.col == col,
    {
        Token { ty, line, col }
    }

    /// Skips blanks.
    fn skip_whitespace(&mut self)
        requires
            old(self).wf(),
        ensures
            final(self).wf(),
            final(self).chars@ == old(self).chars@,
            final(self).pos == skip_ws(old(self).chars@, old(self).pos as int),
    {
        while self.pos < self.chars.len() && crate::text::is_whitespace(self.chars[self.pos])
            invariant
                self.wf(),
                self.chars@ == old(self).chars@,
                skip_ws(self.chars@, self.pos as int) == skip_ws(
                    old(self).chars@,
                    old(self).pos as int,
                ),
            decreases self.chars@.len() - self.pos,
        {
            self.advance();
        }
    }

    /// Skips the rest of a `//` comment, up to (not past) the newline.
    fn skip_line_comment(&mut self)
        requires
            old(self).wf(),
        ensures
            final(self).wf(),
            final(self).chars@ == old(self).chars@,
            final(self).pos == line_end(old(self).chars@, old(self).pos as int),
    {
        while self.pos < self.chars.len() && self.chars[self.pos] != '\n'
            invariant
                self.wf(),
                self.chars@ == old(self).chars@,
                line_end(self.chars@, self.pos as int) == line_end(
                    old(self).chars@,
                    old(self).pos as int,
                ),
            decreases self.chars@.len() - self.pos,
        {
            self.advance();
        }
    }

    /// Whether the characters `start..end` spell `w`.
    fn word_is(&self, start: usize, end: usize, w: &str) -> (r: bool)
        requires
            start <= end <= self.chars@.len(),
        ensures
            r == (self.chars@.subrange(start as int, end as int) == w@),
    {
        let n = w.unicode_len();
        if n != end - start {
            return false;
        }
        let mut i: usize = 0;
        while i < n
            invariant
                start <= end <= self.chars@.len(),
                n == end - start,
                n == w@.len(),
                i <= n,
                forall|k: int| 0 <= k < i ==> self.chars@[start + k] == w@[k],
            decreases n - i,
        {
            if self.chars[start + i] != w.get_char(i) {
                assert(self.chars@.subrange(start as int, end as int)[i as int] != w@[i as int]);
                return false;
            }
            i += 1;
        }
        assert(self.chars@.subrange(start as int, end as int) =~= w@);
        true
    }

    /// The kind of the word `start..end`.
    fn keyword(&self, start: usize, end: usize) -> (k: TokenKind)
        requires
            start <= end <= self.chars@.len(),
        ensures
            k == keyword_kind(self.chars@.subrange(start as int, end as int)),
    {
        if self.word_is(start, end, "let") {
            TokenKind::Let
        } else if self.word_is(start, end, "fn") {
            TokenKind::Fn
        } else if self.word_is(start, end, "return") {
            TokenKind::Return
        } else if self.word_is(start, end, "if") {
            TokenKind::If
        } else if self.word_is(start, end, "else") {
            TokenKind::Else
        } else if self.word_is(start, end, "while") {
            TokenKind::While
        } else if self.word_is(start, end, "for") {
            TokenKind::For
        } else if self.word_is(start, end, "break") {
            TokenKind::Break
        } else if self.word_is(start, end, "continue") {
            TokenKind::Continue
        } else if self.word_is(start, end, "print") {
            TokenKind::Print
        } else if self.word_is(start, end, "and") {
            TokenKind::And
        } else if self.word_is(start, end, "or") {
            TokenKind::Or
        } else if self.word_is(start, end, "not") {
            TokenKind::Not
        } else if self.word_is(start, end, "true") {
            TokenKind::True
        } else if self.word_is(start, end, "false") {
            TokenKind::False
        } else if self.word_is(start, end, "nil") {
            TokenKind::Nil
        } else {
            TokenKind::Identifier
        }
    }

    /// Reads a number literal whose first digit `first` was just read.
    fn read_number(&mut self, first: char, start_line: usize, start_col: usize) -> (r: Result<Token, String>)
        requires
            old(self).wf(),
            1 <= old(self).pos,
            first == old(self).chars@[old(self).pos - 1],
            ascii_digit(first),
            start_line == line_at(old(self).chars@, old(self).pos - 1),
            start_col == col_at(old(self).chars@, old(self).pos - 1),
        ensures
            final(self).wf(),
            final(self).chars@ == old(self).chars@,
            match scan_at(old(self).chars@, old(self).pos - 1) {
                Scan::Tok(kind, text, e) => r matches Ok(t) && t@ == (SToken {
                    kind,
                    text,
                    line: start_line as nat,
                    col: start_col as nat,
                }) && final(self).pos == e,
                Scan::Fail(m) => r matches Err(e) && e@ == m,
                Scan::Skip(_) => false,
            },
            final(self).pos == number_end(old(self).chars@, old(self).pos as int),
            old(self).pos <= final(self).pos,
    {
        let ghost cs = self.chars@;
        let ghost start = self.pos - 1;
        let mut num_str = String::new();
        crate::text::push_char(&mut num_str, first);
        assert(num_str@ =~= cs.subrange(start, self.pos as int));
        assert(num_str@.drop_last() =~= Seq::<char>::empty());
        assert(num_str@.last() != '.');
        assert(count_dots(num_str@.drop_last()) == 0);
        assert(count_dots(num_str@) == 0);
        let mut seen_dot = false;
        let mut invalid = false;
        while self.pos < self.chars.len() && (crate::text::is_ascii_digit(self.chars[self.pos])
            || self.chars[self.pos] == '.')
            invariant
                self.wf(),
                self.chars@ == cs,
                cs == old(self).chars@,
                start == old(self).pos - 1,
                0 <= start < self.pos,
                num_str@ == cs.subrange(start, self.pos as int),
                seen_dot == (count_dots(num_str@) >= 1),
                invalid == (count_dots(num_str@) >= 2),
                number_end(cs, self.pos as int) == number_end(cs, start + 1),
                old(self).pos <= self.pos,
            decreases cs.len() - self.pos,
        {
            let ch = self.chars[self.pos];
            let ghost k = self.pos as int;
            let ghost before = num_str@;
            assert(ch == cs[k]);
            crate::text::push_char(&mut num_str, ch);
            assert(num_str@ == before.push(ch));
            assert(num_str@.drop_last() =~= before);
            if ch == '.' {
                if seen_dot {
                    invalid = true;
                }
                seen_dot = true;
            }
            self.advance();
            assert(cs.subrange(start, k + 1) =~= cs.subrange(start, k).push(cs[k]));
            assert(num_str@ =~= cs.subrange(start, self.pos as int));
        }
        if invalid {
            let mut msg = crate::text::string_of("Invalid number literal '");
            crate::text::append_str(&mut msg, num_str.as_str());
            crate::text::append_str(&mut msg, "'");
            crate::text::append_location(&mut msg, start_line, start_col);
            return Err(msg);
        }
        Ok(self.make_token(TokenType::Number(num_str), start_line, start_col))
    }

    /// Reads an identifier or keyword whose first character `first` was just read.
    fn read_identifier(&mut self, first: char, start_line: usize, start_col: usize) -> (t: Token)
        requires
            old(self).wf(),
            1 <= old(self).pos,
            first == old(self).chars@[old(self).pos - 1],
            !ascii_digit(first),
            single_char_kind(first) is None,
            first != '/' && first != '=' && first != '!' && first != '<' && first != '>' && first != '"',
            alphabetic(first) || first == '_',
            start_line == line_at(old(self).chars@, old(self).pos - 1),
            start_col == col_at(old(self).chars@, old(self).pos - 1),
        ensures
            final(self).wf(),
            final(self).chars@ == old(self).chars@,
            match scan_at(old(self).chars@, old(self).pos - 1) {
                Scan::Tok(kind, text, e) => t@ == (SToken {
                    kind,
                    text,
                    line: start_line as nat,
                    col: start_col as nat,
                }) && final(self).pos == e,
                _ => false,
            },
    {
        let ghost cs = self.chars@;
        let start = self.pos - 1;
        let mut ident = String::new();
        crate::text::push_char(&mut ident, first);
        assert(ident@ =~= cs.subrange(start as int, self.pos as int));
        while self.pos < self.chars.len() && (crate::text::is_letter_or_digit(self.chars[self.pos])
            || self.chars[self.pos] == '_')
            invariant
                self.wf(),
                self.chars@ == cs,
                cs == old(self).chars@,
                start == old(self).pos - 1,
                0 <= start < self.pos,
                ident@ == cs.subrange(start as int, self.pos as int),
                ident_end(cs, self.pos as int) == ident_end(cs, start + 1),
            decreases cs.len() - self.pos,
        {
            let ch = self.chars[self.pos];
            crate::text::push_char(&mut ident, ch);
            self.advance();
            assert(ident@ =~= cs.subrange(start as int, self.pos as int));
        }
        let kind = self.keyword(start, self.pos);
        let ty = if kind == TokenKind::Identifier {
            TokenType::Identifier(ident)
        } else {
            TokenType::plain(kind)
        };
        self.make_token(ty, start_line, start_col)
    }

    /// Reads a string literal whose opening quote was just read.
    fn read_string(&mut self, start_line: usize, start_col: usize) -> (r: Result<Token, String>)
        requires
            old(self).wf(),
            1 <= old(self).pos,
            old(self).chars@[old(self).pos - 1] == '"',
            start_line == line_at(old(self).chars@, old(self).pos - 1),
            start_col == col_at(old(self).chars@, old(self).pos - 1),
        ensures
            final(self).wf(),
            final(self).chars@ == old(self).chars@,
            match scan_string(
                old(self).chars@,
                old(self).pos as int,
                Seq::empty(),
                start_line as nat,
                start_col as nat,
            ) {
                Ok((text, e)) => r matches Ok(t) && t@ == (SToken {
                    kind: TokenKind::String,
                    text,
                    line: start_line as nat,
                    col: start_col as nat,
                }) && final(self).pos == e,
                Err(m) => r matches Err(e) && e@ == m,
            },
            r is Err ==> final(self).pos == string_stop(old(self).chars@, old(self).pos as int),
            old(self).pos <= final(self).pos,
    {
        let ghost cs = self.chars@;
        let ghost target = scan_string(cs, self.pos as int, Seq::empty(), start_line as nat, start_col as nat);
        let mut s = String::new();
        assert(s@ =~= Seq::<char>::empty());
        while self.pos < self.chars.len()
            invariant
                self.wf(),
                self.chars@ == cs,
                cs == old(self).chars@,
                target == scan_string(cs, old(self).pos as int, Seq::empty(), start_line as nat, start_col as nat),
                scan_string(cs, self.pos as int, s@, start_line as nat, start_col as nat) == target,
                string_stop(cs, self.pos as int) == string_stop(cs, old(self).pos as int),
                old(self).pos <= self.pos,
            decreases cs.len() - self.pos,
        {
            let ch = self.chars[self.pos];
            let ghost k = self.pos as int;
            let ghost acc = s@;
            assert(scan_string(cs, k, acc, start_line as nat, start_col as nat) == target);
            self.advance();
            if ch == '"' {
                return Ok(self.make_token(TokenType::String(s), start_line, start_col));
            }
            if ch == '\\' {
                match self.advance() {
                    Some(other) => {
                        match escape(other) {
                            Some(e) => crate::text::push_char(&mut s, e),
                            None => {
                                let mut msg = crate::text::string_of("Unknown escape '\\");
                                crate::text::push_char(&mut msg, other);
                                crate::text::append_str(&mut msg, "'");
                                crate::text::append_location(&mut msg, self.line, self.col);
                                assert(msg@ =~= located(
                                    "Unknown escape '\\"@ + seq![other] + "'"@,
                                    self.line as nat,
                                    self.col as nat,
                                ));
                                return Err(msg);
                            },
                        }
                    },
                    None => {
                        let mut msg = crate::text::string_of("Unexpected EOF in string escape");
                        crate::text::append_location(&mut msg, self.line, self.col);
                        return Err(msg);
                    },
                }
            } else {
                crate::text::push_char(&mut s, ch);
            }
        }
        let mut msg = crate::text::string_of("Unterminated string literal");
        crate::text::append_location(&mut msg, start_line, start_col);
        Err(msg)
    }

    /// Skips the rest of a `/* */` comment whose opening was just read.
    fn skip_block_comment(&mut self, start_line: usize, start_col: usize) -> (r: Result<(), String>)
        requires
            old(self).wf(),
        ensures
            final(self).wf(),
            final(self).chars@ == old(self).chars@,
            match block_end(old(self).chars@, old(self).pos as int) {
                Some(e) => r is Ok && final(self).pos == e,
                None => r matches Err(m) && m@ == located(
                    "Unterminated block comment starting"@,
                    start_line as nat,
                    start_col as nat,
                ) && final(self).pos == final(self).chars@.len(),
            },
            old(self).pos <= final(self).pos,
    {
        let ghost cs = self.chars@;
        while self.pos < self.chars.len()
            invariant
                self.wf(),
                self.chars@ == cs,
                cs == old(self).chars@,
                block_end(cs, self.pos as int) == block_end(cs, old(self).pos as int),
                old(self).pos <= self.pos,
            decreases cs.len() - self.pos,
        {
            let ch = self.chars[self.pos];
            let ghost k = self.pos as int;
            assert(block_end(cs, k) == block_end(cs, old(self).pos as int));
            self.advance();
            if ch == '*' && self.peek_is('/') {
                self.advance();
                return Ok(());
            }
        }
        let mut msg = crate::text::string_of("Unterminated block comment starting");
        crate::text::append_location(&mut msg, start_line, start_col);
        Err(msg)
    }

    /// Scans the next token, skipping blanks and comments; `None` at the end of the input.
    fn next_token(&mut self) -> (r: Result<Option<Token>, String>)
        requires
            old(self).wf(),
        ensures
            final(self).wf(),
            final(self).chars@ == old(self).chars@,
            match next_token_from(old(self).chars@, old(self).pos as int) {
                Ok(None) => r matches Ok(None),
                Ok(Some((t, k))) => r matches Ok(Some(tok)) && tok@ == t && final(self).pos == k,
                Err(m) => r matches Err(e) && e@ == m,
            },
            old(self).pos <= final(self).pos,
            r matches Ok(None) ==> final(self).pos == final(self).chars@.len(),
        decreases old(self).chars@.len() - old(self).pos,
    {
        let ghost cs = self.chars@;
        proof {
            lemma_skip_ws(cs, self.pos as int);
        }
        self.skip_whitespace();
        let ghost j = self.pos as int;
        let (start_line, start_col) = self.current_pos();
        let ch = match self.peek() {
            Some(ch) => ch,
            None => return Ok(None),
        };
        proof {
            lemma_scan_progress(cs, j);
        }
        assert(next_token_from(cs, old(self).pos as int) == match scan_at(cs, j) {
            Scan::Skip(k) => next_token_from(cs, k),
            Scan::Tok(kind, text, k) => Ok(
                Some((SToken { kind, text, line: line_at(cs, j), col: col_at(cs, j) }, k)),
            ),
            Scan::Fail(m) => Err(m),
        });
        if ch == '/' {
            self.advance();
            if self.peek_is('/') {
                assert(line_end(cs, j + 1) == line_end(cs, j + 2));
                self.skip_line_comment();
                return self.next_token();
            } else if self.peek_is('*') {
                self.advance();
                self.skip_block_comment(start_line, start_col)?;
                return self.next_token();
            }
            return Ok(Some(self.make_token(TokenType::Slash, start_line, start_col)));
        }
        let token = if let Some(kind) = single_char(ch) {
            self.advance();
            self.make_token(TokenType::plain(kind), start_line, start_col)
        } else if ch == '=' {
            self.advance();
            if self.peek_is('=') {
                self.advance();
                self.make_token(TokenType::EqualEqual, start_line, start_col)
            } else {
                self.make_token(TokenType::Assign, start_line, start_col)
            }
        } else if ch == '!' {
            self.advance();
            if self.peek_is('=') {
                self.advance();
                self.make_token(TokenType::BangEqual, start_line, start_col)
            } else {
                return Err(unexpected_character(ch, start_line, start_col));
            }
        } else if ch == '<' {
            self.advance();
            if self.peek_is('=') {
                self.advance();
                self.make_token(TokenType::LessEqual, start_line, start_col)
            } else {
                self.make_token(TokenType::Less, start_line, start_col)
            }
        } else if ch == '>' {
            self.advance();
            if self.peek_is('=') {
                self.advance();
                self.make_token(TokenType::GreaterEqual, start_line, start_col)
            } else {
                self.make_token(TokenType::Greater, start_line, start_col)
            }
        } else if ch == '"' {
            self.advance();
            self.read_string(start_line, start_col)?
        } else if crate::text::is_ascii_digit(ch) {
            self.advance();
            self.read_number(ch, start_line, start_col)?
        } else if crate::text::is_letter(ch) || ch == '_' {
            self.advance();
            self.read_identifier(ch, start_line, start_col)
        } else {
            return Err(unexpected_character(ch, start_line, start_col));
        };
        Ok(Some(token))
    }

    /// Scans every remaining token.
    pub fn collect_tokens(&mut self) -> (r: Result<Vec<Token>, String>)
        requires
            old(self).wf(),
        ensures
            tokens_view(r) == tokens_from(old(self).source(), old(self).position()),
            final(self).source() == old(self).source(),
            r is Ok ==> final(self).position() == final(self).source().len(),
    {
        let ghost cs = self.chars@;
        let mut tokens: Vec<Token> = Vec::new();
        loop
            invariant
                self.wf(),
                self.chars@ == cs,
                cs == old(self).chars@,
                old(self).pos <= self.pos,
                tokens_from(cs, old(self).pos as int) == prepend_tokens(
                    tokens@.map_values(|t: Token| t@),
                    tokens_from(cs, self.pos as int),
                ),
            decreases cs.len() - self.pos,
        {
            let ghost p = tokens@.map_values(|t: Token| t@);
            let ghost i = self.pos as int;
            proof {
                lemma_next_progress(cs, i);
            }
            match self.next_token() {
                Ok(Some(token)) => {
                    let ghost t = token@;
                    tokens.push(token);
                    assert(tokens@.map_values(|t: Token| t@) =~= p.push(t));
                    proof {
                        match tokens_from(cs, self.pos as int) {
                            Ok(ts) => {
                                assert(p + (seq![t] + ts) =~= p.push(t) + ts);
                            },
                            Err(_) => {},
                        }
                    }
                },
                Ok(None) => {
                    assert(tokens_from(cs, i) == Ok::<Seq<SToken>, Seq<char>>(Seq::empty()));
                    assert(p + Seq::<SToken>::empty() =~= p);
                    return Ok(tokens);
                },
                Err(e) => {
                    return Err(e);
                },
            }
        }
    }
}

} // verus!
