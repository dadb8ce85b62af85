//! The scanner: source text to tokens, one per call.
//!
//! What the scanner does is stated over the UTF-8 bytes of the source by the
//! spec function [`scan`]; [`Scanner::next`] is proved to return exactly the
//! token that [`scan`] describes and to move on to where it ends.

use crate::text::{
    at_boundary, bytes_of, lemma_at_boundary, lemma_boundary_after_ascii, lemma_bytes_valid,
    lemma_piece_valid, quotes_end, quotes_start, same_text, slice, unquoted, QUOTE,
};
use vstd::prelude::*;
use vstd::string::*;
use vstd::utf8::*;

verus! {

/// The kinds of token.
#[derive(Copy, Clone, Debug, PartialEq, Eq, Structural)]
pub enum TokenKind {
    LeftParen,
    RightParen,
    LeftBrace,
    RightBrace,
    Comma,
    Dot,
    Minus,
    Plus,
    Semicolon,
    Slash,
    Star,
    Bang,
    BangEqual,
    Equal,
    EqualEqual,
    Greater,
    GreaterEqual,
    Less,
    LessEqual,
    Identifier,
    String,
    Number,
    And,
    Class,
    Else,
    False,
    For,
    Fun,
    If,
    Nil,
    Or,
    Print,
    Return,
    Super,
    This,
    True,
    Var,
    While,
    Error,
    End,
}

/// A token: its kind, the text it was scanned from (for an `Error` token, the
/// message instead), and the line of its first character, counted from 1.
#[derive(Copy, Clone, Debug, PartialEq)]
pub struct Token<'a> {
    pub kind: TokenKind,
    pub lexeme: &'a str,
    pub line: u32,
}

impl<'a> Token<'a> {
    pub fn new(kind: TokenKind, lexeme: &'a str, line: u32) -> (token: Token<'a>)
        ensures
            token.kind == kind,
            token.lexeme == lexeme,
            token.line == line,
    {
        Token { kind, lexeme, line }
    }
}

/// Tab.
pub const TAB: u8 = 0x09;

/// Newline.
pub const NEWLINE: u8 = 0x0a;

/// Carriage return.
pub const CARRIAGE_RETURN: u8 = 0x0d;

/// Blank.
pub const SPACE: u8 = 0x20;

/// `.`
pub const DOT: u8 = 0x2e;

/// `/`
pub const SLASH: u8 = 0x2f;

/// `=`
pub const EQUALS: u8 = 0x3d;

/// `0` to `9`.
pub open spec fn is_digit(b: u8) -> bool {
    0x30 <= b <= 0x39
}

/// `A` to `Z` and `a` to `z`.
pub open spec fn is_alpha(b: u8) -> bool {
    (0x41 <= b <= 0x5a) || (0x61 <= b <= 0x7a)
}

pub open spec fn is_alphanumeric(b: u8) -> bool {
    is_alpha(b) || is_digit(b)
}

/// The line number after one more newline. The counter stops at its largest
/// value.
pub open spec fn next_line(line: u32) -> u32 {
    if line < u32::MAX {
        (line + 1) as u32
    } else {
        line
    }
}

/// The first offset from `i` on that holds `target`, or the end of `s`.
pub open spec fn find_byte(s: Seq<u8>, i: int, target: u8) -> int
    decreases s.len() - i,
{
    if 0 <= i < s.len() && s[i] != target {
        find_byte(s, i + 1, target)
    } else {
        i
    }
}

/// The first offset from `i` on that holds no digit.
pub open spec fn digits_end(s: Seq<u8>, i: int) -> int
    decreases s.len() - i,
{
    if 0 <= i < s.len() && is_digit(s[i]) {
        digits_end(s, i + 1)
    } else {
        i
    }
}

/// The first offset from `i` on that holds neither a letter nor a digit.
pub open spec fn word_end(s: Seq<u8>, i: int) -> int
    decreases s.len() - i,
{
    if 0 <= i < s.len() && is_alphanumeric(s[i]) {
        word_end(s, i + 1)
    } else {
        i
    }
}

/// The first offset from `i` on that does not continue a character.
pub open spec fn character_end(s: Seq<u8>, i: int) -> int
    decreases s.len() - i,
{
    if 0 <= i < s.len() && is_continuation_byte(s[i]) {
        character_end(s, i + 1)
    } else {
        i
    }
}

/// The line reached from `line` by counting the newlines in `s[from..to]`.
pub open spec fn line_after(s: Seq<u8>, from: int, to: int, line: u32) -> u32
    decreases to - from,
{
    if from >= to {
        line
    } else if s[from] == NEWLINE {
        line_after(s, from + 1, to, next_line(line))
    } else {
        line_after(s, from + 1, to, line)
    }
}

/// Where a number that starts at `start` ends: digits, then, if a dot and a
/// digit follow, the dot and the digits after it.
pub open spec fn number_end(s: Seq<u8>, start: int) -> int {
    let whole = digits_end(s, start);
    if whole + 1 < s.len() && s[whole] == DOT && is_digit(s[whole + 1]) {
        digits_end(s, whole + 2)
    } else {
        whole
    }
}

pub proof fn lemma_find_byte_bounds(s: Seq<u8>, i: int, target: u8)
    requires
        0 <= i <= s.len(),
    ensures
        i <= find_byte(s, i, target) <= s.len(),
        find_byte(s, i, target) < s.len() ==> s[find_byte(s, i, target)] == target,
    decreases s.len() - i,
{
    if i < s.len() && s[i] != target {
        lemma_find_byte_bounds(s, i + 1, target);
    }
}

pub proof fn lemma_digits_end_bounds(s: Seq<u8>, i: int)
    requires
        0 <= i <= s.len(),
    ensures
        i <= digits_end(s, i) <= s.len(),
    decreases s.len() - i,
{
    if i < s.len() && is_digit(s[i]) {
        lemma_digits_end_bounds(s, i + 1);
    }
}

pub proof fn lemma_word_end_bounds(s: Seq<u8>, i: int)
    requires
        0 <= i <= s.len(),
    ensures
        i <= word_end(s, i) <= s.len(),
    decreases s.len() - i,
{
    if i < s.len() && is_alphanumeric(s[i]) {
        lemma_word_end_bounds(s, i + 1);
    }
}

pub proof fn lemma_character_end_bounds(s: Seq<u8>, i: int)
    requires
        0 <= i <= s.len(),
    ensures
        i <= character_end(s, i) <= s.len(),
    decreases s.len() - i,
{
    if i < s.len() && is_continuation_byte(s[i]) {
        lemma_character_end_bounds(s, i + 1);
    }
}

/// What is skipped before a token: blanks, newlines (each counted), and
/// comments, which run from `//` up to the next newline or the end. Gives the
/// offset and the line at which the next token starts.
pub open spec fn skip_blank(s: Seq<u8>, i: int, line: u32) -> (int, u32)
    decreases s.len() - i,
{
    if i < 0 || i >= s.len() {
        (i, line)
    } else if s[i] == SPACE || s[i] == CARRIAGE_RETURN || s[i] == TAB {
        skip_blank(s, i + 1, line)
    } else if s[i] == NEWLINE {
        skip_blank(s, i + 1, next_line(line))
    } else if s[i] == SLASH && i + 1 < s.len() && s[i + 1] == SLASH {
        proof {
            lemma_find_byte_bounds(s, i + 2, NEWLINE);
        }
        skip_blank(s, find_byte(s, i + 2, NEWLINE), line)
    } else {
        (i, line)
    }
}

pub proof fn lemma_skip_blank_bounds(s: Seq<u8>, i: int, line: u32)
    requires
        0 <= i <= s.len(),
    ensures
        i <= skip_blank(s, i, line).0 <= s.len(),
    decreases s.len() - i,
{
    if i >= s.len() {
    } else if s[i] == SPACE || s[i] == CARRIAGE_RETURN || s[i] == TAB {
        lemma_skip_blank_bounds(s, i + 1, line);
    } else if s[i] == NEWLINE {
        lemma_skip_blank_bounds(s, i + 1, next_line(line));
    } else if s[i] == SLASH && i + 1 < s.len() && s[i + 1] == SLASH {
        lemma_find_byte_bounds(s, i + 2, NEWLINE);
        lemma_skip_blank_bounds(s, find_byte(s, i + 2, NEWLINE), line);
    }
}

/// The kind of a word: one of the sixteen keywords, or an identifier.
pub open spec fn word_kind(word: Seq<char>) -> TokenKind {
    if word == "and"@ {
        TokenKind::And
    } else if word == "class"@ {
        TokenKind::Class
    } else if word == "else"@ {
        TokenKind::Else
    } else if word == "false"@ {
        TokenKind::False
    } else if word == "for"@ {
        TokenKind::For
    } else if word == "fun"@ {
        TokenKind::Fun
    } else if word == "if"@ {
        TokenKind::If
    } else if word == "nil"@ {
        TokenKind::Nil
    } else if word == "or"@ {
        TokenKind::Or
    } else if word == "print"@ {
        TokenKind::Print
    } else if word == "return"@ {
        TokenKind::Return
    } else if word == "super"@ {
        TokenKind::Super
    } else if word == "this"@ {
        TokenKind::This
    } else if word == "true"@ {
        TokenKind::True
    } else if word == "var"@ {
        TokenKind::Var
    } else if word == "while"@ {
        TokenKind::While
    } else {
        TokenKind::Identifier
    }
}

/// The kind of a token that starts with the punctuation byte `first`, given
/// whether `=` follows it; `None` where `first` starts no such token.
pub open spec fn symbol_kind(first: u8, equals_follows: bool) -> Option<TokenKind> {
    if first == 0x28 {  // (
        Some(TokenKind::LeftParen)
    } else if first == 0x29 {  // )
        Some(TokenKind::RightParen)
    } else if first == 0x7b {  // {
        Some(TokenKind::LeftBrace)
    } else if first == 0x7d {  // }
        Some(TokenKind::RightBrace)
    } else if first == 0x3b {  // ;
        Some(TokenKind::Semicolon)
    } else if first == 0x2c {  // ,
        Some(TokenKind::Comma)
    } else if first == DOT {
        Some(TokenKind::Dot)
    } else if first == 0x2d {  // -
        Some(TokenKind::Minus)
    } else if first == 0x2b {  // +
        Some(TokenKind::Plus)
    } else if first == SLASH {
        Some(TokenKind::Slash)
    } else if first == 0x2a {  // *
        Some(TokenKind::Star)
    } else if first == 0x21 {  // !
        Some(if equals_follows { TokenKind::BangEqual } else { TokenKind::Bang })
    } else if first == EQUALS {
        Some(if equals_follows { TokenKind::EqualEqual } else { TokenKind::Equal })
    } else if first == 0x3c {  // <
        Some(if equals_follows { TokenKind::LessEqual } else { TokenKind::Less })
    } else if first == 0x3e {  // >
        Some(if equals_follows { TokenKind::GreaterEqual } else { TokenKind::Greater })
    } else {
        None
    }
}

/// Whether the token of this kind takes the `=` after its first byte.
pub open spec fn is_two_bytes(kind: TokenKind) -> bool {
    kind == TokenKind::BangEqual || kind == TokenKind::EqualEqual || kind == TokenKind::LessEqual
        || kind == TokenKind::GreaterEqual
}

/// One step of scanning, as a value: the token found and where it leaves the
/// scanner.
pub struct Scan {
    /// The token's kind.
    pub kind: TokenKind,
    /// The token's text; for an `Error` token, the message.
    pub lexeme: Seq<char>,
    /// The line of the token's first byte.
    pub line: u32,
    /// The offset of the token's first byte.
    pub start: int,
    /// The offset just after the token, where scanning goes on.
    pub end: int,
    /// The line at `end`.
    pub end_line: u32,
}

/// The text between two offsets.
pub open spec fn text_between(s: Seq<u8>, start: int, end: int) -> Seq<char> {
    decode_utf8(s.subrange(start, end))
}

/// The token that starts at the first byte after the blanks and comments at
/// `pos`, when the line at `pos` is `line`.
#[verifier::opaque]
pub open spec fn scan(s: Seq<u8>, pos: int, line: u32) -> Scan {
    let (start, line) = skip_blank(s, pos, line);
    if start < 0 || start >= s.len() {
        Scan {
            kind: TokenKind::End,
            lexeme: text_between(s, start, start),
            line,
            start,
            end: start,
            end_line: line,
        }
    } else if is_alpha(s[start]) {
        let end = word_end(s, start + 1);
        Scan {
            kind: word_kind(text_between(s, start, end)),
            lexeme: text_between(s, start, end),
            line,
            start,
            end,
            end_line: line,
        }
    } else if is_digit(s[start]) {
        let end = number_end(s, start + 1);
        Scan {
            kind: TokenKind::Number,
            lexeme: text_between(s, start, end),
            line,
            start,
            end,
            end_line: line,
        }
    } else if s[start] == QUOTE {
        let close = find_byte(s, start + 1, QUOTE);
        if close >= s.len() {
            Scan {
                kind: TokenKind::Error,
                lexeme: "Unterminated string."@,
                line,
                start,
                end: close,
                end_line: line_after(s, start + 1, close, line),
            }
        } else {
            Scan {
                kind: TokenKind::String,
                lexeme: text_between(s, start, close + 1),
                line,
                start,
                end: close + 1,
                end_line: line_after(s, start + 1, close, line),
            }
        }
    } else {
        let equals_follows = start + 1 < s.len() && s[start + 1] == EQUALS;
        match symbol_kind(s[start], equals_follows) {
            Some(kind) => {
                let end = if is_two_bytes(kind) {
                    start + 2
                } else {
                    start + 1
                };
                Scan { kind, lexeme: text_between(s, start, end), line, start, end, end_line: line }
            },
            None => Scan {
                kind: TokenKind::Error,
                lexeme: "Unexpected character"@,
                line,
                start,
                end: character_end(s, start + 1),
                end_line: line,
            },
        }
    }
}


/// A token lies inside the source, after the offset from which it was scanned
/// for, and every token but `End` is at least one byte long.
pub proof fn lemma_scan_bounds(s: Seq<u8>, pos: int, line: u32)
    requires
        0 <= pos <= s.len(),
    ensures
        pos <= scan(s, pos, line).start <= scan(s, pos, line).end <= s.len(),
        scan(s, pos, line).kind != TokenKind::End ==> scan(s, pos, line).start < scan(
            s,
            pos,
            line,
        ).end,
        scan(s, pos, line).kind == TokenKind::End ==> scan(s, pos, line).end == s.len(),
{
    reveal(scan);
    lemma_skip_blank_bounds(s, pos, line);
    let start = skip_blank(s, pos, line).0;
    if start < s.len() {
        lemma_word_end_bounds(s, start + 1);
        lemma_digits_end_bounds(s, start + 1);
        let whole = digits_end(s, start + 1);
        if whole + 1 < s.len() {
            lemma_digits_end_bounds(s, whole + 2);
        }
        lemma_find_byte_bounds(s, start + 1, QUOTE);
        lemma_character_end_bounds(s, start + 1);
        lemma_word_kind_is_word(text_between(s, start, word_end(s, start + 1)));
    }
}

/// A word is a keyword or an identifier, never another kind of token.
pub proof fn lemma_word_kind_is_word(word: Seq<char>)
    ensures
        word_kind(word) != TokenKind::End,
        word_kind(word) != TokenKind::Error,
        word_kind(word) != TokenKind::Number,
        word_kind(word) != TokenKind::String,
{
}

/// Once the end of the source is reached, scanning gives `End` again, at the
/// same place and on the same line.
pub proof fn lemma_end_repeats(s: Seq<u8>, pos: int, line: u32)
    requires
        0 <= pos <= s.len(),
        scan(s, pos, line).kind == TokenKind::End,
    ensures
        scan(s, scan(s, pos, line).end, scan(s, pos, line).end_line) == scan(s, pos, line),
{
    reveal(scan);
    lemma_scan_bounds(s, pos, line);
    lemma_skip_blank_bounds(s, pos, line);
}

/// The tokens that scanning from `pos` gives, up to the first `End`.
pub open spec fn tokens_from(s: Seq<u8>, pos: int, line: u32) -> Seq<Scan>
    decreases s.len() - pos,
{
    if pos < 0 || pos > s.len() {
        Seq::empty()
    } else {
        let found = scan(s, pos, line);
        proof {
            lemma_scan_bounds(s, pos, line);
        }
        if found.kind == TokenKind::End {
            seq![found]
        } else {
            seq![found] + tokens_from(s, found.end, found.end_line)
        }
    }
}

/// A source has at most as many tokens as it has bytes, and `End` after them.
pub proof fn lemma_tokens_bounded(s: Seq<u8>, pos: int, line: u32)
    requires
        0 <= pos <= s.len(),
    ensures
        1 <= tokens_from(s, pos, line).len() <= s.len() - pos + 1,
        tokens_from(s, pos, line).last().kind == TokenKind::End,
    decreases s.len() - pos,
{
    let found = scan(s, pos, line);
    lemma_scan_bounds(s, pos, line);
    if found.kind != TokenKind::End {
        lemma_tokens_bounded(s, found.end, found.end_line);
    }
}

/// The texts of the number literals that scanning from `pos` meets, in order.
pub open spec fn number_literals_from(s: Seq<u8>, pos: int, line: u32) -> Seq<Seq<char>>
    decreases s.len() - pos,
{
    if pos < 0 || pos > s.len() {
        Seq::empty()
    } else {
        let found = scan(s, pos, line);
        proof {
            lemma_scan_bounds(s, pos, line);
        }
        if found.kind == TokenKind::End {
            Seq::empty()
        } else if found.kind == TokenKind::Number {
            seq![found.lexeme] + number_literals_from(s, found.end, found.end_line)
        } else {
            number_literals_from(s, found.end, found.end_line)
        }
    }
}

/// The texts of the number literals of a source, in order.
pub open spec fn number_literals_of(s: Seq<u8>) -> Seq<Seq<char>> {
    number_literals_from(s, 0, 1)
}

/// Scans a source text, token by token.
#[derive(Debug)]
pub struct Scanner<'a> {
    source: &'a str,
    start: usize,
    current: usize,
    line: u32,
    start_line: u32,
}

fn digit(b: u8) -> (r: bool)
    ensures
        r == is_digit(b),
{
    0x30 <= b && b <= 0x39
}

fn letter(b: u8) -> (r: bool)
    ensures
        r == is_alpha(b),
{
    (0x41 <= b && b <= 0x5a) || (0x61 <= b && b <= 0x7a)
}

fn continuation(b: u8) -> (r: bool)
    ensures
        r == is_continuation_byte(b),
{
    0x80 <= b && b <= 0xbf
}

impl<'a> Scanner<'a> {
    /// The bytes of the source.
    pub closed spec fn bytes(&self) -> Seq<u8> {
        bytes_of(self.source)
    }

    /// The offset at which the next call of `next` starts.
    pub closed spec fn position(&self) -> int {
        self.current as int
    }

    /// The line at `position`, counted from 1.
    pub closed spec fn line(&self) -> u32 {
        self.line
    }

    /// The scanner stands inside its source, between two characters.
    pub closed spec fn wf(&self) -> bool {
        at_boundary(self.bytes(), self.current as int)
    }

    /// The byte at the scanner's position.
    spec fn peeked(&self) -> u8 {
        self.bytes()[self.current as int]
    }

    /// A scanner stands inside its source.
    pub proof fn lemma_inside(&self)
        requires
            self.wf(),
        ensures
            0 <= self.position() <= self.bytes().len(),
    {
    }

    /// `self` is `before` moved on to `current`, on line `line`.
    spec fn moved(&self, before: &Scanner<'a>, current: int, line: u32) -> bool {
        &&& self.source == before.source
        &&& self.start == before.start
        &&& self.start_line == before.start_line
        &&& self.current == current
        &&& self.line == line
    }

    pub fn new(source: &'a str) -> (scanner: Scanner<'a>)
        ensures
            scanner.wf(),
            scanner.bytes() == bytes_of(source),
            scanner.position() == 0,
            scanner.line() == 1,
    {
        proof {
            lemma_bytes_valid(source);
            lemma_at_boundary(bytes_of(source), 0);
        }
        Scanner { source, start: 0, current: 0, line: 1, start_line: 1 }
    }

    /// The next token: the one that [`scan`] describes at the scanner's
    /// position. After the end of the source every call gives an `End` token.
    pub fn next(&mut self) -> (token: Token<'a>)
        requires
            old(self).wf(),
        ensures
            final(self).wf(),
            final(self).bytes() == old(self).bytes(),
            ({
                let found = scan(old(self).bytes(), old(self).position(), old(self).line());
                &&& token.kind == found.kind
                &&& token.lexeme@ == found.lexeme
                &&& token.line == found.line
                &&& final(self).position() == found.end
                &&& final(self).line() == found.end_line
            }),
    {
        proof {
            reveal(scan);
        }
        self.skip_whitespace();

        self.start = self.current;
        self.start_line = self.line;

        if self.is_at_end() {
            return self.make_token(TokenKind::End);
        }
        proof {
            lemma_bytes_valid(self.source);
        }

        let c = self.advance();

        if letter(c) {
            proof {
                lemma_boundary_after_ascii(self.bytes(), self.start as int);
            }
            return self.identifier();
        }
        if digit(c) {
            proof {
                lemma_boundary_after_ascii(self.bytes(), self.start as int);
            }
            return self.number();
        }
        if c == QUOTE {
            return self.string();
        }
        let ghost at = self.current as int;
        let ghost equals_follows = at < self.bytes().len() && self.bytes()[at] == EQUALS;
        let kind = match c {
            0x28 => Some(TokenKind::LeftParen),  // (
            0x29 => Some(TokenKind::RightParen),  // )
            0x7b => Some(TokenKind::LeftBrace),  // {
            0x7d => Some(TokenKind::RightBrace),  // }
            0x3b => Some(TokenKind::Semicolon),  // ;
            0x2c => Some(TokenKind::Comma),  // ,
            0x2e => Some(TokenKind::Dot),  // .
            0x2d => Some(TokenKind::Minus),  // -
            0x2b => Some(TokenKind::Plus),  // +
            0x2f => Some(TokenKind::Slash),  // /
            0x2a => Some(TokenKind::Star),  // *
            0x21 => Some(  // !
                if self.matches(EQUALS) {
                    TokenKind::BangEqual
                } else {
                    TokenKind::Bang
                },
            ),
            0x3d => Some(  // =
                if self.matches(EQUALS) {
                    TokenKind::EqualEqual
                } else {
                    TokenKind::Equal
                },
            ),
            0x3c => Some(  // <
                if self.matches(EQUALS) {
                    TokenKind::LessEqual
                } else {
                    TokenKind::Less
                },
            ),
            0x3e => Some(  // >
                if self.matches(EQUALS) {
                    TokenKind::GreaterEqual
                } else {
                    TokenKind::Greater
                },
            ),
            _ => None,
        };
        assert(kind == symbol_kind(c, equals_follows));
        match kind {
            Some(kind) => {
                proof {
                    lemma_boundary_after_ascii(self.bytes(), self.start as int);
                    if is_two_bytes(kind) {
                        lemma_boundary_after_ascii(self.bytes(), self.start + 1);
                    }
                }
                self.make_token(kind)
            },
            None => {
                self.finish_character();
                self.make_error_token("Unexpected character")
            },
        }
    }

    fn make_token(&self, kind: TokenKind) -> (token: Token<'a>)
        requires
            self.start <= self.current <= self.bytes().len(),
            at_boundary(self.bytes(), self.start as int),
            at_boundary(self.bytes(), self.current as int),
        ensures
            token.kind == kind,
            token.lexeme@ == text_between(self.bytes(), self.start as int, self.current as int),
            token.line == self.start_line,
    {
        let lexeme = slice(self.source, self.start, self.current);
        Token::new(kind, lexeme, self.start_line)
    }

    fn make_error_token(&self, message: &'a str) -> (token: Token<'a>)
        ensures
            token.kind == TokenKind::Error,
            token.lexeme@ == message@,
            token.line == self.start_line,
    {
        Token::new(TokenKind::Error, message, self.start_line)
    }

    fn is_at_end(&self) -> (at_end: bool)
        requires
            self.current <= self.bytes().len(),
        ensures
            at_end == (self.current == self.bytes().len()),
    {
        self.current == self.source.as_bytes().len()
    }

    /// The byte at the scanner's position; 0 at the end.
    fn peek(&self) -> (b: u8)
        requires
            self.current <= self.bytes().len(),
        ensures
            b == if self.current < self.bytes().len() {
                self.bytes()[self.current as int]
            } else {
                0u8
            },
    {
        let bytes = self.source.as_bytes();
        if self.current < bytes.len() {
            bytes[self.current]
        } else {
            0
        }
    }

    /// The byte after the one at the scanner's position; 0 past the end.
    fn peek_next(&self) -> (b: u8)
        requires
            self.current <= self.bytes().len(),
        ensures
            b == if self.current + 1 < self.bytes().len() {
                self.bytes()[self.current + 1]
            } else {
                0u8
            },
    {
        let bytes = self.source.as_bytes();
        if self.current < bytes.len() && self.current + 1 < bytes.len() {
            bytes[self.current + 1]
        } else {
            0
        }
    }

    fn advance(&mut self) -> (b: u8)
        requires
            old(self).current < old(self).bytes().len(),
        ensures
            final(self).moved(old(self), old(self).current + 1, old(self).line),
            b == old(self).bytes()[old(self).current as int],
    {
        let b = self.source.as_bytes()[self.current];
        self.current += 1;
        b
    }

    fn matches(&mut self, expected: u8) -> (matched: bool)
        requires
            old(self).current <= old(self).bytes().len(),
        ensures
            matched == (old(self).current < old(self).bytes().len() && old(self).peeked()
                == expected),
            final(self).moved(
                old(self),
                if matched {
                    old(self).current + 1
                } else {
                    old(self).current as int
                },
                old(self).line,
            ),
    {
        if self.is_at_end() {
            return false;
        }
        if self.peek() != expected {
            return false;
        }
        self.advance();

        true
    }

    fn count_line(&mut self)
        ensures
            final(self).moved(old(self), old(self).current as int, next_line(old(self).line)),
    {
        if self.line < u32::MAX {
            self.line += 1;
        }
    }

    fn skip_whitespace(&mut self)
        requires
            old(self).wf(),
        ensures
            final(self).wf(),
            final(self).moved(
                old(self),
                skip_blank(old(self).bytes(), old(self).current as int, old(self).line).0,
                skip_blank(old(self).bytes(), old(self).current as int, old(self).line).1,
            ),
    {
        let ghost bytes = self.bytes();
        let ghost target = skip_blank(bytes, self.current as int, self.line);
        proof {
            lemma_bytes_valid(self.source);
        }
        let mut done = false;
        while !done
            invariant
                self.source == old(self).source,
                self.start == old(self).start,
                self.start_line == old(self).start_line,
                bytes == self.bytes(),
                valid_utf8(bytes),
                at_boundary(bytes, self.current as int),
                skip_blank(bytes, self.current as int, self.line) == target,
                done ==> target == (self.current as int, self.line),
            decreases bytes.len() - self.current + if done { 0int } else { 1int },
        {
            let c = self.peek();
            if self.is_at_end() {
                done = true;
            } else if c == SPACE || c == CARRIAGE_RETURN || c == TAB {
                proof {
                    lemma_boundary_after_ascii(bytes, self.current as int);
                }
                self.advance();
            } else if c == NEWLINE {
                proof {
                    lemma_boundary_after_ascii(bytes, self.current as int);
                }
                self.count_line();
                self.advance();
            } else if c == SLASH && self.peek_next() == SLASH {
                let ghost from = self.current as int;
                let ghost line = self.line;
                proof {
                    lemma_find_byte_bounds(bytes, from + 2, NEWLINE);
                }
                self.advance();
                self.advance();
                while self.peek() != NEWLINE && !self.is_at_end()
                    invariant
                        self.source == old(self).source,
                        self.start == old(self).start,
                        self.start_line == old(self).start_line,
                        self.line == line,
                        bytes == self.bytes(),
                        valid_utf8(bytes),
                        !done,
                        skip_blank(bytes, from, line) == target,
                        from + 1 < bytes.len() && bytes[from] == SLASH && bytes[from + 1] == SLASH,
                        from + 2 <= self.current <= bytes.len(),
                        find_byte(bytes, self.current as int, NEWLINE) == find_byte(
                            bytes,
                            from + 2,
                            NEWLINE,
                        ),
                    decreases bytes.len() - self.current,
                {
                    self.advance();
                }
                assert(find_byte(bytes, self.current as int, NEWLINE) == self.current);
            } else {
                done = true;
            }
        }
    }

    /// Moves on over the rest of the bytes of the character just entered.
    fn finish_character(&mut self)
        requires
            old(self).current <= old(self).bytes().len(),
        ensures
            final(self).moved(
                old(self),
                character_end(old(self).bytes(), old(self).current as int),
                old(self).line,
            ),
            at_boundary(final(self).bytes(), final(self).current as int),
    {
        let ghost bytes = self.bytes();
        while continuation(self.peek())
            invariant
                self.source == old(self).source,
                self.start == old(self).start,
                self.start_line == old(self).start_line,
                self.line == old(self).line,
                bytes == self.bytes(),
                self.current <= bytes.len(),
                character_end(bytes, self.current as int) == character_end(
                    bytes,
                    old(self).current as int,
                ),
            decreases bytes.len() - self.current,
        {
            self.advance();
        }
    }

    fn string(&mut self) -> (token: Token<'a>)
        requires
            old(self).start < old(self).bytes().len(),
            old(self).current == old(self).start + 1,
            old(self).bytes()[old(self).start as int] == QUOTE,
            at_boundary(old(self).bytes(), old(self).start as int),
        ensures
            ({
                let bytes = old(self).bytes();
                let start = old(self).start as int;
                let close = find_byte(bytes, start + 1, QUOTE);
                let end = if close >= bytes.len() {
                    close
                } else {
                    close + 1
                };
                &&& final(self).moved(
                    old(self),
                    end,
                    line_after(bytes, start + 1, close, old(self).line),
                )
                &&& at_boundary(bytes, end)
                &&& token.line == old(self).start_line
                &&& close >= bytes.len() ==> token.kind == TokenKind::Error && token.lexeme@
                    == "Unterminated string."@
                &&& close < bytes.len() ==> token.kind == TokenKind::String && token.lexeme@
                    == text_between(bytes, start, end)
            }),
    {
        let ghost bytes = self.bytes();
        let ghost start = self.start as int;
        let ghost close = find_byte(bytes, start + 1, QUOTE);
        let ghost end_line = line_after(bytes, start + 1, close, self.line);
        proof {
            lemma_bytes_valid(self.source);
            lemma_find_byte_bounds(bytes, start + 1, QUOTE);
        }
        while self.peek() != QUOTE && !self.is_at_end()
            invariant
                self.source == old(self).source,
                self.start == old(self).start,
                self.start_line == old(self).start_line,
                bytes == self.bytes(),
                start + 1 <= self.current <= close <= bytes.len(),
                find_byte(bytes, self.current as int, QUOTE) == close,
                line_after(bytes, self.current as int, close, self.line) == end_line,
            decreases bytes.len() - self.current,
        {
            proof {
                lemma_find_byte_bounds(bytes, self.current + 1, QUOTE);
            }
            if self.peek() == NEWLINE {
                self.count_line();
            }
            self.advance();
        }

        if self.is_at_end() {
            return self.make_error_token("Unterminated string.");
        }
        proof {
            lemma_boundary_after_ascii(bytes, close);
        }

        self.advance();
        self.make_token(TokenKind::String)
    }

    fn number(&mut self) -> (token: Token<'a>)
        requires
            old(self).current == old(self).start + 1,
            old(self).current <= old(self).bytes().len(),
            at_boundary(old(self).bytes(), old(self).start as int),
            at_boundary(old(self).bytes(), old(self).current as int),
        ensures
            final(self).moved(
                old(self),
                number_end(old(self).bytes(), old(self).current as int),
                old(self).line,
            ),
            at_boundary(final(self).bytes(), final(self).current as int),
            token.kind == TokenKind::Number,
            token.lexeme@ == text_between(
                old(self).bytes(),
                old(self).start as int,
                final(self).current as int,
            ),
            token.line == old(self).start_line,
    {
        self.digits();

        if self.peek() == DOT && digit(self.peek_next()) {
            proof {
                lemma_bytes_valid(self.source);
                lemma_boundary_after_ascii(self.bytes(), self.current as int);
            }
            self.advance();  // the dot
            self.digits();
        }
        self.make_token(TokenKind::Number)
    }

    /// Moves on over digits.
    fn digits(&mut self)
        requires
            old(self).current <= old(self).bytes().len(),
            at_boundary(old(self).bytes(), old(self).current as int),
        ensures
            final(self).moved(
                old(self),
                digits_end(old(self).bytes(), old(self).current as int),
                old(self).line,
            ),
            old(self).current <= final(self).current <= old(self).bytes().len(),
            at_boundary(final(self).bytes(), final(self).current as int),
    {
        let ghost bytes = self.bytes();
        proof {
            lemma_bytes_valid(self.source);
        }
        while digit(self.peek())
            invariant
                self.source == old(self).source,
                self.start == old(self).start,
                self.start_line == old(self).start_line,
                self.line == old(self).line,
                bytes == self.bytes(),
                valid_utf8(bytes),
                old(self).current <= self.current <= bytes.len(),
                at_boundary(bytes, self.current as int),
                digits_end(bytes, self.current as int) == digits_end(
                    bytes,
                    old(self).current as int,
                ),
            decreases bytes.len() - self.current,
        {
            proof {
                lemma_boundary_after_ascii(bytes, self.current as int);
            }
            self.advance();
        }
    }

    fn identifier(&mut self) -> (token: Token<'a>)
        requires
            old(self).current == old(self).start + 1,
            old(self).current <= old(self).bytes().len(),
            at_boundary(old(self).bytes(), old(self).start as int),
            at_boundary(old(self).bytes(), old(self).current as int),
        ensures
            final(self).moved(
                old(self),
                word_end(old(self).bytes(), old(self).current as int),
                old(self).line,
            ),
            at_boundary(final(self).bytes(), final(self).current as int),
            token.lexeme@ == text_between(
                old(self).bytes(),
                old(self).start as int,
                final(self).current as int,
            ),
            token.kind == word_kind(token.lexeme@),
            token.line == old(self).start_line,
    {
        let ghost bytes = self.bytes();
        proof {
            lemma_bytes_valid(self.source);
        }
        while letter(self.peek()) || digit(self.peek())
            invariant
                self.source == old(self).source,
                self.start == old(self).start,
                self.start_line == old(self).start_line,
                self.line == old(self).line,
                bytes == self.bytes(),
                valid_utf8(bytes),
                old(self).current <= self.current <= bytes.len(),
                at_boundary(bytes, self.current as int),
                word_end(bytes, self.current as int) == word_end(bytes, old(self).current as int),
            decreases bytes.len() - self.current,
        {
            proof {
                lemma_boundary_after_ascii(bytes, self.current as int);
            }
            self.advance();
        }
        self.make_identifier_token()
    }

    fn make_identifier_token(&self) -> (token: Token<'a>)
        requires
            self.start <= self.current <= self.bytes().len(),
            at_boundary(self.bytes(), self.start as int),
            at_boundary(self.bytes(), self.current as int),
        ensures
            token.lexeme@ == text_between(self.bytes(), self.start as int, self.current as int),
            token.kind == word_kind(token.lexeme@),
            token.line == self.start_line,
    {
        let lexeme = slice(self.source, self.start, self.current);

        let kind = if same_text(lexeme, "and") {
            TokenKind::And
        } else if same_text(lexeme, "class") {
            TokenKind::Class
        } else if same_text(lexeme, "else") {
            TokenKind::Else
        } else if same_text(lexeme, "false") {
            TokenKind::False
        } else if same_text(lexeme, "for") {
            TokenKind::For
        } else if same_text(lexeme, "fun") {
            TokenKind::Fun
        } else if same_text(lexeme, "if") {
            TokenKind::If
        } else if same_text(lexeme, "nil") {
            TokenKind::Nil
        } else if same_text(lexeme, "or") {
            TokenKind::Or
        } else if same_text(lexeme, "print") {
            TokenKind::Print
        } else if same_text(lexeme, "return") {
            TokenKind::Return
        } else if same_text(lexeme, "super") {
            TokenKind::Super
        } else if same_text(lexeme, "this") {
            TokenKind::This
        } else if same_text(lexeme, "true") {
            TokenKind::True
        } else if same_text(lexeme, "var") {
            TokenKind::Var
        } else if same_text(lexeme, "while") {
            TokenKind::While
        } else {
            TokenKind::Identifier
        };

        Token::new(kind, lexeme, self.start_line)
    }
}


/// The number literals of `source`, in order, as they stand in it. The
/// compiler takes their values in this order.
pub fn number_literals<'a>(source: &'a str) -> (literals: Vec<&'a str>)
    ensures
        literals@.len() == number_literals_of(bytes_of(source)).len(),
        forall|i: int|
            0 <= i < literals@.len() ==> (#[trigger] literals@[i])@ == number_literals_of(
                bytes_of(source),
            )[i],
{
    let mut scanner = Scanner::new(source);
    let mut literals: Vec<&'a str> = Vec::new();
    let ghost bytes = bytes_of(source);
    let ghost all = number_literals_of(bytes);
    let ghost mut found: Seq<Seq<char>> = Seq::empty();
    let mut done = false;
    while !done
        invariant
            scanner.wf(),
            scanner.bytes() == bytes,
            0 <= scanner.position() <= bytes.len(),
            found.len() == literals@.len(),
            forall|i: int| 0 <= i < literals@.len() ==> (#[trigger] literals@[i])@ == found[i],
            !done ==> all == found + number_literals_from(
                bytes,
                scanner.position(),
                scanner.line(),
            ),
            done ==> all == found,
        decreases bytes.len() - scanner.position() + if done { 0int } else { 1int },
    {
        proof {
            lemma_scan_bounds(bytes, scanner.position(), scanner.line());
        }
        let ghost rest = number_literals_from(bytes, scanner.position(), scanner.line());
        let token = scanner.next();
        if token.kind == TokenKind::End {
            done = true;
            assert(found + rest =~= found);
        } else if token.kind == TokenKind::Number {
            literals.push(token.lexeme);
            proof {
                let after = number_literals_from(bytes, scanner.position(), scanner.line());
                assert(found + rest =~= found.push(token.lexeme@) + after);
                found = found.push(token.lexeme@);
            }
        }
    }
    literals
}

/// A string that is not closed before the end of the source scans to an
/// `Error` token that says so, and the scanner is then at the end.
pub proof fn lemma_unterminated_string(s: Seq<u8>, pos: int, line: u32)
    requires
        0 <= pos <= s.len(),
        ({
            let start = skip_blank(s, pos, line).0;
            &&& start < s.len()
            &&& s[start] == QUOTE
            &&& forall|i: int| start < i < s.len() ==> s[i] != QUOTE
        }),
    ensures
        scan(s, pos, line).kind == TokenKind::Error,
        scan(s, pos, line).lexeme == "Unterminated string."@,
        scan(s, pos, line).end == s.len(),
{
    reveal(scan);
    lemma_skip_blank_bounds(s, pos, line);
    let start = skip_blank(s, pos, line).0;
    lemma_find_byte_bounds(s, start + 1, QUOTE);
}

/// Blanks and comments end between two characters.
pub proof fn lemma_skip_blank_boundary(s: Seq<u8>, i: int, line: u32)
    requires
        valid_utf8(s),
        at_boundary(s, i),
    ensures
        at_boundary(s, skip_blank(s, i, line).0),
    decreases s.len() - i,
{
    if i >= s.len() {
    } else if s[i] == SPACE || s[i] == CARRIAGE_RETURN || s[i] == TAB {
        lemma_boundary_after_ascii(s, i);
        lemma_skip_blank_boundary(s, i + 1, line);
    } else if s[i] == NEWLINE {
        lemma_boundary_after_ascii(s, i);
        lemma_skip_blank_boundary(s, i + 1, next_line(line));
    } else if s[i] == SLASH && i + 1 < s.len() && s[i + 1] == SLASH {
        lemma_find_byte_bounds(s, i + 2, NEWLINE);
        lemma_skip_blank_boundary(s, find_byte(s, i + 2, NEWLINE), line);
    }
}

/// The text of a `String` token without its quotes is the text between the
/// two quotes that delimit it in the source.
pub proof fn lemma_string_content(s: Seq<u8>, pos: int, line: u32)
    requires
        valid_utf8(s),
        at_boundary(s, pos),
        scan(s, pos, line).kind == TokenKind::String,
    ensures
        unquoted(scan(s, pos, line).lexeme) == text_between(
            s,
            scan(s, pos, line).start + 1,
            scan(s, pos, line).end - 1,
        ),
{
    reveal(scan);
    lemma_skip_blank_bounds(s, pos, line);
    lemma_skip_blank_boundary(s, pos, line);
    let start = skip_blank(s, pos, line).0;
    lemma_word_kind_is_word(text_between(s, start, word_end(s, start + 1)));
    assert(s[start] == QUOTE);
    let close = find_byte(s, start + 1, QUOTE);
    lemma_find_byte_bounds(s, start + 1, QUOTE);
    lemma_boundary_after_ascii(s, close);
    lemma_piece_valid(s, start, close + 1);
    let piece = s.subrange(start, close + 1);
    let n = piece.len() as int;
    assert(piece[0] == QUOTE);
    assert(piece[n - 1] == QUOTE);
    lemma_no_quote_between(s, start + 1, close);
    assert forall|i: int| 0 < i < n - 1 implies piece[i] != QUOTE by {
        assert(piece[i] == s[start + i]);
    }
    if n == 2 {
        assert(quotes_end(piece, 2) == 2);
        assert(quotes_end(piece, 1) == 2);
        assert(quotes_end(piece, 0) == 2);
        assert(quotes_start(piece, 2, 2) == 2);
        assert(piece.subrange(2, 2) =~= s.subrange(start + 1, close));
    } else {
        assert(quotes_end(piece, 1) == 1);
        assert(quotes_end(piece, 0) == 1);
        assert(quotes_start(piece, 1, n - 1) == n - 1);
        assert(quotes_start(piece, 1, n) == n - 1);
        assert(piece.subrange(1, n - 1) =~= s.subrange(start + 1, close));
    }
}

/// Before the first offset that holds a quote no offset holds one.
pub proof fn lemma_no_quote_between(s: Seq<u8>, from: int, to: int)
    requires
        0 <= from <= s.len(),
        to == find_byte(s, from, QUOTE),
    ensures
        forall|i: int| from <= i < to ==> s[i] != QUOTE,
    decreases s.len() - from,
{
    if from < s.len() && s[from] != QUOTE {
        lemma_no_quote_between(s, from + 1, to);
    }
}

} // verus!
