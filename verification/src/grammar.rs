//! What compiling means: the parser and code generator as functions on a
//! parser state.
//!
//! The compiler in `compiler` is proved to do, step by step, what the spec
//! functions of this module say. They follow precedence climbing: a prefix
//! part, then infix operators for as long as they bind at least as tightly as
//! asked for.

use crate::bytecode::{encode, ChunkModel, OpCode, ValueModel};
use crate::scanner::{lemma_scan_bounds, scan, TokenKind};
use crate::text::unquoted;
use vstd::prelude::*;

verus! {

/// How tightly an operator binds, from not at all to most tightly.
#[derive(Copy, Clone, Debug, PartialEq, Eq, Structural)]
pub enum Precedence {
    Lowest,
    Assignment,
    Or,
    And,
    Equality,
    Comparison,
    Term,
    Factor,
    Unary,
    Call,
    Primary,
}

/// The place of a precedence in their order.
pub open spec fn level(precedence: Precedence) -> int {
    match precedence {
        Precedence::Lowest => 0,
        Precedence::Assignment => 1,
        Precedence::Or => 2,
        Precedence::And => 3,
        Precedence::Equality => 4,
        Precedence::Comparison => 5,
        Precedence::Term => 6,
        Precedence::Factor => 7,
        Precedence::Unary => 8,
        Precedence::Call => 9,
        Precedence::Primary => 10,
    }
}

/// The next higher precedence; the highest stays.
pub open spec fn above(precedence: Precedence) -> Precedence {
    match precedence {
        Precedence::Lowest => Precedence::Assignment,
        Precedence::Assignment => Precedence::Or,
        Precedence::Or => Precedence::And,
        Precedence::And => Precedence::Equality,
        Precedence::Equality => Precedence::Comparison,
        Precedence::Comparison => Precedence::Term,
        Precedence::Term => Precedence::Factor,
        Precedence::Factor => Precedence::Unary,
        Precedence::Unary => Precedence::Call,
        Precedence::Call => Precedence::Primary,
        Precedence::Primary => Precedence::Primary,
    }
}

impl Precedence {
    pub fn rank(self) -> (r: u8)
        ensures
            r == level(self),
    {
        match self {
            Precedence::Lowest => 0,
            Precedence::Assignment => 1,
            Precedence::Or => 2,
            Precedence::And => 3,
            Precedence::Equality => 4,
            Precedence::Comparison => 5,
            Precedence::Term => 6,
            Precedence::Factor => 7,
            Precedence::Unary => 8,
            Precedence::Call => 9,
            Precedence::Primary => 10,
        }
    }

    pub fn next(self) -> (higher: Precedence)
        ensures
            higher == above(self),
    {
        match self {
            Precedence::Lowest => Precedence::Assignment,
            Precedence::Assignment => Precedence::Or,
            Precedence::Or => Precedence::And,
            Precedence::And => Precedence::Equality,
            Precedence::Equality => Precedence::Comparison,
            Precedence::Comparison => Precedence::Term,
            Precedence::Term => Precedence::Factor,
            Precedence::Factor => Precedence::Unary,
            Precedence::Unary => Precedence::Call,
            Precedence::Call => Precedence::Primary,
            Precedence::Primary => Precedence::Primary,
        }
    }
}

/// The parts of the parser that a token can call for.
#[derive(Copy, Clone, Debug, PartialEq, Eq, Structural)]
pub enum Handler {
    Grouping,
    Unary,
    Binary,
    Number,
    String,
    Literal,
}

/// What a token kind means to the parser: how an expression that starts with
/// it is parsed, how one that goes on with it is, and how tightly it binds as
/// an infix operator.
#[derive(Copy, Clone, Debug, PartialEq, Eq, Structural)]
pub struct ParseRule {
    pub prefix: Option<Handler>,
    pub infix: Option<Handler>,
    pub precedence: Precedence,
}

/// How an expression that starts with a token of this kind is parsed.
pub open spec fn prefix_of(kind: TokenKind) -> Option<Handler> {
    match kind {
        TokenKind::LeftParen => Some(Handler::Grouping),
        TokenKind::Minus | TokenKind::Bang => Some(Handler::Unary),
        TokenKind::String => Some(Handler::String),
        TokenKind::Number => Some(Handler::Number),
        TokenKind::False | TokenKind::Nil | TokenKind::True => Some(Handler::Literal),
        _ => None,
    }
}

/// How tightly a token of this kind binds as an infix operator.
pub open spec fn precedence_of(kind: TokenKind) -> Precedence {
    match kind {
        TokenKind::Minus | TokenKind::Plus => Precedence::Term,
        TokenKind::Slash | TokenKind::Star => Precedence::Factor,
        TokenKind::BangEqual | TokenKind::EqualEqual => Precedence::Equality,
        TokenKind::Greater | TokenKind::GreaterEqual | TokenKind::Less | TokenKind::LessEqual =>
            Precedence::Comparison,
        _ => Precedence::Lowest,
    }
}

/// The infix operators are the binary ones: the tokens that bind at all.
pub open spec fn infix_of(kind: TokenKind) -> Option<Handler> {
    if precedence_of(kind) != Precedence::Lowest {
        Some(Handler::Binary)
    } else {
        None
    }
}

pub open spec fn rule_of(kind: TokenKind) -> ParseRule {
    ParseRule { prefix: prefix_of(kind), infix: infix_of(kind), precedence: precedence_of(kind) }
}

/// The instructions of a binary operator, after those of its operands.
pub open spec fn binary_codes(kind: TokenKind) -> Seq<OpCode> {
    match kind {
        TokenKind::Plus => seq![OpCode::Add],
        TokenKind::Minus => seq![OpCode::Subtract],
        TokenKind::Star => seq![OpCode::Multiply],
        TokenKind::Slash => seq![OpCode::Divide],
        TokenKind::EqualEqual => seq![OpCode::Equal],
        TokenKind::BangEqual => seq![OpCode::Equal, OpCode::Not],
        TokenKind::Less => seq![OpCode::Less],
        TokenKind::LessEqual => seq![OpCode::Greater, OpCode::Not],
        TokenKind::Greater => seq![OpCode::Greater],
        TokenKind::GreaterEqual => seq![OpCode::Less, OpCode::Not],
        _ => seq![],
    }
}

/// The instruction of a unary operator, after those of its operand.
pub open spec fn unary_code(kind: TokenKind) -> OpCode {
    if kind == TokenKind::Bang {
        OpCode::Not
    } else {
        OpCode::Negate
    }
}

/// The instruction of `true`, `false` or `nil`.
pub open spec fn literal_code(kind: TokenKind) -> OpCode {
    if kind == TokenKind::True {
        OpCode::True
    } else if kind == TokenKind::False {
        OpCode::False
    } else {
        OpCode::Nil
    }
}

/// A token as the parser holds it. A number literal has its value with it.
pub struct Lexeme {
    pub kind: TokenKind,
    pub text: Seq<char>,
    pub line: u32,
    pub value: Option<u64>,
}

/// A reported compile error.
pub struct Report {
    pub line: u32,
    /// Where: `" at the end."`, or `" at "`, the token's text and a blank.
    pub location: Seq<char>,
    pub message: Seq<char>,
}

/// The state of the parser.
pub struct Parser {
    /// The bytes of the source.
    pub source: Seq<u8>,
    /// How far the source has been scanned, and the line there.
    pub position: int,
    pub line: u32,
    /// The token that comes next.
    pub current: Lexeme,
    /// The token that was taken last.
    pub previous: Option<Lexeme>,
    /// The code so far.
    pub chunk: ChunkModel,
    pub had_error: bool,
    pub panic_mode: bool,
    /// The errors reported so far.
    pub reports: Seq<Report>,
    /// The values of the number literals of the source, in order, and how many
    /// of them have gone to scanned tokens.
    pub numbers: Seq<u64>,
    pub taken: int,
}

impl Parser {
    /// The token taken last.
    pub open spec fn last(self) -> Lexeme {
        self.previous.unwrap()
    }

    /// A bound on the tokens that are still to come: the bytes not yet
    /// scanned, and one for a current token that is not the end.
    pub open spec fn ahead(self) -> int {
        self.source.len() - self.position + if self.current.kind != TokenKind::End {
            1int
        } else {
            0int
        }
    }

    /// The scanner stands inside the source.
    pub open spec fn inside(self) -> bool {
        0 <= self.position <= self.source.len()
    }
}

/// Where an error is: at the end, or at a token.
pub open spec fn location(token: Lexeme) -> Seq<char> {
    if token.kind == TokenKind::End {
        " at the end."@
    } else {
        " at "@ + token.text + " "@
    }
}

/// Reports an error at `token`, unless one has been reported already.
pub open spec fn reported(p: Parser, token: Lexeme, message: Seq<char>) -> Parser {
    if p.panic_mode {
        p
    } else {
        Parser {
            panic_mode: true,
            had_error: true,
            reports: p.reports.push(
                Report { line: token.line, location: location(token), message },
            ),
            ..p
        }
    }
}

/// Scans the next token into `current`. A number literal takes the next of
/// the values.
pub open spec fn fetched(p: Parser) -> Parser {
    let found = scan(p.source, p.position, p.line);
    let is_number = found.kind == TokenKind::Number;
    Parser {
        current: Lexeme {
            kind: found.kind,
            text: found.lexeme,
            line: found.line,
            value: if is_number && 0 <= p.taken < p.numbers.len() {
                Some(p.numbers[p.taken])
            } else {
                None
            },
        },
        position: found.end,
        line: found.end_line,
        taken: if is_number {
            p.taken + 1
        } else {
            p.taken
        },
        ..p
    }
}

/// Takes the current token and scans the next. An `Error` token is reported,
/// with its text as the message.
pub open spec fn advanced(p: Parser) -> Parser {
    let q = fetched(Parser { previous: Some(p.current), ..p });
    if q.current.kind == TokenKind::Error {
        reported(q, q.current, q.current.text)
    } else {
        q
    }
}

/// Takes the current token if it is of the kind; else reports `message` at it.
pub open spec fn consumed(p: Parser, kind: TokenKind, message: Seq<char>) -> Parser {
    if p.current.kind == kind {
        advanced(p)
    } else {
        reported(p, p.current, message)
    }
}

/// Appends a byte of code, on the line of the token taken last.
pub open spec fn emitted(p: Parser, byte: u8) -> Parser {
    Parser {
        chunk: ChunkModel {
            code: p.chunk.code.push(byte),
            lines: p.chunk.lines.push(p.last().line),
            ..p.chunk
        },
        ..p
    }
}

/// Appends the opcodes, in order.
pub open spec fn emitted_ops(p: Parser, ops: Seq<OpCode>) -> Parser
    decreases ops.len(),
{
    if ops.len() == 0 {
        p
    } else {
        emitted(emitted_ops(p, ops.drop_last()), encode(ops.last()))
    }
}

/// Adds a constant to the pool. A pool of 256 constants is full: it stays as
/// it is, and an error is reported.
pub open spec fn stored(p: Parser, value: ValueModel) -> Parser {
    if p.chunk.constants.len() > 255 {
        reported(p, p.last(), "Too many constants in one chunk."@)
    } else {
        Parser {
            chunk: ChunkModel { constants: p.chunk.constants.push(value), ..p.chunk },
            ..p
        }
    }
}

/// The index by which the next constant is referred to: its place in the
/// pool, or 0 where the pool is full.
pub open spec fn stored_index(p: Parser) -> u8 {
    if p.chunk.constants.len() > 255 {
        0
    } else {
        p.chunk.constants.len() as u8
    }
}

/// The pool never holds more than 256 constants. While it holds fewer, a
/// constant goes to its end, its index is its place there, and no error is
/// recorded. Once it holds 256, it stays as it is, the index is 0, and the
/// compilation has failed.
pub proof fn lemma_stored(p: Parser, value: ValueModel)
    requires
        p.chunk.constants.len() <= 256,
    ensures
        stored(p, value).chunk.constants.len() <= 256,
        p.chunk.constants.len() < 256 ==> {
            &&& stored(p, value).chunk.constants == p.chunk.constants.push(value)
            &&& stored_index(p) == p.chunk.constants.len()
            &&& stored(p, value).had_error == p.had_error
            &&& stored(p, value).reports == p.reports
        },
        p.chunk.constants.len() == 256 ==> {
            &&& stored(p, value).chunk == p.chunk
            &&& stored_index(p) == 0
            &&& !p.panic_mode ==> stored(p, value).had_error && stored(p, value).reports
                == p.reports.push(
                Report {
                    line: p.last().line,
                    location: location(p.last()),
                    message: "Too many constants in one chunk."@,
                },
            )
            &&& p.panic_mode ==> stored(p, value) == p
        },
{
}

/// Adds a constant and the instruction that loads it.
pub open spec fn with_constant(p: Parser, value: ValueModel) -> Parser {
    emitted(emitted(stored(p, value), encode(OpCode::Constant)), stored_index(p))
}

/// Taking a token brings the end no further away, and a token that is not the
/// end brings it nearer.
pub proof fn lemma_advanced_ahead(p: Parser)
    requires
        p.inside(),
    ensures
        advanced(p).inside(),
        advanced(p).ahead() <= p.ahead(),
        p.current.kind != TokenKind::End ==> advanced(p).ahead() < p.ahead(),
        advanced(p).previous == Some(p.current),
{
    lemma_scan_bounds(p.source, p.position, p.line);
}

/// Parses an expression whose operators bind at least as tightly as `least`:
/// a prefix part, then the infix operators that follow.
pub open spec fn parsed(p: Parser, least: Precedence) -> Parser
    decreases p.ahead(), 0int,
    when p.inside()
{
    let q = advanced(p);
    match prefix_of(q.last().kind) {
        None => reported(q, q.last(), "Expected an expression."@),
        Some(handler) => {
            proof {
                lemma_advanced_ahead(p);
            }
            let r = applied(q, handler);
            // This test only serves to show that the definition ends. It holds
            // of every state that a compilation comes to: `applied` never
            // brings the end further away (`soundness::lemma_applied`).
            if r.inside() && r.ahead() <= q.ahead() {
                continued(r, least)
            } else {
                r
            }
        },
    }
}

/// The infix operators that follow, for as long as they bind at least as
/// tightly as `least`, each with its right operand.
pub open spec fn continued(p: Parser, least: Precedence) -> Parser
    decreases p.ahead(), 2int,
    when p.inside()
{
    if level(least) <= level(precedence_of(p.current.kind)) {
        match infix_of(p.current.kind) {
            None => p,
            Some(handler) => {
                proof {
                    lemma_advanced_ahead(p);
                }
                let q = advanced(p);
                let r = applied(q, handler);
                // As in `parsed`: the test only shows that the definition ends.
                if r.inside() && r.ahead() <= q.ahead() {
                    continued(r, least)
                } else {
                    r
                }
            },
        }
    } else {
        p
    }
}

/// The part of the parser that the token taken last calls for.
pub open spec fn applied(p: Parser, handler: Handler) -> Parser
    decreases p.ahead(), 1int,
    when p.inside()
{
    let kind = p.last().kind;
    match handler {
        Handler::Grouping => consumed(
            parsed(p, Precedence::Assignment),
            TokenKind::RightParen,
            "Expected ')' after expression"@,
        ),
        Handler::Unary => emitted(parsed(p, Precedence::Unary), encode(unary_code(kind))),
        Handler::Binary => emitted_ops(parsed(p, above(precedence_of(kind))), binary_codes(kind)),
        Handler::Number => with_constant(p, ValueModel::Float(p.last().value.unwrap())),
        Handler::String => with_constant(p, ValueModel::Str(unquoted(p.last().text))),
        Handler::Literal => emitted(p, encode(literal_code(kind))),
    }
}

/// The parser before the first token of `source` is scanned.
pub open spec fn blank(source: Seq<u8>, numbers: Seq<u64>) -> Parser {
    Parser {
        source,
        position: 0,
        line: 1,
        current: Lexeme { kind: TokenKind::End, text: Seq::empty(), line: 1, value: None },
        previous: None,
        chunk: ChunkModel { code: Seq::empty(), constants: Seq::empty(), lines: Seq::empty() },
        had_error: false,
        panic_mode: false,
        reports: Seq::empty(),
        numbers,
        taken: 0,
    }
}

/// The parser at the start: the first token of `source` is the current one.
pub open spec fn initial(source: Seq<u8>, numbers: Seq<u64>) -> Parser {
    fetched(blank(source, numbers))
}

/// Compiles into an empty chunk: one expression, then the end of the source,
/// then `Return`.
pub open spec fn compiled_from(p: Parser) -> Parser {
    let fresh = Parser {
        chunk: ChunkModel { code: Seq::empty(), constants: Seq::empty(), lines: Seq::empty() },
        ..p
    };
    emitted(
        consumed(
            parsed(fresh, Precedence::Assignment),
            TokenKind::End,
            "Expected the end of an expression."@,
        ),
        encode(OpCode::Return),
    )
}

/// What compiling `source` comes to, when its number literals have the values
/// `numbers`: the chunk, whether there was an error, and the errors reported.
pub open spec fn compiled(source: Seq<u8>, numbers: Seq<u64>) -> Parser {
    compiled_from(initial(source, numbers))
}

} // verus!
