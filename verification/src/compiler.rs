//! The compiler: a single pass over the tokens that emits bytecode as it
//! parses.
//!
//! Each method is proved to change the compiler as the spec function of the
//! same purpose in `grammar` changes the parser state. So what
//! [`Compiler::compile`] returns is what [`compiled`] says, for every source.

use crate::bytecode::{encode, models, Chunk, ChunkModel, OpCode, Value, ValueModel};
use crate::grammar::{
    above, advanced, applied, binary_codes, blank, compiled_from, consumed, continued, emitted,
    emitted_ops, fetched, infix_of, initial, lemma_advanced_ahead, literal_code, location,
    parsed, precedence_of, prefix_of, reported, rule_of, stored, stored_index, unary_code,
    with_constant, Handler, Lexeme, ParseRule, Parser, Precedence, Report,
};
use crate::number::Number;
use crate::scanner::{
    lemma_end_repeats, lemma_scan_bounds, number_literals_from, number_literals_of, scan, Scanner,
    Token, TokenKind,
};
use crate::soundness::lemma_compiled_runnable;
use crate::text::{bytes_of, decimal, decimal_text, unquote, unquoted};
use crate::vm::InterpretError;
use vstd::prelude::*;
use vstd::string::StringExecFns;

verus! {

impl TokenKind {
    /// The rule of this kind of token.
    pub fn get_parse_rule(&self) -> (rule: ParseRule)
        ensures
            rule == rule_of(*self),
    {
        match *self {
            TokenKind::LeftParen => ParseRule {
                prefix: Some(Handler::Grouping),
                infix: None,
                precedence: Precedence::Lowest,
            },
            TokenKind::RightParen => ParseRule {
                prefix: None,
                infix: None,
                precedence: Precedence::Lowest,
            },
            TokenKind::LeftBrace => ParseRule {
                prefix: None,
                infix: None,
                precedence: Precedence::Lowest,
            },
            TokenKind::RightBrace => ParseRule {
                prefix: None,
                infix: None,
                precedence: Precedence::Lowest,
            },
            TokenKind::Comma => ParseRule {
                prefix: None,
                infix: None,
                precedence: Precedence::Lowest,
            },
            TokenKind::Dot => ParseRule {
                prefix: None,
                infix: None,
                precedence: Precedence::Lowest,
            },
            TokenKind::Minus => ParseRule {
                prefix: Some(Handler::Unary),
                infix: Some(Handler::Binary),
                precedence: Precedence::Term,
            },
            TokenKind::Plus => ParseRule {
                prefix: None,
                infix: Some(Handler::Binary),
                precedence: Precedence::Term,
            },
            TokenKind::Semicolon => ParseRule {
                prefix: None,
                infix: None,
                precedence: Precedence::Lowest,
            },
            TokenKind::Slash => ParseRule {
                prefix: None,
                infix: Some(Handler::Binary),
                precedence: Precedence::Factor,
            },
            TokenKind::Star => ParseRule {
                prefix: None,
                infix: Some(Handler::Binary),
                precedence: Precedence::Factor,
            },
            TokenKind::Bang => ParseRule {
                prefix: Some(Handler::Unary),
                infix: None,
                precedence: Precedence::Lowest,
            },
            TokenKind::BangEqual => ParseRule {
                prefix: None,
                infix: Some(Handler::Binary),
                precedence: Precedence::Equality,
            },
            TokenKind::Equal => ParseRule {
                prefix: None,
                infix: None,
                precedence: Precedence::Lowest,
            },
            TokenKind::EqualEqual => ParseRule {
                prefix: None,
                infix: Some(Handler::Binary),
                precedence: Precedence::Equality,
            },
            TokenKind::Greater => ParseRule {
                prefix: None,
                infix: Some(Handler::Binary),
                precedence: Precedence::Comparison,
            },
            TokenKind::GreaterEqual => ParseRule {
                prefix: None,
                infix: Some(Handler::Binary),
                precedence: Precedence::Comparison,
            },
            TokenKind::Less => ParseRule {
                prefix: None,
                infix: Some(Handler::Binary),
                precedence: Precedence::Comparison,
            },
            TokenKind::LessEqual => ParseRule {
                prefix: None,
                infix: Some(Handler::Binary),
                precedence: Precedence::Comparison,
            },
            TokenKind::Identifier => ParseRule {
                prefix: None,
                infix: None,
                precedence: Precedence::Lowest,
            },
            TokenKind::String => ParseRule {
                prefix: Some(Handler::String),
                infix: None,
                precedence: Precedence::Lowest,
            },
            TokenKind::Number => ParseRule {
                prefix: Some(Handler::Number),
                infix: None,
                precedence: Precedence::Lowest,
            },
            TokenKind::And => ParseRule {
                prefix: None,
                infix: None,
                precedence: Precedence::Lowest,
            },
            TokenKind::Class => ParseRule {
                prefix: None,
                infix: None,
                precedence: Precedence::Lowest,
            },
            TokenKind::Else => ParseRule {
                prefix: None,
                infix: None,
                precedence: Precedence::Lowest,
            },
            TokenKind::False => ParseRule {
                prefix: Some(Handler::Literal),
                infix: None,
                precedence: Precedence::Lowest,
            },
            TokenKind::For => ParseRule {
                prefix: None,
                infix: None,
                precedence: Precedence::Lowest,
            },
            TokenKind::Fun => ParseRule {
                prefix: None,
                infix: None,
                precedence: Precedence::Lowest,
            },
            TokenKind::If => ParseRule {
                prefix: None,
                infix: None,
                precedence: Precedence::Lowest,
            },
            TokenKind::Nil => ParseRule {
                prefix: Some(Handler::Literal),
                infix: None,
                precedence: Precedence::Lowest,
            },
            TokenKind::Or => ParseRule {
                prefix: None,
                infix: None,
                precedence: Precedence::Lowest,
            },
            TokenKind::Print => ParseRule {
                prefix: None,
                infix: None,
                precedence: Precedence::Lowest,
            },
            TokenKind::Return => ParseRule {
                prefix: None,
                infix: None,
                precedence: Precedence::Lowest,
            },
            TokenKind::Super => ParseRule {
                prefix: None,
                infix: None,
                precedence: Precedence::Lowest,
            },
            TokenKind::This => ParseRule {
                prefix: None,
                infix: None,
                precedence: Precedence::Lowest,
            },
            TokenKind::True => ParseRule {
                prefix: Some(Handler::Literal),
                infix: None,
                precedence: Precedence::Lowest,
            },
            TokenKind::Var => ParseRule {
                prefix: None,
                infix: None,
                precedence: Precedence::Lowest,
            },
            TokenKind::While => ParseRule {
                prefix: None,
                infix: None,
                precedence: Precedence::Lowest,
            },
            TokenKind::Error => ParseRule {
                prefix: None,
                infix: None,
                precedence: Precedence::Lowest,
            },
            TokenKind::End => ParseRule {
                prefix: None,
                infix: None,
                precedence: Precedence::Lowest,
            },
        }
    }
}

/// A reported compile error: the line, where on it (`" at the end."`, or
/// `" at "`, the token's text and a blank), and what is wrong.
#[derive(Debug)]
pub struct Diagnostic {
    pub line: u32,
    pub location: String,
    pub message: String,
}

impl View for Diagnostic {
    type V = Report;

    open spec fn view(&self) -> Report {
        Report { line: self.line, location: self.location@, message: self.message@ }
    }
}

/// A report as a line of text.
pub open spec fn report_line(report: Report) -> Seq<char> {
    "[line "@ + decimal(report.line as nat) + "] Error"@ + report.location + ": "@
        + report.message
}

impl Diagnostic {
    /// The report as a line of text.
    pub fn render(&self) -> (line: String)
        ensures
            line@ == report_line(self@),
    {
        let (number, _) = decimal_text(self.line as u64);
        "[line ".to_owned().concat(number.as_str()).concat("] Error").concat(
            self.location.as_str(),
        ).concat(": ").concat(self.message.as_str())
    }
}

/// The bits of the numbers, one by one.
pub open spec fn bits_of(numbers: Seq<Number>) -> Seq<u64> {
    numbers.map_values(|n: Number| n.bits)
}

/// The reports that the diagnostics stand for, one by one.
pub open spec fn reports_of(diagnostics: Seq<Diagnostic>) -> Seq<Report> {
    diagnostics.map_values(|d: Diagnostic| d@)
}

/// A token with the value that goes with it.
pub open spec fn lexeme_of(token: Token, value: Option<Number>) -> Lexeme {
    Lexeme {
        kind: token.kind,
        text: token.lexeme@,
        line: token.line,
        value: match value {
            Some(n) => Some(n.bits),
            None => None,
        },
    }
}

/// Compiles one source text.
pub struct Compiler<'a> {
    scanner: Scanner<'a>,
    current: Token<'a>,
    previous: Option<Token<'a>>,
    chunk: Chunk,
    had_error: bool,
    panic_mode: bool,
    current_value: Option<Number>,
    previous_value: Option<Number>,
    numbers: Vec<Number>,
    taken: usize,
    reports: Vec<Diagnostic>,
}

impl<'a> Compiler<'a> {
    /// The parser state that this compiler is in.
    pub closed spec fn model(&self) -> Parser {
        Parser {
            source: self.scanner.bytes(),
            position: self.scanner.position(),
            line: self.scanner.line(),
            current: lexeme_of(self.current, self.current_value),
            previous: match self.previous {
                Some(token) => Some(lexeme_of(token, self.previous_value)),
                None => None,
            },
            chunk: self.chunk@,
            had_error: self.had_error,
            panic_mode: self.panic_mode,
            reports: reports_of(self.reports@),
            numbers: bits_of(self.numbers@),
            taken: self.taken as int,
        }
    }

    /// The compiler has a value for each number literal: for those that it has
    /// scanned, and for those that are still to come.
    pub closed spec fn wf(&self) -> bool {
        &&& self.scanner.wf()
        &&& self.taken + number_literals_from(
            self.scanner.bytes(),
            self.scanner.position(),
            self.scanner.line(),
        ).len() == self.numbers@.len()
        &&& self.panic_mode ==> self.had_error
        &&& self.current.kind == TokenKind::Number ==> self.current_value is Some
        &&& self.previous matches Some(token) ==> (token.kind == TokenKind::Number
            ==> self.previous_value is Some)
    }

    /// A token has been taken.
    pub closed spec fn started(&self) -> bool {
        self.previous is Some
    }

    /// A compiler for `source`. `numbers` holds the values of the number
    /// literals of `source`, in the order in which they stand in it (see
    /// `scanner::number_literals`).
    pub fn new(source: &'a str, numbers: Vec<Number>) -> (compiler: Compiler<'a>)
        requires
            numbers@.len() == number_literals_of(bytes_of(source)).len(),
        ensures
            compiler.wf(),
            compiler.model() == initial(bytes_of(source), bits_of(numbers@)),
    {
        let mut scanner = Scanner::new(source);
        proof {
            scanner.lemma_inside();
            lemma_scan_bounds(bytes_of(source), 0, 1);
            if scan(bytes_of(source), 0, 1).kind == TokenKind::End {
                lemma_end_repeats(bytes_of(source), 0, 1);
            }
        }
        let current = scanner.next();
        let mut taken: usize = 0;
        let mut current_value: Option<Number> = None;
        if current.kind == TokenKind::Number {
            current_value = Some(numbers[0]);
            taken = 1;
        }
        let compiler = Compiler {
            scanner,
            current,
            previous: None,
            chunk: Chunk::new(Vec::new(), Vec::new(), Vec::new()),
            had_error: false,
            panic_mode: false,
            current_value,
            previous_value: None,
            numbers,
            taken,
            reports: Vec::new(),
        };
        proof {
            let p = blank(bytes_of(source), bits_of(numbers@));
            assert(compiler.model().chunk.constants =~= p.chunk.constants);
            assert(compiler.model().reports =~= p.reports);
            assert(compiler.model().current == fetched(p).current);
            assert(compiler.model() == fetched(p));
        }
        compiler
    }

    /// Gives up the compiler for the errors that it reported, in order.
    pub fn into_diagnostics(self) -> (reports: Vec<Diagnostic>)
        ensures
            reports_of(reports@) == self.model().reports,
    {
        self.reports
    }

    /// The errors reported so far, in order.
    pub fn diagnostics(&self) -> (reports: &Vec<Diagnostic>)
        ensures
            reports_of(reports@) == self.model().reports,
    {
        &self.reports
    }

    /// Compiles the source into a chunk: one expression, then the end of the
    /// source, then `Return`. Fails where an error was reported.
    pub fn compile(&mut self) -> (result: Result<Chunk, InterpretError>)
        requires
            old(self).wf(),
        ensures
            final(self).wf(),
            final(self).started(),
            ({
                let done = compiled_from(old(self).model());
                &&& final(self).model().reports == done.reports
                &&& final(self).model().had_error == done.had_error
                &&& match result {
                    Ok(chunk) => {
                        &&& !done.had_error
                        &&& chunk@ == done.chunk
                        &&& chunk@.runnable()
                        &&& chunk@.well_formed()
                        &&& chunk@.lines.len() == chunk@.code.len()
                        &&& chunk@.constants.len() <= 256
                    },
                    Err(error) => done.had_error && error == InterpretError::Compile,
                }
            }),
    {
        proof {
            self.scanner.lemma_inside();
            lemma_compiled_runnable(self.model());
        }
        self.chunk = Chunk::new(Vec::new(), Vec::new(), Vec::new());
        proof {
            assert(self.chunk@.constants =~= Seq::<ValueModel>::empty());
            assert(self.model() == Parser {
                chunk: ChunkModel {
                    code: Seq::empty(),
                    constants: Seq::empty(),
                    lines: Seq::empty(),
                },
                ..old(self).model()
            });
        }
        self.expression();
        self.consume(TokenKind::End, "Expected the end of an expression.");
        self.end();
        let mut chunk = Chunk::new(Vec::new(), Vec::new(), Vec::new());
        core::mem::swap(&mut self.chunk, &mut chunk);
        if !self.had_error {
            Ok(chunk)
        } else {
            Err(InterpretError::Compile)
        }
    }

    fn advance(&mut self)
        requires
            old(self).wf(),
        ensures
            final(self).wf(),
            final(self).started(),
            final(self).model() == advanced(old(self).model()),
            final(self).model().inside(),
            final(self).model().ahead() <= old(self).model().ahead(),
            old(self).model().current.kind != TokenKind::End ==> final(self).model().ahead() < old(
                self,
            ).model().ahead(),
    {
        proof {
            self.scanner.lemma_inside();
            lemma_advanced_ahead(self.model());
            let (bytes, at, line) = (
                self.scanner.bytes(),
                self.scanner.position(),
                self.scanner.line(),
            );
            lemma_scan_bounds(bytes, at, line);
            if scan(bytes, at, line).kind == TokenKind::End {
                lemma_end_repeats(bytes, at, line);
            }
        }
        let ghost before = self.model();
        self.previous = Some(self.current);
        self.previous_value = self.current_value;

        self.current = self.scanner.next();
        self.current_value = None;
        if self.current.kind == TokenKind::Number && self.taken < self.numbers.len() {
            self.current_value = Some(self.numbers[self.taken]);
            self.taken += 1;
        }
        assert(self.model() == fetched(Parser { previous: Some(before.current), ..before }));
        if self.current.kind == TokenKind::Error {
            let lexeme = self.current.lexeme;
            self.error_at_current(lexeme);
        }
    }

    fn consume(&mut self, kind: TokenKind, message: &str)
        requires
            old(self).wf(),
        ensures
            final(self).wf(),
            old(self).started() ==> final(self).started(),
            final(self).model() == consumed(old(self).model(), kind, message@),
            final(self).model().inside(),
            final(self).model().ahead() <= old(self).model().ahead(),
    {
        proof {
            self.scanner.lemma_inside();
        }
        if self.current.kind == kind {
            self.advance();
            return;
        }
        self.error_at_current(message);
    }

    /// Reports an error at `token`, unless one has been reported already.
    fn error_at(&mut self, token: Token<'a>, message: &str)
        ensures
            final(self).scanner == old(self).scanner,
            final(self).current == old(self).current,
            final(self).previous == old(self).previous,
            final(self).current_value == old(self).current_value,
            final(self).previous_value == old(self).previous_value,
            final(self).numbers == old(self).numbers,
            final(self).taken == old(self).taken,
            final(self).chunk == old(self).chunk,
            forall|value: Option<Number>|
                final(self).model() == #[trigger] reported(
                    old(self).model(),
                    lexeme_of(token, value),
                    message@,
                ),
    {
        if self.panic_mode {
            return;
        }
        self.panic_mode = true;
        let location = match token.kind {
            TokenKind::End => " at the end.".to_owned(),
            _ => " at ".to_owned().concat(token.lexeme).concat(" "),
        };
        let ghost before = reports_of(self.reports@);
        let report = Diagnostic { line: token.line, location, message: message.to_owned() };
        self.reports.push(report);
        self.had_error = true;
        proof {
            assert(reports_of(self.reports@) =~= before.push(report@));
        }
    }

    fn error(&mut self, message: &str)
        requires
            old(self).wf(),
            old(self).started(),
        ensures
            final(self).wf(),
            final(self).started(),
            final(self).model() == reported(
                old(self).model(),
                old(self).model().last(),
                message@,
            ),
    {
        let previous = self.previous.unwrap();
        self.error_at(previous, message);
    }

    fn error_at_current(&mut self, message: &str)
        requires
            old(self).wf(),
        ensures
            final(self).wf(),
            old(self).started() ==> final(self).started(),
            final(self).model() == reported(
                old(self).model(),
                old(self).model().current,
                message@,
            ),
    {
        let current = self.current;
        self.error_at(current, message);
    }

    fn emit_op(&mut self, op: OpCode)
        requires
            old(self).wf(),
            old(self).started(),
        ensures
            final(self).wf(),
            final(self).started(),
            final(self).model() == emitted(old(self).model(), encode(op)),
    {
        let byte = op.byte();
        self.emit_byte(byte);
    }

    fn emit_byte(&mut self, byte: u8)
        requires
            old(self).wf(),
            old(self).started(),
        ensures
            final(self).wf(),
            final(self).started(),
            final(self).model() == emitted(old(self).model(), byte),
    {
        let line = self.previous.unwrap().line;
        self.chunk.write(byte, line);
    }

    /// Ends the chunk with `Return`.
    pub fn end(&mut self)
        requires
            old(self).wf(),
            old(self).started(),
        ensures
            final(self).wf(),
            final(self).started(),
            final(self).model() == emitted(old(self).model(), encode(OpCode::Return)),
    {
        self.emit_return();
    }

    fn emit_return(&mut self)
        requires
            old(self).wf(),
            old(self).started(),
        ensures
            final(self).wf(),
            final(self).started(),
            final(self).model() == emitted(old(self).model(), encode(OpCode::Return)),
    {
        self.emit_op(OpCode::Return);
    }

    fn emit_two(&mut self, op: OpCode, data: u8)
        requires
            old(self).wf(),
            old(self).started(),
        ensures
            final(self).wf(),
            final(self).started(),
            final(self).model() == emitted(emitted(old(self).model(), encode(op)), data),
    {
        self.emit_op(op);
        self.emit_byte(data);
    }

    fn emit_constant(&mut self, value: Value)
        requires
            old(self).wf(),
            old(self).started(),
        ensures
            final(self).wf(),
            final(self).started(),
            final(self).model() == with_constant(old(self).model(), value@),
    {
        let index = self.make_constant(value);
        self.emit_two(OpCode::Constant, index);
    }

    fn make_constant(&mut self, value: Value) -> (index: u8)
        requires
            old(self).wf(),
            old(self).started(),
        ensures
            final(self).wf(),
            final(self).started(),
            final(self).model() == stored(old(self).model(), value@),
            index == stored_index(old(self).model()),
    {
        let ghost before = self.model();
        if self.chunk.constants.len() > 255 {
            self.error("Too many constants in one chunk.");
            return 0;
        }
        let constant_index = self.chunk.write_constant(value);
        proof {
            assert(models(self.chunk.constants@) =~= before.chunk.constants.push(value@));
            assert(self.model() == Parser {
                chunk: ChunkModel {
                    constants: before.chunk.constants.push(value@),
                    ..before.chunk
                },
                ..before
            });
        }
        constant_index as u8
    }

    fn expression(&mut self)
        requires
            old(self).wf(),
        ensures
            final(self).wf(),
            final(self).started(),
            final(self).model() == parsed(old(self).model(), Precedence::Assignment),
            final(self).model().inside(),
            final(self).model().ahead() <= old(self).model().ahead(),
        decreases old(self).model().ahead(), 1int,
    {
        self.parse_precedence(Precedence::Assignment);
    }

    fn number(&mut self)
        requires
            old(self).wf(),
            old(self).started(),
            old(self).model().last().kind == TokenKind::Number,
        ensures
            final(self).wf(),
            final(self).started(),
            final(self).model() == with_constant(
                old(self).model(),
                ValueModel::Float(old(self).model().last().value.unwrap()),
            ),
    {
        let number = self.previous_value.unwrap();
        let value = Value::Float(number);
        self.emit_constant(value);
    }

    fn grouping(&mut self)
        requires
            old(self).wf(),
        ensures
            final(self).wf(),
            final(self).started(),
            final(self).model() == consumed(
                parsed(old(self).model(), Precedence::Assignment),
                TokenKind::RightParen,
                "Expected ')' after expression"@,
            ),
            final(self).model().inside(),
            final(self).model().ahead() <= old(self).model().ahead(),
        decreases old(self).model().ahead(), 2int,
    {
        self.expression();
        self.consume(TokenKind::RightParen, "Expected ')' after expression");
    }

    fn unary(&mut self)
        requires
            old(self).wf(),
            old(self).started(),
            old(self).model().last().kind == TokenKind::Bang || old(self).model().last().kind
                == TokenKind::Minus,
        ensures
            final(self).wf(),
            final(self).started(),
            final(self).model() == emitted(
                parsed(old(self).model(), Precedence::Unary),
                encode(unary_code(old(self).model().last().kind)),
            ),
            final(self).model().inside(),
            final(self).model().ahead() <= old(self).model().ahead(),
        decreases old(self).model().ahead(), 2int,
    {
        let operator_kind = self.previous.unwrap().kind;

        self.parse_precedence(Precedence::Unary);

        match operator_kind {
            TokenKind::Bang => self.emit_op(OpCode::Not),
            _ => self.emit_op(OpCode::Negate),
        }
    }

    fn binary(&mut self)
        requires
            old(self).wf(),
            old(self).started(),
            infix_of(old(self).model().last().kind) is Some,
        ensures
            final(self).wf(),
            final(self).started(),
            final(self).model() == emitted_ops(
                parsed(
                    old(self).model(),
                    above(precedence_of(old(self).model().last().kind)),
                ),
                binary_codes(old(self).model().last().kind),
            ),
            final(self).model().inside(),
            final(self).model().ahead() <= old(self).model().ahead(),
        decreases old(self).model().ahead(), 2int,
    {
        let operator_kind = self.previous.unwrap().kind;
        let rule = operator_kind.get_parse_rule();
        let next_precedence = rule.precedence.next();
        self.parse_precedence(next_precedence);
        proof {
            reveal_with_fuel(emitted_ops, 3);
            assert(binary_codes(operator_kind).len() <= 2);
        }

        match operator_kind {
            TokenKind::Plus => self.emit_op(OpCode::Add),
            TokenKind::Minus => self.emit_op(OpCode::Subtract),
            TokenKind::Star => self.emit_op(OpCode::Multiply),
            TokenKind::Slash => self.emit_op(OpCode::Divide),
            TokenKind::EqualEqual => self.emit_op(OpCode::Equal),
            TokenKind::BangEqual => {
                self.emit_op(OpCode::Equal);
                self.emit_op(OpCode::Not);
            },
            TokenKind::Less => self.emit_op(OpCode::Less),
            TokenKind::LessEqual => {
                self.emit_op(OpCode::Greater);
                self.emit_op(OpCode::Not);
            },
            TokenKind::Greater => self.emit_op(OpCode::Greater),
            TokenKind::GreaterEqual => {
                self.emit_op(OpCode::Less);
                self.emit_op(OpCode::Not);
            },
            _ => {},
        }
        proof {
            let ops = binary_codes(operator_kind);
            if ops.len() == 2 {
                assert(ops.drop_last() =~= seq![ops[0]]);
                assert(ops.drop_last().drop_last() =~= Seq::<OpCode>::empty());
            } else {
                assert(ops.drop_last() =~= Seq::<OpCode>::empty());
            }
        }
    }

    fn literal(&mut self)
        requires
            old(self).wf(),
            old(self).started(),
            prefix_of(old(self).model().last().kind) == Some(Handler::Literal),
        ensures
            final(self).wf(),
            final(self).started(),
            final(self).model() == emitted(
                old(self).model(),
                encode(literal_code(old(self).model().last().kind)),
            ),
    {
        match self.previous.unwrap().kind {
            TokenKind::True => self.emit_op(OpCode::True),
            TokenKind::False => self.emit_op(OpCode::False),
            _ => self.emit_op(OpCode::Nil),
        }
    }

    fn string(&mut self)
        requires
            old(self).wf(),
            old(self).started(),
        ensures
            final(self).wf(),
            final(self).started(),
            final(self).model() == with_constant(
                old(self).model(),
                ValueModel::Str(unquoted(old(self).model().last().text)),
            ),
    {
        let value = unquote(self.previous.unwrap().lexeme);
        self.emit_constant(Value::Str(value));
    }

    /// The part of the parser that the token taken last calls for.
    fn apply(&mut self, handler: Handler)
        requires
            old(self).wf(),
            old(self).started(),
            prefix_of(old(self).model().last().kind) == Some(handler) || infix_of(
                old(self).model().last().kind,
            ) == Some(handler),
        ensures
            final(self).wf(),
            final(self).started(),
            final(self).model() == applied(old(self).model(), handler),
            final(self).model().inside(),
            final(self).model().ahead() <= old(self).model().ahead(),
        decreases old(self).model().ahead(), 3int,
    {
        proof {
            self.scanner.lemma_inside();
        }
        match handler {
            Handler::Grouping => self.grouping(),
            Handler::Unary => self.unary(),
            Handler::Binary => self.binary(),
            Handler::Number => self.number(),
            Handler::String => self.string(),
            Handler::Literal => self.literal(),
        }
    }

    fn parse_precedence(&mut self, precedence: Precedence)
        requires
            old(self).wf(),
        ensures
            final(self).wf(),
            final(self).started(),
            final(self).model() == parsed(old(self).model(), precedence),
            final(self).model().inside(),
            final(self).model().ahead() <= old(self).model().ahead(),
        decreases old(self).model().ahead(), 0int,
    {
        proof {
            self.scanner.lemma_inside();
        }
        self.advance();

        let prefix_rule = self.previous.unwrap().kind.get_parse_rule().prefix;
        match prefix_rule {
            Some(rule) => {
                self.apply(rule);
            },
            None => {
                self.error("Expected an expression.");
                proof {
                    self.scanner.lemma_inside();
                }
                return;
            },
        }

        while precedence.rank() <= self.current.kind.get_parse_rule().precedence.rank()
            invariant
                self.wf(),
                self.started(),
                self.model().inside(),
                self.model().ahead() <= old(self).model().ahead(),
                continued(self.model(), precedence) == parsed(old(self).model(), precedence),
            decreases self.model().ahead(),
        {
            match self.current.kind.get_parse_rule().infix {
                Some(rule) => {
                    self.advance();
                    self.apply(rule);
                },
                None => {
                    return;
                },
            }
        }
    }
}

} // verus!
