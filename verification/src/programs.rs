//! What the simplest programs compile to and evaluate to, for every number
//! they may hold.

use crate::bytecode::{decode, encode, lemma_decode, ChunkModel, OpCode, ValueModel};
use crate::grammar::{
    above, advanced, applied, binary_codes, compiled, consumed, continued, emitted, emitted_ops,
    initial, parsed, precedence_of, with_constant, Handler, Parser, Precedence,
};
use crate::scanner::{
    digits_end, is_digit, lemma_digits_end_bounds, lemma_scan_bounds, number_end,
    number_literals_from, number_literals_of, scan, skip_blank, symbol_kind, text_between,
    TokenKind, SPACE,
};
use crate::vm::{below, run_from, step, Arithmetic, Effect};
use vstd::prelude::*;

verus! {

/// The source is one number literal and nothing else.
pub open spec fn is_number_literal(s: Seq<u8>) -> bool {
    s.len() > 0 && is_digit(s[0]) && number_end(s, 1) == s.len()
}

/// A number literal scans to one `Number` token, and the end comes after it.
pub proof fn lemma_number_literal_scans(s: Seq<u8>)
    requires
        is_number_literal(s),
    ensures
        scan(s, 0, 1).kind == TokenKind::Number,
        scan(s, 0, 1).end == s.len(),
        scan(s, 0, 1).end_line == 1,
        scan(s, 0, 1).line == 1,
        scan(s, 0, 1).lexeme == text_between(s, 0, s.len() as int),
        scan(s, s.len() as int, 1).kind == TokenKind::End,
        scan(s, s.len() as int, 1).end == s.len(),
        scan(s, s.len() as int, 1).end_line == 1,
        number_literals_of(s) == seq![text_between(s, 0, s.len() as int)],
{
    reveal(scan);
    assert(skip_blank(s, 0, 1) == (0int, 1u32));
    assert(skip_blank(s, s.len() as int, 1) == (s.len() as int, 1u32));
    lemma_scan_bounds(s, 0, 1);
    assert(number_literals_from(s, s.len() as int, 1) =~= Seq::<Seq<char>>::empty());
    assert(number_literals_from(s, 0, 1) =~= seq![text_between(s, 0, s.len() as int)]);
}

/// A source that is one number literal compiles, without an error, to a
/// chunk that loads the literal's value and returns it; so running the chunk
/// yields that value.
pub proof fn lemma_number_program(s: Seq<u8>, x: u64)
    requires
        is_number_literal(s),
    ensures
        number_literals_of(s).len() == 1,
        !compiled(s, seq![x]).had_error,
        compiled(s, seq![x]).chunk.code == seq![
            encode(OpCode::Constant),
            0u8,
            encode(OpCode::Return),
        ],
        compiled(s, seq![x]).chunk.constants == seq![ValueModel::Float(x)],
        run_from(compiled(s, seq![x]).chunk, 0, Seq::empty()) == (Effect::Finish {
            value: ValueModel::Float(x),
        }),
{
    lemma_number_literal_scans(s);
    let numbers = seq![x];
    let p0 = initial(s, numbers);
    assert(p0.current.kind == TokenKind::Number);
    assert(p0.current.value == Some(x));
    assert(p0.position == s.len());
    let fresh = Parser {
        chunk: ChunkModel { code: Seq::empty(), constants: Seq::empty(), lines: Seq::empty() },
        ..p0
    };
    assert(fresh.inside());
    let q = advanced(fresh);
    assert(q.current.kind == TokenKind::End);
    assert(q.last().kind == TokenKind::Number);
    assert(q.last().value == Some(x));
    assert(q.inside());
    let r = applied(q, Handler::Number);
    assert(r == with_constant(q, ValueModel::Float(x)));
    assert(!r.had_error);
    assert(r.inside());
    assert(continued(r, Precedence::Assignment) == r);
    assert(parsed(fresh, Precedence::Assignment) == r);
    let t = consumed(r, TokenKind::End, "Expected the end of an expression."@);
    assert(t == advanced(r));
    assert(!t.had_error);
    let done = emitted(t, encode(OpCode::Return));
    assert(done == compiled(s, numbers));
    assert(done.chunk.code =~= seq![encode(OpCode::Constant), 0u8, encode(OpCode::Return)]);
    assert(done.chunk.constants =~= seq![ValueModel::Float(x)]);
    lemma_decode(0);
    let chunk = done.chunk;
    assert(decode(chunk.code[0]) == Some(OpCode::Constant));
    assert(decode(chunk.code[2]) == Some(OpCode::Return));
    let loaded = Seq::<ValueModel>::empty().push(ValueModel::Float(x));
    assert(step(chunk, 0, Seq::empty()) == (Effect::Continue { ip: 2, stack: loaded }));
    assert(step(chunk, 2, loaded) == (Effect::Finish { value: ValueModel::Float(x) }));
    assert(run_from(chunk, 2, loaded) == (Effect::Finish { value: ValueModel::Float(x) }));
}

/// The four operators of arithmetic: the byte that each is written with, its
/// token, its instruction, and the operation that the machine hands out.
pub open spec fn arithmetic_symbol(byte: u8) -> Option<(TokenKind, OpCode, Arithmetic)> {
    if byte == 0x2b {
        Some((TokenKind::Plus, OpCode::Add, Arithmetic::Add))
    } else if byte == 0x2d {
        Some((TokenKind::Minus, OpCode::Subtract, Arithmetic::Subtract))
    } else if byte == 0x2a {
        Some((TokenKind::Star, OpCode::Multiply, Arithmetic::Multiply))
    } else if byte == 0x2f {
        Some((TokenKind::Slash, OpCode::Divide, Arithmetic::Divide))
    } else {
        None
    }
}

/// Two texts with an operator between them, and a blank on each side of it.
pub open spec fn binary_source(a: Seq<u8>, operator: u8, b: Seq<u8>) -> Seq<u8> {
    a + seq![SPACE, operator, SPACE] + b
}

/// Digits end in a longer text where they end in its start, if what follows
/// the start is no digit.
pub proof fn lemma_digits_end_start(a: Seq<u8>, rest: Seq<u8>, i: int)
    requires
        0 <= i <= a.len(),
        rest.len() > 0,
        !is_digit(rest[0]),
    ensures
        digits_end(a + rest, i) == digits_end(a, i),
    decreases a.len() - i,
{
    let s = a + rest;
    if i < a.len() {
        assert(s[i] == a[i]);
        if is_digit(a[i]) {
            lemma_digits_end_start(a, rest, i + 1);
        }
    } else {
        assert(s[i] == rest[0]);
    }
}

/// Digits end in the rest of a text where they end in the rest alone.
pub proof fn lemma_digits_end_rest(before: Seq<u8>, b: Seq<u8>, i: int)
    requires
        0 <= i <= b.len(),
    ensures
        digits_end(before + b, before.len() + i) == before.len() + digits_end(b, i),
    decreases b.len() - i,
{
    let s = before + b;
    if i < b.len() {
        assert(s[before.len() + i] == b[i]);
        if is_digit(b[i]) {
            lemma_digits_end_rest(before, b, i + 1);
        }
    }
}

/// A number literal with a blank after it ends where it ends alone.
pub proof fn lemma_number_end_start(a: Seq<u8>, rest: Seq<u8>)
    requires
        is_number_literal(a),
        rest.len() > 0,
        rest[0] == SPACE,
    ensures
        number_end(a + rest, 1) == a.len(),
{
    let s = a + rest;
    let whole = digits_end(a, 1);
    lemma_digits_end_bounds(a, 1);
    lemma_digits_end_start(a, rest, 1);
    if whole + 1 < a.len() {
        assert(s[whole] == a[whole]);
        assert(s[whole + 1] == a[whole + 1]);
        lemma_digits_end_bounds(a, whole + 2);
        lemma_digits_end_start(a, rest, whole + 2);
    } else if whole < a.len() {
        assert(s[whole] == a[whole]);
        assert(s[whole + 1] == rest[0]);
    } else {
        assert(s[whole] == rest[0]);
    }
}

/// A number literal at the end of a text ends at the end of the text.
pub proof fn lemma_number_end_rest(before: Seq<u8>, b: Seq<u8>)
    requires
        is_number_literal(b),
    ensures
        number_end(before + b, before.len() as int + 1) == before.len() + b.len(),
{
    let s = before + b;
    let whole = digits_end(b, 1);
    lemma_digits_end_bounds(b, 1);
    lemma_digits_end_rest(before, b, 1);
    if whole + 1 < b.len() {
        assert(s[before.len() + whole] == b[whole]);
        assert(s[before.len() + whole + 1] == b[whole + 1]);
        lemma_digits_end_bounds(b, whole + 2);
        lemma_digits_end_rest(before, b, whole + 2);
    }
}

/// Two number literals with an operator of arithmetic between them scan to
/// three tokens, and the end comes after them.
pub proof fn lemma_binary_source_scans(a: Seq<u8>, operator: u8, b: Seq<u8>)
    requires
        is_number_literal(a),
        is_number_literal(b),
        arithmetic_symbol(operator) is Some,
    ensures
        ({
            let s = binary_source(a, operator, b);
            let n = a.len() as int;
            let first = scan(s, 0, 1);
            let second = scan(s, n, 1);
            let third = scan(s, n + 2, 1);
            let last = scan(s, s.len() as int, 1);
            &&& s.len() == n + 3 + b.len()
            &&& first.kind == TokenKind::Number && first.end == n && first.end_line == 1
                && first.line == 1
            &&& second.kind == arithmetic_symbol(operator).unwrap().0 && second.end == n + 2
                && second.end_line == 1 && second.line == 1
            &&& third.kind == TokenKind::Number && third.end == s.len() && third.end_line == 1
                && third.line == 1
            &&& last.kind == TokenKind::End && last.end == s.len() && last.end_line == 1
            &&& number_literals_of(s).len() == 2
        }),
{
    reveal(scan);
    let middle = seq![SPACE, operator, SPACE];
    let s = binary_source(a, operator, b);
    let n = a.len() as int;
    assert(s =~= a + (middle + b));
    assert(s[0] == a[0]);
    assert(s[n] == SPACE);
    assert(s[n + 1] == operator);
    assert(s[n + 2] == SPACE);
    assert(s[n + 3] == b[0]);
    lemma_number_end_start(a, middle + b);
    lemma_number_end_rest(a + middle, b);
    assert(skip_blank(s, 0, 1) == (0int, 1u32));
    assert(skip_blank(s, n + 1, 1) == (n + 1, 1u32));
    assert(skip_blank(s, n, 1) == (n + 1, 1u32));
    assert(skip_blank(s, n + 3, 1) == (n + 3, 1u32));
    assert(skip_blank(s, n + 2, 1) == (n + 3, 1u32));
    assert(skip_blank(s, s.len() as int, 1) == (s.len() as int, 1u32));
    assert(symbol_kind(operator, false) == Some(arithmetic_symbol(operator).unwrap().0));
    assert(number_literals_from(s, s.len() as int, 1) =~= Seq::<Seq<char>>::empty());
    assert(number_literals_from(s, n + 2, 1).len() == 1);
    assert(number_literals_from(s, n, 1).len() == 1);
    assert(number_literals_from(s, 0, 1).len() == 2);
}

/// Two number literals with `+`, `-`, `*` or `/` between them compile, without
/// an error, to a chunk that loads both values, applies the operator and
/// returns. Running it hands out the operation on the two values, left and
/// right as written, whatever they are (a zero divisor too); and when a
/// result comes back, the run yields that result.
pub proof fn lemma_arithmetic_program(
    a: Seq<u8>,
    operator: u8,
    b: Seq<u8>,
    x: u64,
    y: u64,
    z: u64,
)
    requires
        is_number_literal(a),
        is_number_literal(b),
        arithmetic_symbol(operator) is Some,
    ensures
        ({
            let s = binary_source(a, operator, b);
            let done = compiled(s, seq![x, y]);
            let (_, opcode, arithmetic) = arithmetic_symbol(operator).unwrap();
            &&& number_literals_of(s).len() == 2
            &&& !done.had_error
            &&& done.chunk.code == seq![
                encode(OpCode::Constant),
                0u8,
                encode(OpCode::Constant),
                1u8,
                encode(opcode),
                encode(OpCode::Return),
            ]
            &&& done.chunk.constants == seq![ValueModel::Float(x), ValueModel::Float(y)]
            &&& run_from(done.chunk, 0, Seq::empty()) == (Effect::Await {
                operator: arithmetic,
                left: x,
                right: y,
                ip: 5,
                stack: Seq::empty(),
            })
            &&& run_from(done.chunk, 5, seq![ValueModel::Float(z)]) == (Effect::Finish {
                value: ValueModel::Float(z),
            })
        }),
{
    lemma_binary_source_scans(a, operator, b);
    let s = binary_source(a, operator, b);
    let n = a.len() as int;
    let numbers = seq![x, y];
    let (kind, opcode, arithmetic) = arithmetic_symbol(operator).unwrap();
    let p0 = initial(s, numbers);
    assert(p0.current.kind == TokenKind::Number);
    assert(p0.current.value == Some(x));
    assert(p0.position == n);
    let fresh = Parser {
        chunk: ChunkModel { code: Seq::empty(), constants: Seq::empty(), lines: Seq::empty() },
        ..p0
    };
    assert(fresh.inside());
    // The left operand.
    let q1 = advanced(fresh);
    assert(q1.current.kind == kind);
    assert(q1.last().value == Some(x));
    assert(q1.position == n + 2);
    assert(q1.inside());
    let r1 = applied(q1, Handler::Number);
    assert(r1 == with_constant(q1, ValueModel::Float(x)));
    assert(r1.inside() && !r1.had_error && !r1.panic_mode);
    // The operator and the right operand.
    let q2 = advanced(r1);
    assert(q2.current.kind == TokenKind::Number);
    assert(q2.current.value == Some(y));
    assert(q2.last().kind == kind);
    assert(q2.position == s.len());
    assert(q2.inside());
    let least = above(precedence_of(kind));
    let q3 = advanced(q2);
    assert(q3.current.kind == TokenKind::End);
    assert(q3.last().value == Some(y));
    assert(q3.inside());
    let r3 = applied(q3, Handler::Number);
    assert(r3 == with_constant(q3, ValueModel::Float(y)));
    assert(r3.inside() && !r3.had_error);
    assert(continued(r3, least) == r3);
    assert(parsed(q2, least) == r3);
    reveal_with_fuel(emitted_ops, 2);
    assert(binary_codes(kind) =~= seq![opcode]);
    assert(binary_codes(kind).drop_last() =~= Seq::<OpCode>::empty());
    let r2 = emitted(r3, encode(opcode));
    assert(emitted_ops(r3, binary_codes(kind)) == r2);
    assert(applied(q2, Handler::Binary) == r2);
    assert(r2.inside() && !r2.had_error);
    assert(continued(r2, Precedence::Assignment) == r2);
    assert(continued(r1, Precedence::Assignment) == r2);
    assert(parsed(fresh, Precedence::Assignment) == r2);
    // The end.
    let t = consumed(r2, TokenKind::End, "Expected the end of an expression."@);
    assert(t == advanced(r2));
    assert(!t.had_error);
    let done = emitted(t, encode(OpCode::Return));
    assert(done == compiled(s, numbers));
    assert(done.chunk.code =~= seq![
        encode(OpCode::Constant),
        0u8,
        encode(OpCode::Constant),
        1u8,
        encode(opcode),
        encode(OpCode::Return),
    ]);
    assert(done.chunk.constants =~= seq![ValueModel::Float(x), ValueModel::Float(y)]);
    // The run.
    let chunk = done.chunk;
    lemma_decode(0);
    assert(decode(chunk.code[0]) == Some(OpCode::Constant));
    assert(decode(chunk.code[2]) == Some(OpCode::Constant));
    assert(decode(chunk.code[4]) == Some(opcode));
    assert(decode(chunk.code[5]) == Some(OpCode::Return));
    let one = Seq::<ValueModel>::empty().push(ValueModel::Float(x));
    let two = one.push(ValueModel::Float(y));
    let waiting = Effect::Await {
        operator: arithmetic,
        left: x,
        right: y,
        ip: 5,
        stack: Seq::empty(),
    };
    assert(step(chunk, 0, Seq::empty()) == (Effect::Continue { ip: 2, stack: one }));
    assert(step(chunk, 2, one) == (Effect::Continue { ip: 4, stack: two }));
    assert(below(two, 2) =~= Seq::<ValueModel>::empty());
    assert(step(chunk, 4, two) == waiting);
    assert(run_from(chunk, 4, two) == waiting);
    assert(run_from(chunk, 2, one) == waiting);
    let answered = seq![ValueModel::Float(z)];
    assert(step(chunk, 5, answered) == (Effect::Finish { value: ValueModel::Float(z) }));
}

} // verus!
