//! Compiled code is runnable.
//!
//! An expression compiles to code that puts exactly one value on the stack
//! and takes none that was there before. So a chunk that was compiled without
//! an error can be run: every instruction is whole and finds its operands,
//! and the run reaches the `Return` at the end.

use crate::bytecode::{
    decode, encode, instruction_at, instructions_from, lemma_decode, pops, pushes, runnable_from,
    width, ChunkModel, OpCode, ValueModel,
};
use crate::grammar::{
    above, advanced, applied, binary_codes, compiled, compiled_from, consumed, continued, emitted,
    emitted_ops, infix_of, initial, lemma_advanced_ahead, level, literal_code, parsed,
    precedence_of, prefix_of, reported, stored, stored_index, unary_code, with_constant, Handler,
    Lexeme, Parser, Precedence,
};
use crate::scanner::{lemma_scan_bounds, TokenKind};
use crate::text::unquoted;
use vstd::prelude::*;

verus! {

/// From `from` to `to`, `code` is a row of whole instructions, none of them
/// `Return`, that takes a stack of `before` values to one of `after` values
/// and finds on it what each instruction takes.
pub open spec fn flows(
    code: Seq<u8>,
    constants: int,
    from: int,
    to: int,
    before: int,
    after: int,
) -> bool
    decreases to - from,
{
    if from >= to {
        from == to && before == after
    } else {
        &&& instruction_at(code, constants, from)
        &&& {
            let op = decode(code[from]).unwrap();
            &&& op != OpCode::Return
            &&& before >= pops(op)
            &&& from + width(op) <= to
            &&& flows(
                code,
                constants,
                from + width(op),
                to,
                before - pops(op) + pushes(op),
                after,
            )
        }
    }
}

/// Two rows of instructions, one after the other, are one row.
pub proof fn lemma_flows_join(
    code: Seq<u8>,
    constants: int,
    from: int,
    middle: int,
    to: int,
    before: int,
    between: int,
    after: int,
)
    requires
        flows(code, constants, from, middle, before, between),
        flows(code, constants, middle, to, between, after),
        middle <= to,
    ensures
        flows(code, constants, from, to, before, after),
    decreases middle - from,
{
    if from < middle {
        let op = decode(code[from]).unwrap();
        lemma_flows_join(
            code,
            constants,
            from + width(op),
            middle,
            to,
            before - pops(op) + pushes(op),
            between,
            after,
        );
    }
}

/// A row of instructions does the same on a deeper stack.
pub proof fn lemma_flows_lift(
    code: Seq<u8>,
    constants: int,
    from: int,
    to: int,
    before: int,
    after: int,
    more: int,
)
    requires
        flows(code, constants, from, to, before, after),
        more >= 0,
    ensures
        flows(code, constants, from, to, before + more, after + more),
    decreases to - from,
{
    if from < to {
        let op = decode(code[from]).unwrap();
        lemma_flows_lift(
            code,
            constants,
            from + width(op),
            to,
            before - pops(op) + pushes(op),
            after,
            more,
        );
    }
}

/// A row of instructions stays one when code and constants are appended.
pub proof fn lemma_flows_grow(
    code: Seq<u8>,
    constants: int,
    longer: Seq<u8>,
    more: int,
    from: int,
    to: int,
    before: int,
    after: int,
)
    requires
        flows(code, constants, from, to, before, after),
        0 <= from,
        to <= code.len() <= longer.len(),
        longer.subrange(0, code.len() as int) == code,
        constants <= more,
    ensures
        flows(longer, more, from, to, before, after),
    decreases to - from,
{
    if from < to {
        let op = decode(code[from]).unwrap();
        assert(longer[from] == longer.subrange(0, code.len() as int)[from]);
        if op == OpCode::Constant {
            assert(longer[from + 1] == longer.subrange(0, code.len() as int)[from + 1]);
        }
        lemma_flows_grow(
            code,
            constants,
            longer,
            more,
            from + width(op),
            to,
            before - pops(op) + pushes(op),
            after,
        );
    }
}

/// A row of instructions that leaves a value, with `Return` after it, can be
/// run.
pub proof fn lemma_flows_runnable(
    code: Seq<u8>,
    constants: int,
    from: int,
    to: int,
    before: int,
    after: int,
)
    requires
        flows(code, constants, from, to, before, after),
        0 <= from,
        after >= 1,
        to < code.len(),
        code[to] == encode(OpCode::Return),
    ensures
        runnable_from(code, constants, from, before),
    decreases to - from,
{
    lemma_decode(code[to]);
    if from < to {
        let op = decode(code[from]).unwrap();
        lemma_flows_runnable(
            code,
            constants,
            from + width(op),
            to,
            before - pops(op) + pushes(op),
            after,
        );
    }
}

/// The scanner stands inside the source, and errors are suppressed only
/// after one was reported.
pub open spec fn steady(p: Parser) -> bool {
    p.inside() && (p.panic_mode ==> p.had_error)
}

/// A row of instructions with `Return` after it, and nothing more, is a
/// whole code.
pub proof fn lemma_flows_whole(
    code: Seq<u8>,
    constants: int,
    from: int,
    to: int,
    before: int,
    after: int,
)
    requires
        flows(code, constants, from, to, before, after),
        0 <= from,
        to + 1 == code.len(),
        code[to] == encode(OpCode::Return),
    ensures
        instructions_from(code, constants, from),
    decreases to - from,
{
    lemma_decode(code[to]);
    if from < to {
        let op = decode(code[from]).unwrap();
        lemma_flows_whole(
            code,
            constants,
            from + width(op),
            to,
            before - pops(op) + pushes(op),
            after,
        );
    } else {
        assert(instructions_from(code, constants, to + 1));
    }
}

/// `r` comes after `p` in a compilation: nothing that was emitted is taken
/// back, the pool holds no more than 256 constants, an error stays, and the
/// end of the source has come no further away.
pub open spec fn grown(p: Parser, r: Parser) -> bool {
    &&& steady(r)
    &&& r.ahead() <= p.ahead()
    &&& p.had_error ==> r.had_error
    &&& p.chunk.code.len() <= r.chunk.code.len()
    &&& r.chunk.code.subrange(0, p.chunk.code.len() as int) == p.chunk.code
    &&& p.chunk.constants.len() <= r.chunk.constants.len()
    &&& p.chunk.constants.len() <= 256 ==> r.chunk.constants.len() <= 256
    &&& r.chunk.lines.len() - r.chunk.code.len() == p.chunk.lines.len() - p.chunk.code.len()
}

/// Unless there was an error, the code emitted between `p` and `r` takes a
/// stack of `before` values to one of `after`.
pub open spec fn pushed(p: Parser, r: Parser, before: int, after: int) -> bool {
    !r.had_error ==> flows(
        r.chunk.code,
        r.chunk.constants.len() as int,
        p.chunk.code.len() as int,
        r.chunk.code.len() as int,
        before,
        after,
    )
}

pub proof fn lemma_grown_same(p: Parser)
    requires
        steady(p),
    ensures
        grown(p, p),
{
    assert(p.chunk.code.subrange(0, p.chunk.code.len() as int) =~= p.chunk.code);
}

pub proof fn lemma_grown_then(p: Parser, q: Parser, r: Parser)
    requires
        grown(p, q),
        grown(q, r),
    ensures
        grown(p, r),
{
    assert(r.chunk.code.subrange(0, p.chunk.code.len() as int) =~= q.chunk.code.subrange(
        0,
        p.chunk.code.len() as int,
    ));
}

/// Code that was emitted between `p` and `q` is still there at `r`.
pub proof fn lemma_pushed_kept(p: Parser, q: Parser, r: Parser, before: int, after: int)
    requires
        grown(p, q),
        grown(q, r),
        pushed(p, q, before, after),
    ensures
        !r.had_error ==> flows(
            r.chunk.code,
            r.chunk.constants.len() as int,
            p.chunk.code.len() as int,
            q.chunk.code.len() as int,
            before,
            after,
        ),
{
    if !r.had_error {
        lemma_flows_grow(
            q.chunk.code,
            q.chunk.constants.len() as int,
            r.chunk.code,
            r.chunk.constants.len() as int,
            p.chunk.code.len() as int,
            q.chunk.code.len() as int,
            before,
            after,
        );
    }
}

/// The code emitted between `p` and `q`, and then between `q` and `r`.
pub proof fn lemma_pushed_then(
    p: Parser,
    q: Parser,
    r: Parser,
    before: int,
    between: int,
    after: int,
)
    requires
        grown(p, q),
        grown(q, r),
        pushed(p, q, before, between),
        pushed(q, r, between, after),
    ensures
        grown(p, r),
        pushed(p, r, before, after),
{
    lemma_grown_then(p, q, r);
    lemma_pushed_kept(p, q, r, before, between);
    if !r.had_error {
        lemma_flows_join(
            r.chunk.code,
            r.chunk.constants.len() as int,
            p.chunk.code.len() as int,
            q.chunk.code.len() as int,
            r.chunk.code.len() as int,
            before,
            between,
            after,
        );
    }
}

pub proof fn lemma_reported(p: Parser, token: Lexeme, message: Seq<char>)
    requires
        steady(p),
    ensures
        grown(p, reported(p, token, message)),
        reported(p, token, message).chunk == p.chunk,
        !reported(p, token, message).had_error ==> reported(p, token, message) == p,
{
    lemma_grown_same(p);
}

pub proof fn lemma_advanced(p: Parser)
    requires
        steady(p),
    ensures
        grown(p, advanced(p)),
        advanced(p).chunk == p.chunk,
        advanced(p).previous == Some(p.current),
{
    lemma_advanced_ahead(p);
    lemma_grown_same(p);
}

pub proof fn lemma_consumed(p: Parser, kind: TokenKind, message: Seq<char>)
    requires
        steady(p),
    ensures
        grown(p, consumed(p, kind, message)),
        consumed(p, kind, message).chunk == p.chunk,
{
    lemma_advanced(p);
    lemma_reported(p, p.current, message);
}

/// One instruction without an operand, emitted.
pub proof fn lemma_emitted(p: Parser, op: OpCode, before: int)
    requires
        steady(p),
        op != OpCode::Constant,
        op != OpCode::Return,
        before >= pops(op),
    ensures
        grown(p, emitted(p, encode(op))),
        pushed(p, emitted(p, encode(op)), before, before - pops(op) + pushes(op)),
        emitted(p, encode(op)).had_error == p.had_error,
{
    let r = emitted(p, encode(op));
    let at = p.chunk.code.len() as int;
    assert(r.chunk.code.subrange(0, at) =~= p.chunk.code);
    lemma_decode(encode(op));
    assert(decode(r.chunk.code[at]) == Some(op));
    assert(instruction_at(r.chunk.code, r.chunk.constants.len() as int, at));
    assert(flows(
        r.chunk.code,
        r.chunk.constants.len() as int,
        at + 1,
        at + 1,
        before - pops(op) + pushes(op),
        before - pops(op) + pushes(op),
    ));
}

/// A constant and the instruction that loads it.
pub proof fn lemma_with_constant(p: Parser, value: ValueModel)
    requires
        steady(p),
    ensures
        grown(p, with_constant(p, value)),
        pushed(p, with_constant(p, value), 0, 1),
{
    let r = with_constant(p, value);
    let at = p.chunk.code.len() as int;
    assert(r.chunk.code.subrange(0, at) =~= p.chunk.code);
    if !r.had_error {
        lemma_decode(encode(OpCode::Constant));
        assert(r.chunk.code[at] == encode(OpCode::Constant));
        assert(r.chunk.code[at + 1] == stored_index(p));
        assert(instruction_at(r.chunk.code, r.chunk.constants.len() as int, at));
        assert(flows(r.chunk.code, r.chunk.constants.len() as int, at + 2, at + 2, 1, 1));
    }
}

/// The instructions of a binary operator take two values and leave one.
pub proof fn lemma_binary_codes(p: Parser, kind: TokenKind)
    requires
        steady(p),
        infix_of(kind) is Some,
    ensures
        grown(p, emitted_ops(p, binary_codes(kind))),
        pushed(p, emitted_ops(p, binary_codes(kind)), 2, 1),
        emitted_ops(p, binary_codes(kind)).had_error == p.had_error,
{
    reveal_with_fuel(emitted_ops, 3);
    let ops = binary_codes(kind);
    if ops.len() == 1 {
        assert(ops.drop_last() =~= Seq::<OpCode>::empty());
        assert(emitted_ops(p, ops) == emitted(p, encode(ops[0])));
        lemma_emitted(p, ops[0], 2);
    } else {
        assert(ops.len() == 2);
        assert(ops.drop_last() =~= seq![ops[0]]);
        assert(ops.drop_last().drop_last() =~= Seq::<OpCode>::empty());
        let q = emitted(p, encode(ops[0]));
        assert(emitted_ops(p, ops) == emitted(q, encode(ops[1])));
        lemma_emitted(p, ops[0], 2);
        lemma_emitted(q, ops[1], 1);
        lemma_pushed_then(p, q, emitted(q, encode(ops[1])), 2, 1, 1);
    }
}

/// An expression compiles to code that puts one value on the stack.
pub proof fn lemma_parsed(p: Parser, least: Precedence)
    requires
        steady(p),
    ensures
        grown(p, parsed(p, least)),
        pushed(p, parsed(p, least), 0, 1),
    decreases p.ahead(), 0int,
{
    let q = advanced(p);
    lemma_advanced(p);
    lemma_advanced_ahead(p);
    match prefix_of(q.last().kind) {
        None => {
            lemma_reported(q, q.last(), "Expected an expression."@);
            lemma_grown_then(p, q, parsed(p, least));
        },
        Some(handler) => {
            let r = applied(q, handler);
            lemma_applied(q, handler);
            assert(handler != Handler::Binary);
            lemma_continued(r, least);
            let s = continued(r, least);
            assert(parsed(p, least) == s);
            lemma_pushed_then(q, r, s, 0, 1, 1);
            lemma_grown_then(p, q, s);
        },
    }
}

/// The operators that follow an expression, with their operands, leave one
/// value where there was one.
pub proof fn lemma_continued(p: Parser, least: Precedence)
    requires
        steady(p),
    ensures
        grown(p, continued(p, least)),
        pushed(p, continued(p, least), 1, 1),
    decreases p.ahead(), 2int,
{
    lemma_grown_same(p);
    if level(least) <= level(precedence_of(p.current.kind)) {
        match infix_of(p.current.kind) {
            None => {},
            Some(handler) => {
                let q = advanced(p);
                lemma_advanced(p);
                lemma_advanced_ahead(p);
                let r = applied(q, handler);
                lemma_applied(q, handler);
                lemma_continued(r, least);
                let s = continued(r, least);
                assert(continued(p, least) == s);
                lemma_pushed_then(q, r, s, 1, 1, 1);
                lemma_grown_then(p, q, s);
            },
        }
    }
}

/// What a prefix part emits puts one value on the stack; what a binary
/// operator emits, its right operand included, leaves one where there was one.
pub proof fn lemma_applied(p: Parser, handler: Handler)
    requires
        steady(p),
        prefix_of(p.last().kind) == Some(handler) || infix_of(p.last().kind) == Some(handler),
    ensures
        grown(p, applied(p, handler)),
        pushed(
            p,
            applied(p, handler),
            if handler == Handler::Binary {
                1int
            } else {
                0int
            },
            1,
        ),
    decreases p.ahead(), 1int,
{
    let kind = p.last().kind;
    match handler {
        Handler::Grouping => {
            let q = parsed(p, Precedence::Assignment);
            lemma_parsed(p, Precedence::Assignment);
            let r = consumed(q, TokenKind::RightParen, "Expected ')' after expression"@);
            lemma_consumed(q, TokenKind::RightParen, "Expected ')' after expression"@);
            lemma_grown_same(r);
            assert(pushed(q, r, 1, 1));
            lemma_pushed_then(p, q, r, 0, 1, 1);
        },
        Handler::Unary => {
            let q = parsed(p, Precedence::Unary);
            lemma_parsed(p, Precedence::Unary);
            lemma_emitted(q, unary_code(kind), 1);
            lemma_pushed_then(p, q, emitted(q, encode(unary_code(kind))), 0, 1, 1);
        },
        Handler::Binary => {
            let least = above(precedence_of(kind));
            let q = parsed(p, least);
            lemma_parsed(p, least);
            if !q.had_error {
                lemma_flows_lift(
                    q.chunk.code,
                    q.chunk.constants.len() as int,
                    p.chunk.code.len() as int,
                    q.chunk.code.len() as int,
                    0,
                    1,
                    1,
                );
            }
            lemma_binary_codes(q, kind);
            lemma_pushed_then(p, q, emitted_ops(q, binary_codes(kind)), 1, 2, 1);
        },
        Handler::Number => {
            lemma_with_constant(
                p,
                ValueModel::Float(p.last().value.unwrap()),
            );
        },
        Handler::String => {
            lemma_with_constant(
                p,
                ValueModel::Str(unquoted(p.last().text)),
            );
        },
        Handler::Literal => {
            lemma_emitted(p, literal_code(kind), 0);
        },
    }
}

/// A chunk that was compiled without an error can be run, and every byte of
/// its code has its line.
pub proof fn lemma_compiled_runnable(p: Parser)
    requires
        steady(p),
    ensures
        !compiled_from(p).had_error ==> compiled_from(p).chunk.runnable() && compiled_from(
            p,
        ).chunk.well_formed() && compiled_from(p).chunk.lines.len() == compiled_from(
            p,
        ).chunk.code.len(),
        compiled_from(p).chunk.constants.len() <= 256,
{
    let fresh = Parser {
        chunk: ChunkModel {
            code: Seq::empty(),
            constants: Seq::empty(),
            lines: Seq::empty(),
        },
        ..p
    };
    let q = parsed(fresh, Precedence::Assignment);
    lemma_parsed(fresh, Precedence::Assignment);
    let r = consumed(q, TokenKind::End, "Expected the end of an expression."@);
    lemma_consumed(q, TokenKind::End, "Expected the end of an expression."@);
    let s = emitted(r, encode(OpCode::Return));
    assert(s == compiled_from(p));
    if !s.had_error {
        let at = r.chunk.code.len() as int;
        assert(s.chunk.code.subrange(0, at) =~= r.chunk.code);
        lemma_flows_grow(
            q.chunk.code,
            q.chunk.constants.len() as int,
            s.chunk.code,
            s.chunk.constants.len() as int,
            0,
            at,
            0,
            1,
        );
        lemma_flows_runnable(s.chunk.code, s.chunk.constants.len() as int, 0, at, 0, 1);
        lemma_flows_whole(s.chunk.code, s.chunk.constants.len() as int, 0, at, 0, 1);
    }
}

/// The same of a whole source: if it compiles, the chunk can be run.
pub proof fn lemma_source_runnable(source: Seq<u8>, numbers: Seq<u64>)
    ensures
        !compiled(source, numbers).had_error ==> compiled(source, numbers).chunk.runnable()
            && compiled(source, numbers).chunk.well_formed(),
        compiled(source, numbers).chunk.constants.len() <= 256,
{
    lemma_scan_bounds(source, 0, 1);
    assert(steady(initial(source, numbers)));
    lemma_compiled_runnable(initial(source, numbers));
}

} // verus!
