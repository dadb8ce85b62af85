use rox::bytecode::{Chunk, OpCode, Value};
use rox::compiler::Compiler;
use rox::grammar::{Handler, Precedence};
use rox::number::Number;
use rox::scanner::{number_literals, TokenKind};

fn float(x: f64) -> Value {
    Value::Float(Number::from_bits(x.to_bits()))
}

fn values(source: &str) -> Vec<Number> {
    let mut numbers = Vec::new();
    for literal in number_literals(source) {
        let parsed: f64 = literal.parse().unwrap();
        numbers.push(Number::from_bits(parsed.to_bits()));
    }
    numbers
}

fn compile(source: &str) -> Chunk {
    let mut compiler = Compiler::new(source, values(source));
    compiler.compile().unwrap()
}

#[test]
fn last_opcode_is_return() {
    let chunk = compile("10");

    assert_eq!(chunk.code[2], OpCode::Return as u8);
}

#[test]
fn constant() {
    let chunk = compile("10");

    assert_eq!(chunk.constants[0], float(10.0));
    assert_eq!(chunk.code[0], OpCode::Constant as u8);
    assert_eq!(chunk.code[1], 0);
}

#[test]
fn constant_string() {
    let chunk = compile(r#""constant""#);

    assert_eq!(chunk.constants[0], Value::Str(String::from("constant")));
    assert_eq!(chunk.code[0], OpCode::Constant as u8);
    assert_eq!(chunk.code[1], 0);
}

#[test]
fn compiler_negation() {
    let chunk = compile("-1");

    assert_eq!(chunk.code[2], OpCode::Negate as u8);
}

#[test]
fn sum() {
    let chunk = compile("1 + 2");

    assert_eq!(chunk.code[4], OpCode::Add as u8);
}

#[test]
fn product() {
    let chunk = compile("1 * 2");

    assert_eq!(chunk.code[4], OpCode::Multiply as u8);
}

#[test]
fn difference() {
    let chunk = compile("1 - 2");

    assert_eq!(chunk.code[4], OpCode::Subtract as u8);
}

#[test]
fn quotient() {
    let chunk = compile("1 / 2");

    assert_eq!(chunk.code[4], OpCode::Divide as u8);
}

#[test]
fn arithmetic_precedence() {
    let chunk = compile("1 + 2 * 10");
    println!("{:?}", chunk.code);
    assert_eq!(chunk.code[6], OpCode::Multiply as u8);
    assert_eq!(chunk.code[7], OpCode::Add as u8);
}

#[test]
fn coerced_precedence() {
    let chunk = compile("(1 + 2) * 10");
    println!("{:?}", chunk.code);
    assert_eq!(chunk.code[4], OpCode::Add as u8);
    assert_eq!(chunk.code[7], OpCode::Multiply as u8);
}

#[test]
fn equal() {
    let chunk = compile("1 == 2");

    assert_eq!(chunk.code[4], OpCode::Equal as u8);
}

#[test]
fn not_equal() {
    let chunk = compile("1 != 2");

    assert_eq!(chunk.code[4], OpCode::Equal as u8);
    assert_eq!(chunk.code[5], OpCode::Not as u8);
}

#[test]
fn compiler_greater() {
    let chunk = compile("1 > 2");

    assert_eq!(chunk.code[4], OpCode::Greater as u8);
}

#[test]
fn greater_equal() {
    let chunk = compile("1 >= 2");

    assert_eq!(chunk.code[4], OpCode::Less as u8);
    assert_eq!(chunk.code[5], OpCode::Not as u8);
}

#[test]
fn compiler_less() {
    let chunk = compile("1 < 2");

    assert_eq!(chunk.code[4], OpCode::Less as u8);
}

#[test]
fn less_equal() {
    let chunk = compile("1 <= 2");

    assert_eq!(chunk.code[4], OpCode::Greater as u8);
    assert_eq!(chunk.code[5], OpCode::Not as u8);
}

#[test]
fn literal_true() {
    let chunk = compile("true");

    assert_eq!(chunk.code[0], OpCode::True as u8);
}

#[test]
fn literal_false() {
    let chunk = compile("false");

    assert_eq!(chunk.code[0], OpCode::False as u8);
}

#[test]
fn literal_nil() {
    let chunk = compile("nil");

    assert_eq!(chunk.code[0], OpCode::Nil as u8);
}

fn ops(codes: &[OpCode]) -> Vec<u8> {
    codes.iter().map(|op| *op as u8).collect()
}

fn errors(source: &str) -> Vec<String> {
    let mut compiler = Compiler::new(source, values(source));
    let result = compiler.compile();
    assert_eq!(result.err(), Some(rox::vm::InterpretError::Compile));
    compiler
        .diagnostics()
        .iter()
        .map(|diagnostic| diagnostic.render())
        .collect()
}

#[test]
fn a_number_compiles_to_a_constant_and_return() {
    let chunk = compile("12.5");
    assert_eq!(chunk.code, vec![OpCode::Constant as u8, 0, OpCode::Return as u8]);
    assert_eq!(chunk.constants, vec![float(12.5)]);
    assert_eq!(chunk.lines, vec![1, 1, 1]);
}

#[test]
fn operands_come_before_their_operator() {
    let chunk = compile("1 + 2");
    assert_eq!(
        chunk.code,
        vec![
            OpCode::Constant as u8,
            0,
            OpCode::Constant as u8,
            1,
            OpCode::Add as u8,
            OpCode::Return as u8
        ]
    );
    assert_eq!(chunk.constants, vec![float(1.0), float(2.0)]);
}

#[test]
fn operators_of_one_precedence_group_to_the_left() {
    let chunk = compile("1 - 2 - 3");
    assert_eq!(
        chunk.code,
        vec![
            OpCode::Constant as u8,
            0,
            OpCode::Constant as u8,
            1,
            OpCode::Subtract as u8,
            OpCode::Constant as u8,
            2,
            OpCode::Subtract as u8,
            OpCode::Return as u8
        ]
    );
}

#[test]
fn comparison_binds_more_tightly_than_equality() {
    let chunk = compile("true == 1 < 2");
    assert_eq!(
        chunk.code,
        vec![
            OpCode::True as u8,
            OpCode::Constant as u8,
            0,
            OpCode::Constant as u8,
            1,
            OpCode::Less as u8,
            OpCode::Equal as u8,
            OpCode::Return as u8
        ]
    );
}

#[test]
fn unary_operators_bind_most_tightly() {
    assert_eq!(
        compile("-1 * 2").code,
        vec![
            OpCode::Constant as u8,
            0,
            OpCode::Negate as u8,
            OpCode::Constant as u8,
            1,
            OpCode::Multiply as u8,
            OpCode::Return as u8
        ]
    );
    assert_eq!(
        compile("!!nil").code,
        ops(&[OpCode::Nil, OpCode::Not, OpCode::Not, OpCode::Return])
    );
    assert_eq!(
        compile("-(1)").code,
        vec![OpCode::Constant as u8, 0, OpCode::Negate as u8, OpCode::Return as u8]
    );
}

#[test]
fn a_minus_after_an_operand_subtracts() {
    assert_eq!(
        compile("1 - -2").code,
        vec![
            OpCode::Constant as u8,
            0,
            OpCode::Constant as u8,
            1,
            OpCode::Negate as u8,
            OpCode::Subtract as u8,
            OpCode::Return as u8
        ]
    );
}

#[test]
fn a_string_constant_loses_its_quotes() {
    let chunk = compile("\"\"");
    assert_eq!(chunk.constants, vec![Value::Str(String::new())]);
    let chunk = compile("\"a b\" + \"gr\u{fc}n\"");
    assert_eq!(
        chunk.constants,
        vec![
            Value::Str(String::from("a b")),
            Value::Str(String::from("gr\u{fc}n"))
        ]
    );
}

#[test]
fn each_byte_has_the_line_of_its_token() {
    let chunk = compile("1 +\n2\n");
    assert_eq!(chunk.lines, vec![1, 1, 2, 2, 2, 3]);
    let chunk = compile("1 +\n2");
    assert_eq!(chunk.lines, vec![1, 1, 2, 2, 2, 2]);
    assert_eq!(chunk.lines.len(), chunk.code.len());
}

#[test]
fn compiled_chunks_can_be_run_and_listed() {
    for source in ["1", "(1 + 2) * 10", "!(1 <= 2) == false", "\"a\" + \"b\"", "-nil"] {
        let chunk = compile(source);
        assert!(chunk.is_runnable(), "{}", source);
        assert!(chunk.is_well_formed(), "{}", source);
    }
}

#[test]
fn an_empty_source_has_no_expression() {
    assert_eq!(
        errors(""),
        vec!["[line 1] Error at the end.: Expected an expression."]
    );
}

#[test]
fn an_open_group_is_reported_at_the_end() {
    assert_eq!(
        errors("(1 + 2"),
        vec!["[line 1] Error at the end.: Expected ')' after expression"]
    );
}

#[test]
fn what_follows_the_expression_is_reported() {
    assert_eq!(
        errors("1\n 2"),
        vec!["[line 2] Error at 2 : Expected the end of an expression."]
    );
}

#[test]
fn an_operator_without_an_operand_is_reported() {
    assert_eq!(
        errors("1 +"),
        vec!["[line 1] Error at the end.: Expected an expression."]
    );
    assert_eq!(
        errors("* 1"),
        vec!["[line 1] Error at * : Expected an expression."]
    );
}

#[test]
fn a_scanning_error_is_reported_with_its_message() {
    assert_eq!(
        errors("1 + @"),
        vec!["[line 1] Error at Unexpected character : Unexpected character"]
    );
    assert_eq!(
        errors("1 + \"abc"),
        vec!["[line 1] Error at Unterminated string. : Unterminated string."]
    );
}

#[test]
fn only_the_first_error_is_reported() {
    assert_eq!(errors("(@ + ) 1 2").len(), 1);
    assert_eq!(errors(") ) )").len(), 1);
}

#[test]
fn a_keyword_without_a_rule_starts_no_expression() {
    assert_eq!(
        errors("print 1"),
        vec!["[line 1] Error at print : Expected an expression."]
    );
}

fn sum_of(count: usize) -> String {
    let mut source = String::from("1");
    for _ in 1..count {
        source.push_str(" + 1");
    }
    source
}

#[test]
fn a_chunk_holds_256_constants() {
    let chunk = compile(&sum_of(256));
    assert_eq!(chunk.constants.len(), 256);
    assert_eq!(chunk.code[chunk.code.len() - 3], 255);
    assert!(chunk.is_runnable());
}

#[test]
fn one_constant_more_is_an_error() {
    assert_eq!(
        errors(&sum_of(257)),
        vec!["[line 1] Error at 1 : Too many constants in one chunk."]
    );
}

#[test]
fn end_appends_return() {
    let mut compiler = Compiler::new("1", values("1"));
    let chunk = compiler.compile().unwrap();
    assert_eq!(chunk.code.last(), Some(&(OpCode::Return as u8)));
    assert!(compiler.diagnostics().is_empty());
}

#[test]
fn every_token_kind_has_its_rule() {
    let rule = TokenKind::Minus.get_parse_rule();
    assert_eq!(rule.prefix, Some(Handler::Unary));
    assert_eq!(rule.infix, Some(Handler::Binary));
    assert_eq!(rule.precedence, Precedence::Term);
    let rule = TokenKind::Star.get_parse_rule();
    assert_eq!((rule.prefix, rule.infix), (None, Some(Handler::Binary)));
    assert_eq!(rule.precedence, Precedence::Factor);
    let rule = TokenKind::LeftParen.get_parse_rule();
    assert_eq!((rule.prefix, rule.infix), (Some(Handler::Grouping), None));
    let rule = TokenKind::EqualEqual.get_parse_rule();
    assert_eq!(rule.precedence, Precedence::Equality);
    let rule = TokenKind::LessEqual.get_parse_rule();
    assert_eq!(rule.precedence, Precedence::Comparison);
    let rule = TokenKind::End.get_parse_rule();
    assert_eq!((rule.prefix, rule.infix), (None, None));
    assert_eq!(rule.precedence, Precedence::Lowest);
    assert_eq!(TokenKind::String.get_parse_rule().prefix, Some(Handler::String));
    assert_eq!(TokenKind::Number.get_parse_rule().prefix, Some(Handler::Number));
    assert_eq!(TokenKind::Nil.get_parse_rule().prefix, Some(Handler::Literal));
}

#[test]
fn precedences_are_in_order() {
    let all = [
        Precedence::Lowest,
        Precedence::Assignment,
        Precedence::Or,
        Precedence::And,
        Precedence::Equality,
        Precedence::Comparison,
        Precedence::Term,
        Precedence::Factor,
        Precedence::Unary,
        Precedence::Call,
        Precedence::Primary,
    ];
    for (place, precedence) in all.iter().enumerate() {
        assert_eq!(precedence.rank() as usize, place);
        if place + 1 < all.len() {
            assert_eq!(precedence.next(), all[place + 1]);
        }
    }
    assert_eq!(Precedence::Primary.next(), Precedence::Primary);
}

#[test]
fn an_error_token_at_the_start_starts_no_expression() {
    assert_eq!(
        errors("@"),
        vec!["[line 1] Error at Unexpected character : Expected an expression."]
    );
}

#[test]
fn a_failed_compilation_gives_no_chunk() {
    let mut compiler = Compiler::new("(", values("("));
    assert_eq!(compiler.compile().err(), Some(rox::vm::InterpretError::Compile));
    assert_eq!(compiler.into_diagnostics().len(), 1);
}

#[test]
fn a_full_pool_takes_no_constant_of_any_kind() {
    let source = format!("{} + \"text\"", sum_of(256));
    assert_eq!(
        errors(&source),
        vec!["[line 1] Error at \"text\" : Too many constants in one chunk."]
    );
    assert_eq!(errors(&sum_of(300)).len(), 1);
}
