use rox::bytecode::{Chunk, OpCode, Value};
use rox::number::Number;

fn float(x: f64) -> Value {
    Value::Float(Number::from_bits(x.to_bits()))
}

#[test]
fn a_line_is_printed_once() {
    let chunk = Chunk::new(
        vec![OpCode::Constant as u8, 0, OpCode::Return as u8],
        vec![float(1.2)],
        vec![123, 123, 123],
    );
    let listing = chunk.disassemble("test chunk");
    assert_eq!(listing.heading, "=== test chunk ===");
    assert_eq!(listing.rows.len(), 2);
    assert_eq!(listing.rows[0].text, "0000 0123 OP_CONSTANT 0000");
    assert_eq!(listing.rows[0].constant, Some(float(1.2)));
    assert_eq!(listing.rows[0].render("1.2"), "0000 0123 OP_CONSTANT 0000 '1.2'");
    assert_eq!(listing.rows[1].text, "0002    | OP_RETURN");
    assert_eq!(listing.rows[1].constant, None);
    assert_eq!(listing.rows[1].render(""), "0002    | OP_RETURN");
}

#[test]
fn a_new_line_is_printed_again() {
    let chunk = Chunk::new(
        vec![
            OpCode::True as u8,
            OpCode::Not as u8,
            OpCode::Nil as u8,
            OpCode::Equal as u8,
            OpCode::Return as u8,
        ],
        vec![],
        vec![1, 1, 2, 10000, 10000],
    );
    let rows: Vec<String> = chunk
        .disassemble("lines")
        .rows
        .iter()
        .map(|row| row.render(""))
        .collect();
    assert_eq!(
        rows,
        vec![
            "0000 0001 OP_TRUE",
            "0001    | OP_NOT",
            "0002 0002 OP_NIL",
            "0003 10000 OP_EQUAL",
            "0004    | OP_RETURN",
        ]
    );
}

#[test]
fn every_opcode_has_its_name() {
    let code: Vec<u8> = vec![
        OpCode::Add as u8,
        OpCode::Subtract as u8,
        OpCode::Multiply as u8,
        OpCode::Divide as u8,
        OpCode::Negate as u8,
        OpCode::Nil as u8,
        OpCode::True as u8,
        OpCode::False as u8,
        OpCode::Not as u8,
        OpCode::Equal as u8,
        OpCode::Greater as u8,
        OpCode::Less as u8,
        OpCode::Return as u8,
    ];
    let lines = (1..=code.len() as u32).collect();
    let chunk = Chunk::new(code, vec![], lines);
    let names: Vec<String> = chunk
        .disassemble("names")
        .rows
        .iter()
        .map(|row| row.text[10..].to_string())
        .collect();
    assert_eq!(
        names,
        vec![
            "OP_ADD",
            "OP_SUBTRACT",
            "OP_MULTIPLY",
            "OP_DIVIDE",
            "OP_NEGATE",
            "OP_NIL",
            "OP_TRUE",
            "OP_FALSE",
            "OP_NOT",
            "OP_EQUAL",
            "OP_GREATER",
            "OP_LESS",
            "OP_RETURN",
        ]
    );
    assert_eq!(OpCode::Constant.name(), "OP_CONSTANT");
}

#[test]
fn a_constant_that_is_no_number_is_written_by_the_row() {
    let chunk = Chunk::new(
        vec![
            OpCode::Constant as u8,
            1,
            OpCode::Constant as u8,
            0,
            OpCode::Constant as u8,
            2,
        ],
        vec![Value::Bool(true), Value::Str(String::from("a b")), Value::Nil],
        vec![1, 1, 1, 1, 1, 1],
    );
    let rows: Vec<String> = chunk
        .disassemble("constants")
        .rows
        .iter()
        .map(|row| row.render("unused"))
        .collect();
    assert_eq!(
        rows,
        vec![
            "0000 0001 OP_CONSTANT 0001 'a b'",
            "0002    | OP_CONSTANT 0000 'true'",
            "0004    | OP_CONSTANT 0002 'nil'",
        ]
    );
}

#[test]
fn an_empty_chunk_has_no_rows() {
    let chunk = Chunk::new(vec![], vec![], vec![]);
    assert!(chunk.is_well_formed());
    assert!(!chunk.is_runnable());
    let listing = chunk.disassemble("");
    assert_eq!(listing.heading, "===  ===");
    assert!(listing.rows.is_empty());
}

#[test]
fn broken_code_is_told_apart() {
    let unknown = Chunk::new(vec![14], vec![], vec![1]);
    assert!(!unknown.is_well_formed());
    assert!(!unknown.is_runnable());

    let cut = Chunk::new(vec![OpCode::Constant as u8], vec![Value::Nil], vec![1]);
    assert!(!cut.is_well_formed());
    assert!(!cut.is_runnable());

    let missing = Chunk::new(
        vec![OpCode::Constant as u8, 1, OpCode::Return as u8],
        vec![Value::Nil],
        vec![1, 1, 1],
    );
    assert!(!missing.is_well_formed());
    assert!(!missing.is_runnable());

    let unlined = Chunk::new(vec![OpCode::Nil as u8, OpCode::Return as u8], vec![], vec![1]);
    assert!(!unlined.is_well_formed());
    assert!(!unlined.is_runnable());
}

#[test]
fn a_chunk_that_runs_short_of_operands_cannot_be_run() {
    let short = Chunk::new(
        vec![OpCode::Nil as u8, OpCode::Add as u8, OpCode::Return as u8],
        vec![],
        vec![1, 1, 1],
    );
    assert!(short.is_well_formed());
    assert!(!short.is_runnable());

    let empty = Chunk::new(vec![OpCode::Return as u8], vec![], vec![1]);
    assert!(empty.is_well_formed());
    assert!(!empty.is_runnable());

    let endless = Chunk::new(vec![OpCode::Nil as u8, OpCode::Not as u8], vec![], vec![1, 1]);
    assert!(endless.is_well_formed());
    assert!(!endless.is_runnable());
}

#[test]
fn what_follows_return_need_not_run() {
    let chunk = Chunk::new(
        vec![OpCode::Nil as u8, OpCode::Return as u8, OpCode::Add as u8],
        vec![],
        vec![1, 1, 1],
    );
    assert!(chunk.is_well_formed());
    assert!(chunk.is_runnable());
}

#[test]
fn numbers_are_written_in_decimal() {
    assert_eq!(rox::text::decimal_text(0), (String::from("0"), 1));
    assert_eq!(rox::text::decimal_text(7), (String::from("7"), 1));
    assert_eq!(rox::text::decimal_text(10), (String::from("10"), 2));
    assert_eq!(rox::text::decimal_text(4294967295), (String::from("4294967295"), 10));
    assert_eq!(
        rox::text::decimal_text(u64::MAX),
        (String::from("18446744073709551615"), 20)
    );
    assert_eq!(rox::text::padded_text(0, 4), "0000");
    assert_eq!(rox::text::padded_text(42, 4), "0042");
    assert_eq!(rox::text::padded_text(1234, 4), "1234");
    assert_eq!(rox::text::padded_text(12345, 4), "12345");
    assert_eq!(rox::text::padded_text(5, 0), "5");
}

#[test]
fn quotes_are_taken_off_both_ends() {
    assert_eq!(rox::text::unquote("\"abc\""), "abc");
    assert_eq!(rox::text::unquote("\"\""), "");
    assert_eq!(rox::text::unquote("abc"), "abc");
    assert_eq!(rox::text::unquote("\"a\"b\""), "a\"b");
    assert_eq!(rox::text::unquote("\"\u{e9}\""), "\u{e9}");
    assert_eq!(rox::text::unquote(""), "");
}

#[test]
fn text_is_cut_and_compared_by_bytes() {
    assert_eq!(rox::text::slice("hello", 1, 3), "el");
    assert_eq!(rox::text::slice("a\u{e9}b", 1, 3), "\u{e9}");
    assert_eq!(rox::text::slice("abc", 3, 3), "");
    assert!(rox::text::same_text("abc", "abc"));
    assert!(!rox::text::same_text("abc", "abd"));
    assert!(!rox::text::same_text("abc", "ab"));
    assert!(rox::text::same_text("", ""));
}
