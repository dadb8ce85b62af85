use rox::bytecode::{Chunk, OpCode, Value};
use rox::number::Number;
use rox::vm::{Arithmetic, InterpretError, Operation, Progress, VM};

fn float(x: f64) -> Value {
    Value::Float(Number::from_bits(x.to_bits()))
}

fn answer(operation: Operation) -> Number {
    let left = f64::from_bits(operation.left.to_bits());
    let right = f64::from_bits(operation.right.to_bits());
    let result = match operation.operator {
        Arithmetic::Add => left + right,
        Arithmetic::Subtract => left - right,
        Arithmetic::Multiply => left * right,
        Arithmetic::Divide => left / right,
    };
    Number::from_bits(result.to_bits())
}

fn run(vm: &mut VM, chunk: &Chunk) -> Result<Value, InterpretError> {
    let mut progress = vm.run(chunk)?;
    loop {
        match progress {
            Progress::Finished(value) => return Ok(value),
            Progress::Suspended(operation) => {
                progress = vm.resume(chunk, answer(operation))?;
            }
        }
    }
}

#[test]
fn division() -> Result<(), InterpretError> {
    let chunk = Chunk::new(
        vec![
            OpCode::Constant as u8,
            0,
            OpCode::Constant as u8,
            1,
            OpCode::Divide as u8,
            OpCode::Return as u8,
        ],
        vec![float(100.0), float(5.0)],
        vec![123, 123, 123, 123, 123, 123, 123],
    );
    let mut vm = VM::new();
    let result = run(&mut vm, &chunk)?;

    assert_eq!(result, float(20.0));

    Ok(())
}

#[test]
fn vm_negation() -> Result<(), InterpretError> {
    let chunk = Chunk::new(
        vec![
            OpCode::Constant as u8,
            0,
            OpCode::Negate as u8,
            OpCode::Return as u8,
        ],
        vec![float(100.0)],
        vec![123, 123, 123, 123],
    );
    let mut vm = VM::new();
    let result = run(&mut vm, &chunk)?;

    assert_eq!(result, float(-100.0));

    Ok(())
}

#[test]
fn invalid_negation() {
    let chunk = Chunk::new(
        vec![
            OpCode::Constant as u8,
            0,
            OpCode::Negate as u8,
            OpCode::Return as u8,
        ],
        vec![Value::Bool(true)],
        vec![123, 123, 123, 123],
    );
    let mut vm = VM::new();
    let result = run(&mut vm, &chunk);

    assert_eq!(result, Err(InterpretError::Runtime));
}

#[test]
fn not() -> Result<(), InterpretError> {
    let chunk = Chunk::new(
        vec![OpCode::True as u8, OpCode::Not as u8, OpCode::Return as u8],
        vec![],
        vec![123, 123, 123],
    );
    let mut vm = VM::new();
    let result = run(&mut vm, &chunk)?;

    assert_eq!(result, Value::Bool(false));

    Ok(())
}

#[test]
fn vm_less() -> Result<(), InterpretError> {
    let chunk = Chunk::new(
        vec![
            OpCode::Constant as u8,
            0,
            OpCode::Constant as u8,
            1,
            OpCode::Less as u8,
            OpCode::Return as u8,
        ],
        vec![float(-1.0), float(1.0)],
        vec![123, 123, 123, 123, 123, 123],
    );
    let mut vm = VM::new();
    let result = run(&mut vm, &chunk)?;

    assert_eq!(result, Value::Bool(true));

    Ok(())
}

#[test]
fn vm_greater() -> Result<(), InterpretError> {
    let chunk = Chunk::new(
        vec![
            OpCode::Constant as u8,
            0,
            OpCode::Constant as u8,
            1,
            OpCode::Greater as u8,
            OpCode::Return as u8,
        ],
        vec![float(-1.0), float(1.0)],
        vec![123, 123, 123, 123, 123, 123],
    );
    let mut vm = VM::new();
    let result = run(&mut vm, &chunk)?;

    assert_eq!(result, Value::Bool(false));

    Ok(())
}

#[test]
fn equals() -> Result<(), InterpretError> {
    let chunk = Chunk::new(
        vec![
            OpCode::Constant as u8,
            0,
            OpCode::Constant as u8,
            1,
            OpCode::Equal as u8,
            OpCode::Return as u8,
        ],
        vec![float(1.0), float(1.0)],
        vec![123, 123, 123, 123, 123, 123],
    );
    let mut vm = VM::new();
    let result = run(&mut vm, &chunk)?;

    assert_eq!(result, Value::Bool(true));

    Ok(())
}

#[test]
fn concatenation() -> Result<(), InterpretError> {
    let chunk = Chunk::new(
        vec![
            OpCode::Constant as u8,
            0,
            OpCode::Constant as u8,
            1,
            OpCode::Add as u8,
            OpCode::Return as u8,
        ],
        vec![
            Value::Str(String::from("hello, ")),
            Value::Str(String::from("world!")),
        ],
        vec![123, 123, 123, 123, 123, 123],
    );
    let mut vm = VM::new();
    let result = run(&mut vm, &chunk)?;

    assert_eq!(result, Value::Str(String::from("hello, world!")));

    Ok(())
}

fn values(source: &str) -> Vec<Number> {
    let mut numbers = Vec::new();
    for literal in rox::scanner::number_literals(source) {
        let parsed: f64 = literal.parse().unwrap();
        numbers.push(Number::from_bits(parsed.to_bits()));
    }
    numbers
}

fn interpret(vm: &mut VM, source: &str) -> Result<Value, InterpretError> {
    let (chunk, mut progress) = vm.interpret_source(source, values(source))?;
    loop {
        match progress {
            Progress::Finished(value) => return Ok(value),
            Progress::Suspended(operation) => {
                progress = vm.resume(&chunk, answer(operation))?;
            }
        }
    }
}

fn evaluate(source: &str) -> Result<Value, InterpretError> {
    interpret(&mut VM::new(), source)
}

fn chunk_of(code: Vec<u8>, constants: Vec<Value>) -> Chunk {
    let lines = vec![7; code.len()];
    Chunk::new(code, constants, lines)
}

fn fault_of(source: &str) -> String {
    let mut vm = VM::new();
    assert_eq!(interpret(&mut vm, source), Err(InterpretError::Runtime));
    vm.fault().as_ref().unwrap().render()
}

#[test]
fn a_number_evaluates_to_itself() {
    for literal in ["0", "1", "10", "12.5", "0.1", "123456789.125", "007"] {
        let expected: f64 = literal.parse().unwrap();
        assert_eq!(evaluate(literal), Ok(float(expected)));
    }
}

#[test]
fn arithmetic_on_two_numbers() {
    for (a, b) in [("1", "2"), ("7.5", "0.25"), ("100", "5"), ("3", "0"), ("0", "0")] {
        let x: f64 = a.parse().unwrap();
        let y: f64 = b.parse().unwrap();
        let show = |value: Result<Value, InterpretError>| match value {
            Ok(Value::Float(number)) => number.to_bits(),
            other => panic!("{:?}", other),
        };
        assert_eq!(show(evaluate(&format!("{} + {}", a, b))), (x + y).to_bits());
        assert_eq!(show(evaluate(&format!("{} - {}", a, b))), (x - y).to_bits());
        assert_eq!(show(evaluate(&format!("{} * {}", a, b))), (x * y).to_bits());
        assert_eq!(show(evaluate(&format!("{} / {}", a, b))), (x / y).to_bits());
    }
}

#[test]
fn division_by_zero_is_no_error() {
    match evaluate("3 / 0") {
        Ok(Value::Float(number)) => {
            assert_eq!(number.to_bits(), f64::INFINITY.to_bits())
        }
        other => panic!("{:?}", other),
    }
    match evaluate("-3 / 0") {
        Ok(Value::Float(number)) => {
            assert_eq!(number.to_bits(), f64::NEG_INFINITY.to_bits())
        }
        other => panic!("{:?}", other),
    }
    match evaluate("0 / 0") {
        Ok(Value::Float(number)) => assert!(number.is_nan()),
        other => panic!("{:?}", other),
    }
}

#[test]
fn the_machine_hands_out_the_operands_as_written() {
    let chunk = chunk_of(
        vec![
            OpCode::Constant as u8,
            0,
            OpCode::Constant as u8,
            1,
            OpCode::Subtract as u8,
            OpCode::Return as u8,
        ],
        vec![float(5.0), float(3.0)],
    );
    let mut vm = VM::new();
    match vm.run(&chunk) {
        Ok(Progress::Suspended(operation)) => {
            assert_eq!(operation.operator, Arithmetic::Subtract);
            assert_eq!(operation.left.to_bits(), 5.0f64.to_bits());
            assert_eq!(operation.right.to_bits(), 3.0f64.to_bits());
        }
        other => panic!("{:?}", other),
    }
    assert_eq!(
        vm.resume(&chunk, Number::from_bits(42.0f64.to_bits())),
        Ok(Progress::Finished(float(42.0)))
    );
}

#[test]
fn expressions_evaluate() {
    assert_eq!(evaluate("1 + 2 * 10"), Ok(float(21.0)));
    assert_eq!(evaluate("(1 + 2) * 10"), Ok(float(30.0)));
    assert_eq!(evaluate("10 - 4 - 3"), Ok(float(3.0)));
    assert_eq!(evaluate("100 / 5 / 2"), Ok(float(10.0)));
    assert_eq!(evaluate("-(1 + 2)"), Ok(float(-3.0)));
    assert_eq!(evaluate("--1"), Ok(float(1.0)));
    assert_eq!(evaluate("1 < 2"), Ok(Value::Bool(true)));
    assert_eq!(evaluate("2 < 1"), Ok(Value::Bool(false)));
    assert_eq!(evaluate("1 > 2"), Ok(Value::Bool(false)));
    assert_eq!(evaluate("2 >= 2"), Ok(Value::Bool(true)));
    assert_eq!(evaluate("1 >= 2"), Ok(Value::Bool(false)));
    assert_eq!(evaluate("2 <= 2"), Ok(Value::Bool(true)));
    assert_eq!(evaluate("3 <= 2"), Ok(Value::Bool(false)));
    assert_eq!(evaluate("1 != 2"), Ok(Value::Bool(true)));
    assert_eq!(evaluate("1 == 1"), Ok(Value::Bool(true)));
    assert_eq!(evaluate("1 + 1 == 2"), Ok(Value::Bool(true)));
    assert_eq!(evaluate("!(1 == 1)"), Ok(Value::Bool(false)));
    assert_eq!(evaluate("nil"), Ok(Value::Nil));
    assert_eq!(evaluate("true"), Ok(Value::Bool(true)));
    assert_eq!(evaluate("\"a\""), Ok(Value::Str(String::from("a"))));
    assert_eq!(evaluate("\"a\" + \"b\" + \"c\""), Ok(Value::Str(String::from("abc"))));
}

#[test]
fn texts_are_joined_left_before_right() {
    assert_eq!(
        evaluate("\"left \" + \"right\""),
        Ok(Value::Str(String::from("left right")))
    );
}

#[test]
fn equality_is_false_between_variants() {
    let chunk = chunk_of(
        vec![
            OpCode::True as u8,
            OpCode::Constant as u8,
            0,
            OpCode::Equal as u8,
            OpCode::Return as u8,
        ],
        vec![float(1.0)],
    );
    assert_eq!(run(&mut VM::new(), &chunk), Ok(Value::Bool(false)));
    assert_eq!(evaluate("true == 1"), Ok(Value::Bool(false)));
    assert_eq!(evaluate("nil == false"), Ok(Value::Bool(false)));
    assert_eq!(evaluate("\"1\" == 1"), Ok(Value::Bool(false)));
    assert_eq!(evaluate("\"\" == nil"), Ok(Value::Bool(false)));
    assert_eq!(evaluate("0 == false"), Ok(Value::Bool(false)));
}

#[test]
fn equality_is_true_of_equal_content() {
    assert_eq!(evaluate("nil == nil"), Ok(Value::Bool(true)));
    assert_eq!(evaluate("true == true"), Ok(Value::Bool(true)));
    assert_eq!(evaluate("true == false"), Ok(Value::Bool(false)));
    assert_eq!(evaluate("\"ab\" == \"ab\""), Ok(Value::Bool(true)));
    assert_eq!(evaluate("\"ab\" == \"ba\""), Ok(Value::Bool(false)));
    assert_eq!(evaluate("0 == -0"), Ok(Value::Bool(true)));
    assert_eq!(evaluate("0 / 0 == 0 / 0"), Ok(Value::Bool(false)));
}

#[test]
fn not_goes_by_what_counts_as_false() {
    assert_eq!(evaluate("!nil"), Ok(Value::Bool(true)));
    assert_eq!(evaluate("!false"), Ok(Value::Bool(true)));
    assert_eq!(evaluate("!true"), Ok(Value::Bool(false)));
    assert_eq!(evaluate("!0"), Ok(Value::Bool(false)));
    assert_eq!(evaluate("!\"\""), Ok(Value::Bool(false)));
    let chunk = chunk_of(
        vec![OpCode::Constant as u8, 0, OpCode::Not as u8, OpCode::Return as u8],
        vec![float(0.0)],
    );
    assert_eq!(run(&mut VM::new(), &chunk), Ok(Value::Bool(false)));
    assert!(Value::Nil.is_falsey());
    assert!(Value::Bool(false).is_falsey());
    assert!(!Value::Bool(true).is_falsey());
    assert!(!float(0.0).is_falsey());
    assert!(!Value::Str(String::new()).is_falsey());
}

#[test]
fn negating_what_is_no_number_fails_at_run_time() {
    let source = "-true";
    let mut compiler = rox::compiler::Compiler::new(source, values(source));
    assert!(compiler.compile().is_ok());
    assert_eq!(evaluate(source), Err(InterpretError::Runtime));
    assert_eq!(fault_of("-true"), "[line 1] Cannot negate true");
    assert_eq!(fault_of("\n-nil"), "[line 2] Cannot negate nil");
    assert_eq!(fault_of("-\"text\""), "[line 1] Cannot negate text");
    assert_eq!(fault_of("-false"), "[line 1] Cannot negate false");
}

#[test]
fn arithmetic_on_what_is_no_number_fails() {
    assert_eq!(fault_of("1 - true"), "[line 1] Operands must be a number");
    assert_eq!(fault_of("nil * 2"), "[line 1] Operands must be a number");
    assert_eq!(fault_of("\"a\" / \"b\""), "[line 1] Operands must be a number");
    assert_eq!(fault_of("1 < \"2\""), "[line 1] Operands must be a number");
    assert_eq!(fault_of("true > false"), "[line 1] Operands must be a number");
    assert_eq!(fault_of("nil <= 1"), "[line 1] Operands must be a number");
}

#[test]
fn adding_needs_two_numbers_or_two_texts() {
    let message = "[line 1] Operands must be two numbers or two strings.";
    assert_eq!(fault_of("1 + true"), message);
    assert_eq!(fault_of("nil + nil"), message);
    assert_eq!(fault_of("1 + \"a\""), message);
    assert_eq!(fault_of("\"a\" + 1"), message);
    assert_eq!(fault_of("true + \"a\""), message);
}

#[test]
fn the_line_of_a_fault_is_that_of_the_byte_after_the_opcode() {
    let chunk = Chunk::new(
        vec![OpCode::True as u8, OpCode::Negate as u8, OpCode::Return as u8],
        vec![],
        vec![1, 2, 3],
    );
    let mut vm = VM::new();
    assert_eq!(vm.run(&chunk), Err(InterpretError::Runtime));
    let fault = vm.fault().as_ref().unwrap();
    assert_eq!(fault.line, 3);
    assert_eq!(fault.message, "Cannot negate true");
}

#[test]
fn a_source_that_does_not_compile_is_not_run() {
    let mut vm = VM::new();
    assert_eq!(interpret(&mut vm, "1 +"), Err(InterpretError::Compile));
    assert!(vm.fault().is_none());
    let reports: Vec<String> = vm.diagnostics().iter().map(|d| d.render()).collect();
    assert_eq!(
        reports,
        vec!["[line 1] Error at the end.: Expected an expression."]
    );
    assert_eq!(interpret(&mut vm, "1 + 1"), Ok(float(2.0)));
    assert!(vm.diagnostics().is_empty());
}

#[test]
fn each_run_starts_on_an_empty_stack() {
    let mut vm = VM::new();
    assert_eq!(interpret(&mut vm, "1 + true"), Err(InterpretError::Runtime));
    assert_eq!(interpret(&mut vm, "2"), Ok(float(2.0)));
    assert!(vm.fault().is_none());
}

#[test]
fn values_tell_their_variant() {
    assert!(float(1.0).is_float());
    assert!(!float(1.0).is_bool());
    assert!(Value::Bool(true).is_bool());
    assert!(Value::Nil.is_nil());
    assert!(!Value::Bool(false).is_nil());
    assert!(Value::Str(String::from("a")).is_str());
    assert_eq!(float(2.5).as_float().to_bits(), 2.5f64.to_bits());
    assert!(Value::Bool(true).as_bool());
    assert_eq!(Value::Str(String::from("a")).as_str(), "a");
}

#[test]
fn values_are_written_out() {
    assert_eq!(Value::Nil.to_text(), Some(String::from("nil")));
    assert_eq!(Value::Bool(true).to_text(), Some(String::from("true")));
    assert_eq!(Value::Bool(false).to_text(), Some(String::from("false")));
    assert_eq!(Value::Str(String::from("a b")).to_text(), Some(String::from("a b")));
    assert_eq!(float(1.0).to_text(), None);
}

#[test]
fn a_copy_of_a_value_is_equal_to_it() {
    for value in [float(1.5), Value::Bool(true), Value::Nil, Value::Str(String::from("x"))] {
        assert_eq!(value.clone(), value);
    }
}

#[test]
fn errors_have_names() {
    assert_eq!(InterpretError::Compile.to_text(), "Compile");
    assert_eq!(InterpretError::Runtime.to_text(), "Runtime");
}

#[test]
fn every_opcode_has_its_byte() {
    let all = [
        OpCode::Add,
        OpCode::Subtract,
        OpCode::Multiply,
        OpCode::Divide,
        OpCode::Constant,
        OpCode::Negate,
        OpCode::Nil,
        OpCode::True,
        OpCode::False,
        OpCode::Not,
        OpCode::Equal,
        OpCode::Greater,
        OpCode::Less,
        OpCode::Return,
    ];
    for op in all {
        assert_eq!(op.byte(), op as u8);
        assert_eq!(OpCode::from_byte(op as u8), Some(op));
    }
    assert_eq!(OpCode::from_byte(14), None);
    assert_eq!(OpCode::from_byte(255), None);
}

#[test]
fn a_chunk_grows_by_bytes_and_constants() {
    let mut chunk = Chunk::new(Vec::new(), Vec::new(), Vec::new());
    assert_eq!(chunk.write_constant(float(1.0)), 0);
    assert_eq!(chunk.write_constant(Value::Nil), 1);
    chunk.write(OpCode::Constant as u8, 3);
    chunk.write(1, 3);
    chunk.write(OpCode::Return as u8, 4);
    assert_eq!(chunk.code, vec![OpCode::Constant as u8, 1, OpCode::Return as u8]);
    assert_eq!(chunk.lines, vec![3, 3, 4]);
    assert_eq!(chunk.constants, vec![float(1.0), Value::Nil]);
    assert_eq!(run(&mut VM::new(), &chunk), Ok(Value::Nil));
}

#[test]
fn a_copy_of_a_chunk_runs_as_the_chunk_does() {
    let chunk = chunk_of(
        vec![
            OpCode::Constant as u8,
            0,
            OpCode::Constant as u8,
            1,
            OpCode::Add as u8,
            OpCode::Return as u8,
        ],
        vec![Value::Str(String::from("a")), Value::Str(String::from("b"))],
    );
    let copy = chunk.clone();
    assert_eq!(copy.code, chunk.code);
    assert_eq!(copy.constants, chunk.constants);
    assert_eq!(copy.lines, chunk.lines);
    assert_eq!(run(&mut VM::new(), &copy), Ok(Value::Str(String::from("ab"))));
}

#[test]
fn a_new_machine_is_at_rest() {
    let vm = VM::new();
    assert!(vm.fault().is_none());
    assert!(vm.diagnostics().is_empty());
}

#[test]
fn a_failed_compilation_leaves_nothing_of_an_earlier_run() {
    let mut vm = VM::new();
    assert_eq!(interpret(&mut vm, "-true"), Err(InterpretError::Runtime));
    assert!(vm.fault().is_some());
    assert_eq!(interpret(&mut vm, "1 +"), Err(InterpretError::Compile));
    assert!(vm.fault().is_none());
    assert_eq!(vm.diagnostics().len(), 1);
}

#[test]
fn a_failed_compilation_ends_a_suspended_run() {
    let mut vm = VM::new();
    match vm.interpret_source("1 + 2", values("1 + 2")) {
        Ok((_, Progress::Suspended(operation))) => {
            assert_eq!(operation.operator, Arithmetic::Add)
        }
        other => panic!("{:?}", other),
    }
    assert_eq!(interpret(&mut vm, ")"), Err(InterpretError::Compile));
    assert!(vm.fault().is_none());
    assert_eq!(interpret(&mut vm, "1 + 2"), Ok(float(3.0)));
}
