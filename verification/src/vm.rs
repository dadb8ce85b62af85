//! The stack machine that runs a chunk.
//!
//! What running a chunk means is stated by the spec functions [`step`] and
//! [`run_from`]. The machine computes order, equality, negation and
//! concatenation itself. For a sum, difference, product or quotient of two
//! numbers it stops and hands the operands out ([`Progress::Suspended`]); the
//! caller computes the result and hands it back with [`VM::resume`].

use crate::bytecode::{
    decode, falsey, instruction_at, models, pops, pushes, runnable_from, shown, values_equal,
    width, Chunk, ChunkModel, OpCode, Value, ValueModel,
};
use crate::compiler::{bits_of, reports_of, Compiler, Diagnostic};
use crate::grammar::{compiled, Report};
use crate::number::{less, negated, Number};
use crate::scanner::number_literals_of;
use crate::text::{bytes_of, decimal, decimal_text};
use vstd::pervasive::unreached;
use vstd::prelude::*;
use vstd::string::StringExecFns;

verus! {

/// Why an interpretation failed.
#[derive(Copy, Clone, Debug, PartialEq, Eq, Structural)]
pub enum InterpretError {
    Compile,
    Runtime,
}

/// The name of an error.
pub open spec fn error_name(error: InterpretError) -> Seq<char> {
    match error {
        InterpretError::Compile => "Compile"@,
        InterpretError::Runtime => "Runtime"@,
    }
}

impl InterpretError {
    /// The name of the error.
    pub fn to_text(&self) -> (name: String)
        ensures
            name@ == error_name(*self),
    {
        match self {
            InterpretError::Compile => "Compile".to_owned(),
            InterpretError::Runtime => "Runtime".to_owned(),
        }
    }
}

/// The four operations on numbers that the machine leaves to its caller.
#[derive(Copy, Clone, Debug, PartialEq, Eq, Structural)]
pub enum Arithmetic {
    Add,
    Subtract,
    Multiply,
    Divide,
}

/// A request to the caller: compute `left operator right`.
#[derive(Copy, Clone, Debug, PartialEq)]
pub struct Operation {
    pub operator: Arithmetic,
    pub left: Number,
    pub right: Number,
}

/// How far a run has come.
#[derive(Debug, PartialEq)]
pub enum Progress {
    /// The chunk has returned this value.
    Finished(Value),
    /// The machine waits for the result of this operation.
    Suspended(Operation),
}

/// A runtime error: the source line and what went wrong.
#[derive(Debug)]
pub struct Fault {
    pub line: u32,
    pub message: String,
}

/// A runtime error as a line of text.
pub open spec fn fault_line(line: u32, message: Seq<char>) -> Seq<char> {
    "[line "@ + decimal(line as nat) + "] "@ + message
}

impl Fault {
    /// The error as a line of text.
    pub fn render(&self) -> (line: String)
        ensures
            line@ == fault_line(self.line, self.message@),
    {
        let (number, _) = decimal_text(self.line as u64);
        "[line ".to_owned().concat(number.as_str()).concat("] ").concat(self.message.as_str())
    }
}

/// What one instruction, or a whole run, leads to.
pub enum Effect {
    /// Go on at `ip` with `stack`.
    Continue { ip: int, stack: Seq<ValueModel> },
    /// Wait for `left operator right`; then go on at `ip` with the result on
    /// top of `stack`.
    Await { operator: Arithmetic, left: u64, right: u64, ip: int, stack: Seq<ValueModel> },
    /// The run is over and has this value.
    Finish { value: ValueModel },
    /// The run is over with a runtime error.
    Fault { line: u32, message: Seq<char> },
    /// The code is broken here. A runnable chunk never comes to this.
    Stuck,
}

/// The value `offset` places below the top of the stack.
pub open spec fn top(stack: Seq<ValueModel>, offset: int) -> ValueModel {
    stack[stack.len() - 1 - offset]
}

/// The stack without its `n` topmost values.
pub open spec fn below(stack: Seq<ValueModel>, n: int) -> Seq<ValueModel> {
    stack.subrange(0, stack.len() - n)
}

/// The operation that an opcode leaves to the caller, where both operands are
/// numbers.
pub open spec fn arithmetic_of(op: OpCode) -> Option<Arithmetic> {
    match op {
        OpCode::Add => Some(Arithmetic::Add),
        OpCode::Subtract => Some(Arithmetic::Subtract),
        OpCode::Multiply => Some(Arithmetic::Multiply),
        OpCode::Divide => Some(Arithmetic::Divide),
        _ => None,
    }
}

/// What an instruction with two operands leads to. `left` was pushed first,
/// `right` is the top of the stack; `rest` is the stack below them, `next` the
/// offset after the instruction and `line` the line to report.
pub open spec fn binary_effect(
    op: OpCode,
    left: ValueModel,
    right: ValueModel,
    rest: Seq<ValueModel>,
    next: int,
    line: u32,
) -> Effect {
    if op == OpCode::Equal {
        Effect::Continue { ip: next, stack: rest.push(ValueModel::Bool(values_equal(left, right))) }
    } else {
        match (left, right) {
            (ValueModel::Float(a), ValueModel::Float(b)) => match op {
                OpCode::Less => Effect::Continue {
                    ip: next,
                    stack: rest.push(ValueModel::Bool(less(a, b))),
                },
                OpCode::Greater => Effect::Continue {
                    ip: next,
                    stack: rest.push(ValueModel::Bool(less(b, a))),
                },
                _ => match arithmetic_of(op) {
                    Some(operator) => Effect::Await {
                        operator,
                        left: a,
                        right: b,
                        ip: next,
                        stack: rest,
                    },
                    None => Effect::Stuck,
                },
            },
            (ValueModel::Str(a), ValueModel::Str(b)) if op == OpCode::Add => Effect::Continue {
                ip: next,
                stack: rest.push(ValueModel::Str(a + b)),
            },
            _ => Effect::Fault {
                line,
                message: if op == OpCode::Add {
                    "Operands must be two numbers or two strings."@
                } else {
                    "Operands must be a number"@
                },
            },
        }
    }
}

/// What the instruction at `ip` leads to, run on `stack`.
pub open spec fn step(chunk: ChunkModel, ip: int, stack: Seq<ValueModel>) -> Effect {
    if !instruction_at(chunk.code, chunk.constants.len() as int, ip) {
        Effect::Stuck
    } else {
        let op = decode(chunk.code[ip]).unwrap();
        let next = ip + 1;
        if stack.len() < pops(op) {
            Effect::Stuck
        } else {
            match op {
                OpCode::Constant => Effect::Continue {
                    ip: next + 1,
                    stack: stack.push(chunk.constants[chunk.code[next] as int]),
                },
                OpCode::Nil => Effect::Continue { ip: next, stack: stack.push(ValueModel::Nil) },
                OpCode::True => Effect::Continue {
                    ip: next,
                    stack: stack.push(ValueModel::Bool(true)),
                },
                OpCode::False => Effect::Continue {
                    ip: next,
                    stack: stack.push(ValueModel::Bool(false)),
                },
                OpCode::Negate => match top(stack, 0) {
                    ValueModel::Float(x) => Effect::Continue {
                        ip: next,
                        stack: below(stack, 1).push(ValueModel::Float(negated(x))),
                    },
                    other => Effect::Fault {
                        line: chunk.lines[next],
                        message: "Cannot negate "@ + shown(other).unwrap(),
                    },
                },
                OpCode::Not => Effect::Continue {
                    ip: next,
                    stack: below(stack, 1).push(ValueModel::Bool(falsey(top(stack, 0)))),
                },
                OpCode::Return => Effect::Finish { value: top(stack, 0) },
                _ => binary_effect(
                    op,
                    top(stack, 1),
                    top(stack, 0),
                    below(stack, 2),
                    next,
                    chunk.lines[next],
                ),
            }
        }
    }
}

/// What running `chunk` from `ip` on `stack` leads to: the effect of the
/// first instruction that does not simply go on.
pub open spec fn run_from(chunk: ChunkModel, ip: int, stack: Seq<ValueModel>) -> Effect
    decreases chunk.code.len() - ip,
{
    match step(chunk, ip, stack) {
        Effect::Continue { ip: next, stack: after } => {
            if ip < next <= chunk.code.len() {
                run_from(chunk, next, after)
            } else {
                Effect::Stuck
            }
        },
        effect => effect,
    }
}

pub proof fn lemma_models_push(values: Seq<Value>, value: Value)
    ensures
        models(values.push(value)) == models(values).push(value@),
{
    assert(models(values.push(value)) =~= models(values).push(value@));
}

pub proof fn lemma_models_below(values: Seq<Value>, n: int)
    requires
        0 <= n <= values.len(),
    ensures
        models(values.subrange(0, values.len() - n)) == below(models(values), n),
{
    assert(models(values.subrange(0, values.len() - n)) =~= below(models(values), n));
}

/// The machine: an instruction pointer and a stack of values.
pub struct VM {
    ip: usize,
    stack: Vec<Value>,
    fault: Option<Fault>,
    waiting: bool,
    diagnostics: Vec<Diagnostic>,
}

impl VM {
    /// The offset of the next instruction.
    pub closed spec fn ip(&self) -> int {
        self.ip as int
    }

    /// The stack, bottom first.
    pub closed spec fn stack(&self) -> Seq<ValueModel> {
        models(self.stack@)
    }

    /// The runtime error of the last run, if it ended in one.
    pub closed spec fn reported(&self) -> Option<(u32, Seq<char>)> {
        match self.fault {
            Some(fault) => Some((fault.line, fault.message@)),
            None => None,
        }
    }

    /// The compile errors of the last source that was interpreted.
    pub closed spec fn rejected(&self) -> Seq<Report> {
        reports_of(self.diagnostics@)
    }

    /// The machine waits for the result of an operation in a run of `chunk`,
    /// and the rest of `chunk` can be run once the result is on the stack.
    pub closed spec fn awaits(&self, chunk: ChunkModel) -> bool {
        &&& self.waiting
        &&& self.fault is None
        &&& chunk.lined()
        &&& runnable_from(
            chunk.code,
            chunk.constants.len() as int,
            self.ip as int,
            self.stack@.len() as int + 1,
        )
    }

    /// The machine is in the state, and `result` is the answer, that `effect`
    /// calls for at the end of a run of `chunk`.
    pub open spec fn reports(
        &self,
        chunk: ChunkModel,
        result: Result<Progress, InterpretError>,
        effect: Effect,
    ) -> bool {
        match effect {
            Effect::Finish { value } => {
                &&& result matches Ok(Progress::Finished(v)) && v@ == value
                &&& self.reported() is None
            },
            Effect::Await { operator, left, right, ip, stack } => {
                &&& result matches Ok(Progress::Suspended(operation))
                &&& operation.operator == operator
                &&& operation.left.bits == left
                &&& operation.right.bits == right
                &&& self.awaits(chunk)
                &&& self.ip() == ip
                &&& self.stack() == stack
            },
            Effect::Fault { line, message } => {
                &&& result == Err::<Progress, InterpretError>(InterpretError::Runtime)
                &&& self.reported() == Some((line, message))
            },
            _ => false,
        }
    }

    /// A machine at rest: at the first instruction, with an empty stack, with
    /// no error of an earlier run or compilation, and waiting for no operation.
    pub fn new() -> (vm: VM)
        ensures
            vm.ip() == 0,
            vm.stack() == Seq::<ValueModel>::empty(),
            vm.reported() is None,
            vm.rejected() == Seq::<Report>::empty(),
            forall|chunk: ChunkModel| !(#[trigger] vm.awaits(chunk)),
    {
        let vm = VM {
            ip: 0,
            stack: Vec::new(),
            fault: None,
            waiting: false,
            diagnostics: Vec::new(),
        };
        assert(models(vm.stack@) =~= Seq::<ValueModel>::empty());
        assert(reports_of(vm.diagnostics@) =~= Seq::<Report>::empty());
        vm
    }

    /// The runtime error of the last run, if it ended in one.
    pub fn fault(&self) -> (fault: &Option<Fault>)
        ensures
            match *fault {
                Some(f) => self.reported() == Some((f.line, f.message@)),
                None => self.reported() is None,
            },
    {
        &self.fault
    }

    /// The compile errors of the last source that was interpreted, in order.
    pub fn diagnostics(&self) -> (reports: &Vec<Diagnostic>)
        ensures
            reports_of(reports@) == self.rejected(),
    {
        &self.diagnostics
    }

    /// Compiles `source` and runs the chunk, as `run` does. `numbers` holds
    /// the values of the number literals of `source`, in order. Where the
    /// source does not compile, nothing is run and the machine is at rest, with
    /// nothing left of an earlier run. Else the chunk comes back with the
    /// answer of `run`, for `resume`.
    pub fn interpret_source(&mut self, source: &str, numbers: Vec<Number>) -> (result: Result<
        (Chunk, Progress),
        InterpretError,
    >)
        requires
            numbers@.len() == number_literals_of(bytes_of(source)).len(),
        ensures
            ({
                let done = compiled(bytes_of(source), bits_of(numbers@));
                &&& final(self).rejected() == done.reports
                &&& done.had_error ==> {
                    &&& result == Err::<(Chunk, Progress), InterpretError>(
                        InterpretError::Compile,
                    )
                    &&& final(self).ip() == 0
                    &&& final(self).stack() == Seq::<ValueModel>::empty()
                    &&& final(self).reported() is None
                    &&& forall|chunk: ChunkModel| !(#[trigger] final(self).awaits(chunk))
                }
                &&& !done.had_error ==> match result {
                    Ok((chunk, progress)) => chunk@ == done.chunk && final(self).reports(
                        done.chunk,
                        Ok(progress),
                        run_from(done.chunk, 0, Seq::empty()),
                    ),
                    Err(error) => final(self).reports(
                        done.chunk,
                        Err(error),
                        run_from(done.chunk, 0, Seq::empty()),
                    ),
                }
            }),
    {
        self.reset();
        let mut compiler = Compiler::new(source, numbers);
        let compilation = compiler.compile();
        self.diagnostics = compiler.into_diagnostics();
        match compilation {
            Err(error) => Err(error),
            Ok(chunk) => match self.run(&chunk) {
                Ok(progress) => Ok((chunk, progress)),
                Err(error) => Err(error),
            },
        }
    }

    /// Runs `chunk` from its first instruction on an empty stack, up to its
    /// `Return`, a runtime error, or the first operation that is left to the
    /// caller.
    pub fn run(&mut self, chunk: &Chunk) -> (result: Result<Progress, InterpretError>)
        requires
            chunk@.runnable(),
        ensures
            final(self).reports(chunk@, result, run_from(chunk@, 0, Seq::empty())),
            final(self).rejected() == old(self).rejected(),
    {
        self.reset();
        self.execute(chunk)
    }

    /// Goes on with a suspended run of `chunk`: `answer` is the result of the
    /// operation that was handed out.
    pub fn resume(&mut self, chunk: &Chunk, answer: Number) -> (result: Result<
        Progress,
        InterpretError,
    >)
        requires
            old(self).awaits(chunk@),
        ensures
            final(self).reports(
                chunk@,
                result,
                run_from(
                    chunk@,
                    old(self).ip(),
                    old(self).stack().push(ValueModel::Float(answer.bits)),
                ),
            ),
            final(self).rejected() == old(self).rejected(),
    {
        self.waiting = false;
        self.push(Value::Float(answer));
        self.execute(chunk)
    }

    /// Puts the machine at rest: at the first instruction, with an empty
    /// stack, with no runtime error, and waiting for no operation.
    fn reset(&mut self)
        ensures
            final(self).ip == 0,
            final(self).stack@ == Seq::<Value>::empty(),
            models(final(self).stack@) == Seq::<ValueModel>::empty(),
            final(self).fault is None,
            !final(self).waiting,
            final(self).diagnostics == old(self).diagnostics,
    {
        self.ip = 0;
        self.stack = Vec::new();
        self.fault = None;
        self.waiting = false;
        assert(models(self.stack@) =~= Seq::<ValueModel>::empty());
    }

    fn execute(&mut self, chunk: &Chunk) -> (result: Result<Progress, InterpretError>)
        requires
            chunk@.lined(),
            old(self).fault is None,
            runnable_from(
                chunk.code@,
                chunk@.constants.len() as int,
                old(self).ip as int,
                old(self).stack@.len() as int,
            ),
        ensures
            final(self).reports(
                chunk@,
                result,
                run_from(chunk@, old(self).ip as int, models(old(self).stack@)),
            ),
            final(self).diagnostics == old(self).diagnostics,
    {
        let ghost goal = run_from(chunk@, self.ip as int, models(self.stack@));
        loop
            invariant
                chunk@.lined(),
                self.fault is None,
                runnable_from(
                    chunk.code@,
                    chunk@.constants.len() as int,
                    self.ip as int,
                    self.stack@.len() as int,
                ),
                run_from(chunk@, self.ip as int, models(self.stack@)) == goal,
                goal == run_from(chunk@, old(self).ip as int, models(old(self).stack@)),
                self.diagnostics == old(self).diagnostics,
            decreases chunk.code@.len() - self.ip,
        {
            match self.dispatch(chunk) {
                Some(result) => {
                    return result;
                },
                None => {},
            }
        }
    }

    fn push(&mut self, value: Value)
        ensures
            final(self).stack@ == old(self).stack@.push(value),
            models(final(self).stack@) == models(old(self).stack@).push(value@),
            final(self).ip == old(self).ip,
            final(self).fault == old(self).fault,
            final(self).waiting == old(self).waiting,
            final(self).diagnostics == old(self).diagnostics,
    {
        proof {
            lemma_models_push(self.stack@, value);
        }
        self.stack.push(value);
    }

    fn pop(&mut self) -> (value: Value)
        requires
            old(self).stack@.len() > 0,
        ensures
            final(self).stack@ == old(self).stack@.drop_last(),
            models(final(self).stack@) == below(models(old(self).stack@), 1),
            value == old(self).stack@.last(),
            value@ == top(models(old(self).stack@), 0),
            final(self).ip == old(self).ip,
            final(self).fault == old(self).fault,
            final(self).waiting == old(self).waiting,
            final(self).diagnostics == old(self).diagnostics,
    {
        proof {
            lemma_models_below(self.stack@, 1);
        }
        self.stack.pop().unwrap()
    }

    fn peek(&self, offset: usize) -> (value: &Value)
        requires
            offset < self.stack@.len(),
        ensures
            value@ == top(models(self.stack@), offset as int),
    {
        let size = self.stack.len();
        &self.stack[size - offset - 1]
    }

    fn runtime_error(&mut self, chunk: &Chunk, message: String)
        requires
            old(self).ip < chunk.lines@.len(),
        ensures
            final(self).reported() == Some((chunk.lines@[old(self).ip as int], message@)),
            final(self).diagnostics == old(self).diagnostics,
    {
        let line = chunk.lines[self.ip];
        self.fault = Some(Fault { line, message });
    }

    /// Hands the two numbers on top of the stack out for `operator`.
    fn suspend(&mut self, operator: Arithmetic) -> (operation: Operation)
        requires
            old(self).stack@.len() >= 2,
            top(models(old(self).stack@), 0) is Float,
            top(models(old(self).stack@), 1) is Float,
        ensures
            operation.operator == operator,
            ValueModel::Float(operation.left.bits) == top(models(old(self).stack@), 1),
            ValueModel::Float(operation.right.bits) == top(models(old(self).stack@), 0),
            models(final(self).stack@) == below(models(old(self).stack@), 2),
            final(self).stack@.len() == old(self).stack@.len() - 2,
            final(self).ip == old(self).ip,
            final(self).waiting,
            final(self).fault == old(self).fault,
            final(self).diagnostics == old(self).diagnostics,
    {
        let ghost before = models(self.stack@);
        let right = self.pop().as_float();
        let left = self.pop().as_float();
        assert(models(self.stack@) =~= below(before, 2));
        self.waiting = true;
        Operation { operator, left, right }
    }

    /// Runs the instruction at the instruction pointer. `None` where the run
    /// goes on; else how it ended or stopped.
    fn dispatch(&mut self, chunk: &Chunk) -> (ended: Option<Result<Progress, InterpretError>>)
        requires
            chunk@.lined(),
            old(self).fault is None,
            runnable_from(
                chunk.code@,
                chunk@.constants.len() as int,
                old(self).ip as int,
                old(self).stack@.len() as int,
            ),
        ensures
            match step(chunk@, old(self).ip as int, models(old(self).stack@)) {
                Effect::Continue { ip, stack } => {
                    &&& ended is None
                    &&& final(self).fault is None
                    &&& final(self).ip == ip
                    &&& models(final(self).stack@) == stack
                    &&& old(self).ip < ip <= chunk.code@.len()
                    &&& runnable_from(
                        chunk.code@,
                        chunk@.constants.len() as int,
                        ip,
                        final(self).stack@.len() as int,
                    )
                },
                effect => ended is Some && final(self).reports(chunk@, ended.unwrap(), effect),
            },
            final(self).diagnostics == old(self).diagnostics,
    {
        let ghost before = models(self.stack@);
        let ghost at = self.ip as int;
        assert(chunk@.constants.len() == chunk.constants@.len());
        assert(self.ip < chunk.code.len());
        let op = OpCode::from_byte(chunk.code[self.ip]).unwrap();
        proof {
            if op != OpCode::Return {
                assert(runnable_from(
                    chunk.code@,
                    chunk@.constants.len() as int,
                    at + width(op),
                    before.len() - pops(op) + pushes(op),
                ));
            }
        }
        self.ip += 1;

        match op {
            OpCode::Add => {
                if self.peek(0).is_float() && self.peek(1).is_float() {
                    let operation = self.suspend(Arithmetic::Add);
                    return Some(Ok(Progress::Suspended(operation)));
                } else if self.peek(0).is_str() && self.peek(1).is_str() {
                    let b = self.pop();
                    let a = self.pop();
                    assert(models(self.stack@) =~= below(before, 2));
                    match a {
                        Value::Str(left) => {
                            let text = left.concat(b.as_str());
                            self.push(Value::Str(text));
                        },
                        _ => {
                            unreached::<()>();
                        },
                    }
                } else {
                    self.runtime_error(
                        chunk,
                        "Operands must be two numbers or two strings.".to_owned(),
                    );
                    return Some(Err(InterpretError::Runtime));
                }
            },
            OpCode::Subtract => {
                if !self.peek(0).is_float() || !self.peek(1).is_float() {
                    self.runtime_error(chunk, "Operands must be a number".to_owned());
                    return Some(Err(InterpretError::Runtime));
                }
                let operation = self.suspend(Arithmetic::Subtract);
                return Some(Ok(Progress::Suspended(operation)));
            },
            OpCode::Multiply => {
                if !self.peek(0).is_float() || !self.peek(1).is_float() {
                    self.runtime_error(chunk, "Operands must be a number".to_owned());
                    return Some(Err(InterpretError::Runtime));
                }
                let operation = self.suspend(Arithmetic::Multiply);
                return Some(Ok(Progress::Suspended(operation)));
            },
            OpCode::Divide => {
                if !self.peek(0).is_float() || !self.peek(1).is_float() {
                    self.runtime_error(chunk, "Operands must be a number".to_owned());
                    return Some(Err(InterpretError::Runtime));
                }
                let operation = self.suspend(Arithmetic::Divide);
                return Some(Ok(Progress::Suspended(operation)));
            },
            OpCode::Negate => {
                if !self.peek(0).is_float() {
                    let shown = self.peek(0).to_text().unwrap();
                    let message = "Cannot negate ".to_owned().concat(shown.as_str());
                    self.runtime_error(chunk, message);
                    return Some(Err(InterpretError::Runtime));
                }
                let number = self.pop().as_float();
                self.push(Value::Float(number.negate()));
            },
            OpCode::Constant => {
                let constant_index = chunk.code[self.ip] as usize;
                self.ip += 1;
                self.push(chunk.constants[constant_index].clone());
            },
            OpCode::Not => {
                let value = self.pop().is_falsey();
                self.push(Value::Bool(value));
            },
            OpCode::Nil => self.push(Value::Nil),
            OpCode::True => self.push(Value::Bool(true)),
            OpCode::False => self.push(Value::Bool(false)),
            OpCode::Equal => {
                let b = self.pop();
                let a = self.pop();
                assert(models(self.stack@) =~= below(before, 2));
                self.push(Value::Bool(a == b));
            },
            OpCode::Less => {
                if !self.peek(0).is_float() || !self.peek(1).is_float() {
                    self.runtime_error(chunk, "Operands must be a number".to_owned());
                    return Some(Err(InterpretError::Runtime));
                }
                let b = self.pop().as_float();
                let a = self.pop().as_float();
                assert(models(self.stack@) =~= below(before, 2));
                self.push(Value::Bool(a.less_than(&b)));
            },
            OpCode::Greater => {
                if !self.peek(0).is_float() || !self.peek(1).is_float() {
                    self.runtime_error(chunk, "Operands must be a number".to_owned());
                    return Some(Err(InterpretError::Runtime));
                }
                let b = self.pop().as_float();
                let a = self.pop().as_float();
                assert(models(self.stack@) =~= below(before, 2));
                self.push(Value::Bool(a.greater_than(&b)));
            },
            OpCode::Return => {
                let result = self.pop();
                return Some(Ok(Progress::Finished(result)));
            },
        }
        None
    }
}

/// `Negate` on a value that is no number ends the run with a runtime error,
/// whatever the value is; on a number it goes on.
pub proof fn lemma_negate(chunk: ChunkModel, ip: int, stack: Seq<ValueModel>)
    requires
        instruction_at(chunk.code, chunk.constants.len() as int, ip),
        decode(chunk.code[ip]) == Some(OpCode::Negate),
        stack.len() >= 1,
    ensures
        !(top(stack, 0) is Float) ==> step(chunk, ip, stack) == (Effect::Fault {
            line: chunk.lines[ip + 1],
            message: "Cannot negate "@ + shown(top(stack, 0)).unwrap(),
        }) && run_from(chunk, ip, stack) == step(chunk, ip, stack),
        top(stack, 0) is Float ==> step(chunk, ip, stack) is Continue,
{
}

/// `Not` puts `true` in the place of a value that counts as false, and
/// `false` in the place of any other.
pub proof fn lemma_not(chunk: ChunkModel, ip: int, stack: Seq<ValueModel>)
    requires
        instruction_at(chunk.code, chunk.constants.len() as int, ip),
        decode(chunk.code[ip]) == Some(OpCode::Not),
        stack.len() >= 1,
    ensures
        step(chunk, ip, stack) == (Effect::Continue {
            ip: ip + 1,
            stack: below(stack, 1).push(ValueModel::Bool(falsey(top(stack, 0)))),
        }),
{
}

/// In a runnable chunk a run never comes to broken code: it ends with a
/// value or a runtime error, or waits for an operation.
pub proof fn lemma_runnable_runs(chunk: ChunkModel, ip: int, stack: Seq<ValueModel>)
    requires
        runnable_from(chunk.code, chunk.constants.len() as int, ip, stack.len() as int),
    ensures
        run_from(chunk, ip, stack) is Finish || run_from(chunk, ip, stack) is Fault || run_from(
            chunk,
            ip,
            stack,
        ) is Await,
        run_from(chunk, ip, stack) matches Effect::Await { ip: next, stack: rest, .. }
            ==> runnable_from(
            chunk.code,
            chunk.constants.len() as int,
            next,
            rest.len() as int + 1,
        ),
    decreases chunk.code.len() - ip,
{
    let op = decode(chunk.code[ip]).unwrap();
    match step(chunk, ip, stack) {
        Effect::Continue { ip: next, stack: after } => {
            assert(next == ip + width(op));
            assert(after.len() == stack.len() - pops(op) + pushes(op));
            lemma_runnable_runs(chunk, next, after);
        },
        _ => {},
    }
}

} // verus!
