//! Values, opcodes and chunks: what the compiler hands to the machine.

use crate::number::{equal, Number};
use vstd::prelude::*;
use vstd::std_specs::cmp::PartialEqSpecImpl;

verus! {

/// What a [`Value`] stands for: a number by its bits, a boolean, a text by its
/// characters, or nothing.
pub enum ValueModel {
    Float(u64),
    Bool(bool),
    Str(Seq<char>),
    Nil,
}

/// A value of the language.
#[derive(Debug)]
pub enum Value {
    Float(Number),
    Bool(bool),
    Str(String),
    Nil,
}

impl View for Value {
    type V = ValueModel;

    open spec fn view(&self) -> ValueModel {
        match *self {
            Value::Float(n) => ValueModel::Float(n.bits),
            Value::Bool(b) => ValueModel::Bool(b),
            Value::Str(s) => ValueModel::Str(s@),
            Value::Nil => ValueModel::Nil,
        }
    }
}

/// The models of a sequence of values, one by one.
pub open spec fn models(values: Seq<Value>) -> Seq<ValueModel> {
    values.map_values(|v: Value| v@)
}

/// Equality of values: of the same variant and with equal content. Numbers
/// are equal as numbers are (`number::equal`).
pub open spec fn values_equal(a: ValueModel, b: ValueModel) -> bool {
    match (a, b) {
        (ValueModel::Float(x), ValueModel::Float(y)) => equal(x, y),
        (ValueModel::Bool(x), ValueModel::Bool(y)) => x == y,
        (ValueModel::Str(x), ValueModel::Str(y)) => x == y,
        (ValueModel::Nil, ValueModel::Nil) => true,
        _ => false,
    }
}

/// `Nil` and `false` count as false; every other value counts as true.
pub open spec fn falsey(v: ValueModel) -> bool {
    v == ValueModel::Nil || v == ValueModel::Bool(false)
}

/// How a value that is no number is written out. Numbers are written out by
/// the caller, who has the floating-point formatting.
pub open spec fn shown(v: ValueModel) -> Option<Seq<char>> {
    match v {
        ValueModel::Float(_) => None,
        ValueModel::Bool(b) => Some(
            if b {
                "true"@
            } else {
                "false"@
            },
        ),
        ValueModel::Str(s) => Some(s),
        ValueModel::Nil => Some("nil"@),
    }
}

impl Value {
    pub fn is_float(&self) -> (r: bool)
        ensures
            r == (self@ is Float),
    {
        match self {
            Value::Float(_) => true,
            _ => false,
        }
    }

    pub fn is_bool(&self) -> (r: bool)
        ensures
            r == (self@ is Bool),
    {
        match self {
            Value::Bool(_) => true,
            _ => false,
        }
    }

    pub fn is_str(&self) -> (r: bool)
        ensures
            r == (self@ is Str),
    {
        match self {
            Value::Str(_) => true,
            _ => false,
        }
    }

    pub fn is_nil(&self) -> (r: bool)
        ensures
            r == (self@ is Nil),
    {
        match self {
            Value::Nil => true,
            _ => false,
        }
    }

    /// The number in a `Float`.
    pub fn as_float(&self) -> (number: Number)
        requires
            self@ is Float,
        ensures
            self@ == ValueModel::Float(number.bits),
    {
        match self {
            Value::Float(n) => *n,
            _ => Number::from_bits(0),
        }
    }

    /// The boolean in a `Bool`.
    pub fn as_bool(&self) -> (b: bool)
        requires
            self@ is Bool,
        ensures
            self@ == ValueModel::Bool(b),
    {
        match self {
            Value::Bool(b) => *b,
            _ => false,
        }
    }

    /// The text in a `Str`.
    pub fn as_str(&self) -> (text: &str)
        requires
            self@ is Str,
        ensures
            self@ == ValueModel::Str(text@),
    {
        match self {
            Value::Str(s) => s.as_str(),
            _ => "",
        }
    }

    pub fn is_falsey(&self) -> (r: bool)
        ensures
            r == falsey(self@),
    {
        match self {
            Value::Nil => true,
            Value::Bool(b) => !*b,
            _ => false,
        }
    }

    /// The value written out, unless it is a number.
    pub fn to_text(&self) -> (text: Option<String>)
        ensures
            match shown(self@) {
                Some(s) => text.is_some() && text.unwrap()@ == s,
                None => text.is_none(),
            },
    {
        match self {
            Value::Float(_) => None,
            Value::Bool(b) => Some(
                if *b {
                    "true".to_owned()
                } else {
                    "false".to_owned()
                },
            ),
            Value::Str(s) => Some(s.clone()),
            Value::Nil => Some("nil".to_owned()),
        }
    }
}

impl Clone for Value {
    fn clone(&self) -> (copy: Value)
        ensures
            copy == *self,
    {
        match self {
            Value::Float(n) => Value::Float(*n),
            Value::Bool(b) => Value::Bool(*b),
            Value::Str(s) => Value::Str(s.clone()),
            Value::Nil => Value::Nil,
        }
    }
}

impl PartialEq for Value {
    fn eq(&self, other: &Value) -> (r: bool) {
        match self {
            Value::Float(x) => match other {
                Value::Float(y) => x.equals(y),
                _ => false,
            },
            Value::Bool(x) => match other {
                Value::Bool(y) => *x == *y,
                _ => false,
            },
            Value::Str(x) => match other {
                Value::Str(y) => *x == *y,
                _ => false,
            },
            Value::Nil => match other {
                Value::Nil => true,
                _ => false,
            },
        }
    }
}

impl PartialEqSpecImpl for Value {
    open spec fn obeys_eq_spec() -> bool {
        true
    }

    open spec fn eq_spec(&self, other: &Value) -> bool {
        values_equal(self@, other@)
    }
}

/// The instructions of the machine. An instruction is one byte, the opcode;
/// `Constant` is followed by one more byte, an index into the constants.
#[derive(Copy, Clone, Debug, PartialEq, Eq, Structural)]
pub enum OpCode {
    Add,
    Subtract,
    Multiply,
    Divide,
    Constant,
    Negate,
    Nil,
    True,
    False,
    Not,
    Equal,
    Greater,
    Less,
    Return,
}

/// The byte that stands for an opcode.
pub open spec fn encode(op: OpCode) -> u8 {
    match op {
        OpCode::Add => 0,
        OpCode::Subtract => 1,
        OpCode::Multiply => 2,
        OpCode::Divide => 3,
        OpCode::Constant => 4,
        OpCode::Negate => 5,
        OpCode::Nil => 6,
        OpCode::True => 7,
        OpCode::False => 8,
        OpCode::Not => 9,
        OpCode::Equal => 10,
        OpCode::Greater => 11,
        OpCode::Less => 12,
        OpCode::Return => 13,
    }
}

/// The opcode that a byte stands for, if any: the one that encodes to it.
pub open spec fn decode(byte: u8) -> Option<OpCode> {
    if exists|op: OpCode| encode(op) == byte {
        Some(choose|op: OpCode| encode(op) == byte)
    } else {
        None
    }
}

/// No two opcodes share a byte; so decoding undoes encoding, and the bytes
/// that decode are those up to 13.
pub proof fn lemma_decode(byte: u8)
    ensures
        forall|op: OpCode| #[trigger] decode(encode(op)) == Some(op),
        decode(byte) is Some <==> byte <= 13,
        decode(byte) is Some ==> encode(decode(byte).unwrap()) == byte,
{
    assert forall|op: OpCode| #[trigger] decode(encode(op)) == Some(op) by {
        let found = choose|other: OpCode| encode(other) == encode(op);
        assert(encode(found) == encode(op));
    }
    if byte <= 13 {
        let op = if byte == 0 {
            OpCode::Add
        } else if byte == 1 {
            OpCode::Subtract
        } else if byte == 2 {
            OpCode::Multiply
        } else if byte == 3 {
            OpCode::Divide
        } else if byte == 4 {
            OpCode::Constant
        } else if byte == 5 {
            OpCode::Negate
        } else if byte == 6 {
            OpCode::Nil
        } else if byte == 7 {
            OpCode::True
        } else if byte == 8 {
            OpCode::False
        } else if byte == 9 {
            OpCode::Not
        } else if byte == 10 {
            OpCode::Equal
        } else if byte == 11 {
            OpCode::Greater
        } else if byte == 12 {
            OpCode::Less
        } else {
            OpCode::Return
        };
        assert(encode(op) == byte);
    }
}

impl OpCode {
    /// The byte of this opcode.
    pub fn byte(self) -> (b: u8)
        ensures
            b == encode(self),
    {
        match self {
            OpCode::Add => 0,
            OpCode::Subtract => 1,
            OpCode::Multiply => 2,
            OpCode::Divide => 3,
            OpCode::Constant => 4,
            OpCode::Negate => 5,
            OpCode::Nil => 6,
            OpCode::True => 7,
            OpCode::False => 8,
            OpCode::Not => 9,
            OpCode::Equal => 10,
            OpCode::Greater => 11,
            OpCode::Less => 12,
            OpCode::Return => 13,
        }
    }

    /// The opcode of a byte; `None` for a byte that is no opcode.
    pub fn from_byte(byte: u8) -> (op: Option<OpCode>)
        ensures
            op == decode(byte),
    {
        proof {
            lemma_decode(byte);
        }
        let op = match byte {
            0 => OpCode::Add,
            1 => OpCode::Subtract,
            2 => OpCode::Multiply,
            3 => OpCode::Divide,
            4 => OpCode::Constant,
            5 => OpCode::Negate,
            6 => OpCode::Nil,
            7 => OpCode::True,
            8 => OpCode::False,
            9 => OpCode::Not,
            10 => OpCode::Equal,
            11 => OpCode::Greater,
            12 => OpCode::Less,
            13 => OpCode::Return,
            _ => {
                return None;
            },
        };
        assert(decode(encode(op)) == Some(op));
        Some(op)
    }

    /// The name of this opcode in a listing.
    pub fn name(self) -> (name: &'static str)
        ensures
            name@ == op_name(self),
    {
        match self {
            OpCode::Add => "OP_ADD",
            OpCode::Subtract => "OP_SUBTRACT",
            OpCode::Multiply => "OP_MULTIPLY",
            OpCode::Divide => "OP_DIVIDE",
            OpCode::Constant => "OP_CONSTANT",
            OpCode::Negate => "OP_NEGATE",
            OpCode::Nil => "OP_NIL",
            OpCode::True => "OP_TRUE",
            OpCode::False => "OP_FALSE",
            OpCode::Not => "OP_NOT",
            OpCode::Equal => "OP_EQUAL",
            OpCode::Greater => "OP_GREATER",
            OpCode::Less => "OP_LESS",
            OpCode::Return => "OP_RETURN",
        }
    }
}

/// The name of an opcode in a listing.
pub open spec fn op_name(op: OpCode) -> Seq<char> {
    match op {
        OpCode::Add => "OP_ADD"@,
        OpCode::Subtract => "OP_SUBTRACT"@,
        OpCode::Multiply => "OP_MULTIPLY"@,
        OpCode::Divide => "OP_DIVIDE"@,
        OpCode::Constant => "OP_CONSTANT"@,
        OpCode::Negate => "OP_NEGATE"@,
        OpCode::Nil => "OP_NIL"@,
        OpCode::True => "OP_TRUE"@,
        OpCode::False => "OP_FALSE"@,
        OpCode::Not => "OP_NOT"@,
        OpCode::Equal => "OP_EQUAL"@,
        OpCode::Greater => "OP_GREATER"@,
        OpCode::Less => "OP_LESS"@,
        OpCode::Return => "OP_RETURN"@,
    }
}

/// How many bytes an instruction takes.
pub open spec fn width(op: OpCode) -> int {
    if op == OpCode::Constant {
        2
    } else {
        1
    }
}

/// How many values an instruction takes off the stack.
pub open spec fn pops(op: OpCode) -> int {
    match op {
        OpCode::Constant | OpCode::Nil | OpCode::True | OpCode::False => 0,
        OpCode::Negate | OpCode::Not | OpCode::Return => 1,
        _ => 2,
    }
}

/// How many values an instruction puts on the stack.
pub open spec fn pushes(op: OpCode) -> int {
    if op == OpCode::Return {
        0
    } else {
        1
    }
}

/// What a [`Chunk`] stands for.
pub struct ChunkModel {
    pub code: Seq<u8>,
    pub constants: Seq<ValueModel>,
    pub lines: Seq<u32>,
}

/// A compiled program: the instruction bytes, the constants they refer to,
/// and for each byte of `code` the source line it came from.
#[derive(Debug)]
pub struct Chunk {
    pub code: Vec<u8>,
    pub constants: Vec<Value>,
    pub lines: Vec<u32>,
}

impl View for Chunk {
    type V = ChunkModel;

    open spec fn view(&self) -> ChunkModel {
        ChunkModel { code: self.code@, constants: models(self.constants@), lines: self.lines@ }
    }
}

/// The instruction at `at` is whole: an opcode and, for `Constant`, the index
/// of a constant that is there.
pub open spec fn instruction_at(code: Seq<u8>, constants: int, at: int) -> bool {
    &&& 0 <= at < code.len()
    &&& decode(code[at]) is Some
    &&& decode(code[at]) == Some(OpCode::Constant) ==> at + 1 < code.len() && code[at + 1]
        < constants
}

/// From `at` to its end, `code` is a row of whole instructions.
pub open spec fn instructions_from(code: Seq<u8>, constants: int, at: int) -> bool
    decreases code.len() - at,
{
    if at >= code.len() {
        at == code.len()
    } else {
        instruction_at(code, constants, at) && instructions_from(
            code,
            constants,
            at + width(decode(code[at]).unwrap()),
        )
    }
}

/// Run from `at` with `depth` values on the stack, `code` reaches a `Return`
/// through whole instructions, each of which finds the values it takes.
pub open spec fn runnable_from(code: Seq<u8>, constants: int, at: int, depth: int) -> bool
    decreases code.len() - at,
{
    &&& instruction_at(code, constants, at)
    &&& {
        let op = decode(code[at]).unwrap();
        &&& depth >= pops(op)
        &&& op != OpCode::Return ==> runnable_from(
            code,
            constants,
            at + width(op),
            depth - pops(op) + pushes(op),
        )
    }
}

impl ChunkModel {
    /// Every byte of code has its line.
    pub open spec fn lined(self) -> bool {
        self.lines.len() >= self.code.len()
    }

    /// The chunk can be listed: its code is a row of whole instructions.
    pub open spec fn well_formed(self) -> bool {
        self.lined() && instructions_from(self.code, self.constants.len() as int, 0)
    }

    /// The chunk can be run from its first byte on an empty stack.
    pub open spec fn runnable(self) -> bool {
        self.lined() && runnable_from(self.code, self.constants.len() as int, 0, 0)
    }
}

impl Clone for Chunk {
    fn clone(&self) -> (copy: Chunk)
        ensures
            copy@ == self@,
    {
        let copy = Chunk {
            code: self.code.clone(),
            constants: self.constants.clone(),
            lines: self.lines.clone(),
        };
        assert(copy.code@ =~= self.code@);
        assert(copy.lines@ =~= self.lines@);
        assert(models(copy.constants@) =~= models(self.constants@));
        copy
    }
}

impl Chunk {
    pub fn new(code: Vec<u8>, constants: Vec<Value>, lines: Vec<u32>) -> (chunk: Chunk)
        ensures
            chunk.code == code,
            chunk.constants == constants,
            chunk.lines == lines,
    {
        Chunk { code, constants, lines }
    }

    /// Appends one byte of code and the line it came from.
    pub fn write(&mut self, byte: u8, line: u32)
        ensures
            final(self).code@ == old(self).code@.push(byte),
            final(self).lines@ == old(self).lines@.push(line),
            final(self).constants == old(self).constants,
    {
        self.code.push(byte);
        self.lines.push(line);
    }

    /// Appends a constant and gives its index.
    pub fn write_constant(&mut self, value: Value) -> (index: usize)
        ensures
            final(self).constants@ == old(self).constants@.push(value),
            final(self).code == old(self).code,
            final(self).lines == old(self).lines,
            index == old(self).constants@.len(),
    {
        self.constants.push(value);
        self.constants.len() - 1
    }
}

/// Equality of values goes both ways, holds only between values of the same
/// variant, and between values that are no numbers it holds exactly of a value
/// and itself.
pub proof fn lemma_values_equal(a: ValueModel, b: ValueModel)
    ensures
        values_equal(a, b) == values_equal(b, a),
        values_equal(a, b) ==> (a is Float <==> b is Float),
        values_equal(a, b) ==> (a is Bool <==> b is Bool),
        values_equal(a, b) ==> (a is Str <==> b is Str),
        values_equal(a, b) ==> (a is Nil <==> b is Nil),
        !(a is Float) ==> (values_equal(a, b) <==> a == b),
{
}

/// `Nil` and `false` count as false, and nothing else does: no number, not
/// even zero, and no text, not even the empty one.
pub proof fn lemma_falsey(v: ValueModel)
    ensures
        falsey(v) <==> v is Nil || v == ValueModel::Bool(false),
        v is Float ==> !falsey(v),
        v is Str ==> !falsey(v),
{
}

} // verus!
