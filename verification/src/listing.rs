//! Listing a chunk instruction by instruction, and checking one that was not
//! compiled here.
//!
//! A row of the listing reads: the offset in four digits, the line in four
//! digits (or `   |` where it is the line of the byte before), the opcode's
//! name and, for `Constant`, the index in four digits and the constant
//! between single quotes. The text of a constant that is a number comes from
//! the caller.

use crate::bytecode::{
    decode, instruction_at, instructions_from, op_name, runnable_from, shown, width, Chunk,
    ChunkModel, OpCode, Value, ValueModel,
};
use crate::text::{padded, padded_text};
use vstd::prelude::*;
use vstd::string::StringExecFns;

verus! {

/// What a [`Row`] stands for.
pub struct RowModel {
    pub text: Seq<char>,
    pub constant: Option<ValueModel>,
}

/// One instruction of a listing: the row up to the constant, and the
/// constant, if the instruction has one.
#[derive(Debug)]
pub struct Row {
    pub text: String,
    pub constant: Option<Value>,
}

impl View for Row {
    type V = RowModel;

    open spec fn view(&self) -> RowModel {
        RowModel {
            text: self.text@,
            constant: match self.constant {
                Some(value) => Some(value@),
                None => None,
            },
        }
    }
}

/// A listing: its heading and a row for each instruction.
#[derive(Debug)]
pub struct Listing {
    pub heading: String,
    pub rows: Vec<Row>,
}

pub open spec fn row_models(rows: Seq<Row>) -> Seq<RowModel> {
    rows.map_values(|row: Row| row@)
}

/// The heading of a listing.
pub open spec fn heading(description: Seq<char>) -> Seq<char> {
    "=== "@ + description + " ==="@
}

/// The line of the byte at `offset`, or a bar where the byte before it is of
/// the same line.
pub open spec fn line_column(lines: Seq<u32>, offset: int) -> Seq<char> {
    if offset > 0 && lines[offset] == lines[offset - 1] {
        "   |"@
    } else {
        padded(lines[offset] as nat, 4)
    }
}

/// The start of the row at `offset`: offset and line.
pub open spec fn row_start(chunk: ChunkModel, offset: int) -> Seq<char> {
    padded(offset as nat, 4) + " "@ + line_column(chunk.lines, offset) + " "@
}

/// The row of the instruction at `offset`.
pub open spec fn row_at(chunk: ChunkModel, offset: int) -> RowModel {
    let op = decode(chunk.code[offset]).unwrap();
    let head = row_start(chunk, offset) + op_name(op);
    if op == OpCode::Constant {
        let index = chunk.code[offset + 1];
        RowModel {
            text: head + " "@ + padded(index as nat, 4),
            constant: Some(chunk.constants[index as int]),
        }
    } else {
        RowModel { text: head, constant: None }
    }
}

/// The rows of the instructions from `offset` on.
pub open spec fn rows_from(chunk: ChunkModel, offset: int) -> Seq<RowModel>
    decreases chunk.code.len() - offset,
{
    if instruction_at(chunk.code, chunk.constants.len() as int, offset) {
        seq![row_at(chunk, offset)] + rows_from(
            chunk,
            offset + width(decode(chunk.code[offset]).unwrap()),
        )
    } else {
        Seq::empty()
    }
}

/// A row as a line of text. `number` is the text of the constant where the
/// constant is a number.
pub open spec fn rendered(row: RowModel, number: Seq<char>) -> Seq<char> {
    match row.constant {
        None => row.text,
        Some(value) => row.text + " '"@ + match shown(value) {
            Some(text) => text,
            None => number,
        } + "'"@,
    }
}

impl Row {
    /// The row as a line of text. `number` is the text of the constant where
    /// the constant is a number; it is not read otherwise.
    pub fn render(&self, number: &str) -> (line: String)
        ensures
            line@ == rendered(self@, number@),
    {
        match &self.constant {
            None => self.text.clone(),
            Some(value) => {
                let line = self.text.clone().concat(" '");
                let line = match value.to_text() {
                    Some(text) => line.concat(text.as_str()),
                    None => line.concat(number),
                };
                line.concat("'")
            },
        }
    }
}

impl Chunk {
    /// Lists the chunk.
    pub fn disassemble(&self, description: &str) -> (listing: Listing)
        requires
            self@.well_formed(),
        ensures
            listing.heading@ == heading(description@),
            row_models(listing.rows@) == rows_from(self@, 0),
    {
        let heading = "=== ".to_owned().concat(description).concat(" ===");
        let mut rows: Vec<Row> = Vec::new();
        let mut offset: usize = 0;
        assert(row_models(rows@) =~= Seq::<RowModel>::empty());
        while offset < self.code.len()
            invariant
                self@.lined(),
                offset <= self.code@.len(),
                instructions_from(self.code@, self@.constants.len() as int, offset as int),
                row_models(rows@) + rows_from(self@, offset as int) == rows_from(self@, 0),
            decreases self.code@.len() - offset,
        {
            let ghost before = row_models(rows@);
            let byte = self.code[offset];
            let (row, next) = self.disassemble_instruction(byte, offset);
            rows.push(row);
            proof {
                assert(row_models(rows@) =~= before.push(row@));
                assert(before.push(row@) + rows_from(self@, next as int) =~= before + (seq![
                    row@,
                ] + rows_from(self@, next as int)));
            }
            offset = next;
        }
        assert(rows_from(self@, offset as int) =~= Seq::<RowModel>::empty());
        assert(row_models(rows@) + Seq::<RowModel>::empty() =~= row_models(rows@));
        Listing { heading, rows }
    }

    fn disassemble_instruction(&self, byte: u8, offset: usize) -> (listed: (Row, usize))
        requires
            self@.lined(),
            instruction_at(self.code@, self@.constants.len() as int, offset as int),
            byte == self.code@[offset as int],
        ensures
            listed.0@ == row_at(self@, offset as int),
            listed.1 == offset + width(decode(byte).unwrap()),
    {
        let start = padded_text(offset as u64, 4).concat(" ");

        let start = if offset > 0 && self.lines[offset] == self.lines[offset - 1] {
            start.concat("   |")
        } else {
            start.concat(padded_text(self.lines[offset] as u64, 4).as_str())
        };
        let start = start.concat(" ");
        assert(start@ =~= row_start(self@, offset as int));

        let op = OpCode::from_byte(byte).unwrap();

        match op {
            OpCode::Constant => self.constant_instruction(start, op.name(), offset),
            _ => self.simple_instruction(start, op.name(), offset),
        }
    }

    fn simple_instruction(&self, start: String, name: &str, offset: usize) -> (listed: (
        Row,
        usize,
    ))
        requires
            offset < self.code.len(),
        ensures
            listed.0@ == (RowModel { text: start@ + name@, constant: None }),
            listed.1 == offset + 1,
    {
        (Row { text: start.concat(name), constant: None }, offset + 1)
    }

    fn constant_instruction(&self, start: String, name: &str, offset: usize) -> (listed: (
        Row,
        usize,
    ))
        requires
            offset + 1 < self.code.len(),
            self.code@[offset + 1] < self.constants@.len(),
        ensures
            listed.0@ == (RowModel {
                text: start@ + name@ + " "@ + padded(self.code@[offset + 1] as nat, 4),
                constant: Some(self.constants@[self.code@[offset + 1] as int]@),
            }),
            listed.1 == offset + 2,
    {
        let index = self.code[offset + 1];
        let text = start.concat(name).concat(" ").concat(padded_text(index as u64, 4).as_str());
        let constant = self.constants[index as usize].clone();
        (Row { text, constant: Some(constant) }, offset + 2)
    }

    /// Whether the chunk can be listed: every byte of code has its line, and
    /// the code is a row of whole instructions.
    pub fn is_well_formed(&self) -> (well_formed: bool)
        ensures
            well_formed == self@.well_formed(),
    {
        if self.lines.len() < self.code.len() {
            return false;
        }
        let mut at: usize = 0;
        while at < self.code.len()
            invariant
                at <= self.code@.len(),
                self@.constants.len() == self.constants@.len(),
                instructions_from(self.code@, self@.constants.len() as int, at as int)
                    == instructions_from(self.code@, self@.constants.len() as int, 0),
            decreases self.code@.len() - at,
        {
            match OpCode::from_byte(self.code[at]) {
                None => {
                    return false;
                },
                Some(op) => {
                    if op == OpCode::Constant {
                        if at + 1 >= self.code.len() || self.code[at + 1] as usize
                            >= self.constants.len() {
                            return false;
                        }
                        at += 2;
                    } else {
                        at += 1;
                    }
                },
            }
        }
        true
    }

    /// Whether the chunk can be run: every byte of code has its line, and
    /// from the first byte on the code reaches a `Return` through whole
    /// instructions that find their operands on the stack.
    pub fn is_runnable(&self) -> (runnable: bool)
        ensures
            runnable == self@.runnable(),
    {
        if self.lines.len() < self.code.len() {
            return false;
        }
        let mut at: usize = 0;
        let mut depth: usize = 0;
        while at < self.code.len()
            invariant
                at <= self.code@.len(),
                depth <= at,
                self@.lined(),
                self@.constants.len() == self.constants@.len(),
                runnable_from(
                    self.code@,
                    self@.constants.len() as int,
                    at as int,
                    depth as int,
                ) == runnable_from(self.code@, self@.constants.len() as int, 0, 0),
            decreases self.code@.len() - at,
        {
            match OpCode::from_byte(self.code[at]) {
                None => {
                    return false;
                },
                Some(op) => {
                    match op {
                        OpCode::Constant => {
                            if at + 1 >= self.code.len() || self.code[at + 1] as usize
                                >= self.constants.len() {
                                return false;
                            }
                            at += 2;
                            depth += 1;
                        },
                        OpCode::Nil | OpCode::True | OpCode::False => {
                            at += 1;
                            depth += 1;
                        },
                        OpCode::Negate | OpCode::Not => {
                            if depth < 1 {
                                return false;
                            }
                            at += 1;
                        },
                        OpCode::Return => {
                            return depth >= 1;
                        },
                        _ => {
                            if depth < 2 {
                                return false;
                            }
                            at += 1;
                            depth -= 1;
                        },
                    }
                },
            }
        }
        false
    }
}

} // verus!
