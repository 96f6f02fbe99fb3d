//! The disassembler: a chunk taken apart instruction by instruction.
//!
//! Each instruction is described by a [`Listing`]; putting it into
//! columns and printing it is left to the host.
use crate::chunk::{Chunk, OpCode};
use crate::value::Value;
use vstd::prelude::*;

verus! {

/// One instruction of a chunk.
#[derive(Copy, Clone, Debug)]
pub struct Listing {
    /// The offset of the instruction's first byte.
    pub offset: usize,
    /// The source line, or `None` where it is the line of the byte before:
    /// a listing shows `|` there.
    pub line: Option<usize>,
    /// The byte at `offset`.
    pub byte: u8,
    /// The instruction that the byte encodes, if it encodes one.
    pub opcode: Option<OpCode>,
    /// For `Constant`, the operand byte where the chunk has one.
    pub operand: Option<u8>,
    /// The constant that the operand names, where there is one.
    pub constant: Option<Value>,
    /// The offset of the next instruction.
    pub next: usize,
}

/// The instruction of the chunk with these bytes, lines and constants at
/// `offset`.
pub open spec fn listing_at(
    code: Seq<u8>,
    lines: Seq<usize>,
    constants: Seq<Value>,
    offset: nat,
) -> Listing {
    let byte = code[offset as int];
    let opcode = OpCode::decode(byte);
    let operand = if opcode == Some(OpCode::Constant) && offset + 1 < code.len() {
        Some(code[offset + 1 as int])
    } else {
        None
    };
    Listing {
        offset: offset as usize,
        line: if offset > 0 && lines[offset as int] == lines[offset - 1] {
            None
        } else {
            Some(lines[offset as int])
        },
        byte,
        opcode,
        operand,
        constant: match operand {
            Some(index) => if index < constants.len() {
                Some(constants[index as int])
            } else {
                None
            },
            None => None,
        },
        next: if operand is Some {
            (offset + 2) as usize
        } else {
            (offset + 1) as usize
        },
    }
}

/// The instructions from `offset` to the end of the chunk.
pub open spec fn listings_from(
    code: Seq<u8>,
    lines: Seq<usize>,
    constants: Seq<Value>,
    offset: nat,
) -> Seq<Listing>
    decreases code.len() - offset,
{
    if offset < code.len() {
        let first = listing_at(code, lines, constants, offset);
        if offset < first.next {
            seq![first] + listings_from(code, lines, constants, first.next as nat)
        } else {
            seq![first]
        }
    } else {
        Seq::empty()
    }
}

impl OpCode {
    /// The name that a listing shows for the instruction.
    pub fn name(self) -> (r: &'static str)
        ensures
            r == match self {
                OpCode::Constant => "OP_CONSTANT",
                OpCode::Nil => "OP_NIL",
                OpCode::True => "OP_TRUE",
                OpCode::False => "OP_FALSE",
                OpCode::Equal => "OP_EQUAL",
                OpCode::Greater => "OP_GREATER",
                OpCode::Less => "OP_LESS",
                OpCode::Add => "OP_ADD",
                OpCode::Subtract => "OP_SUBTRACT",
                OpCode::Multiply => "OP_MULTIPLY",
                OpCode::Divide => "OP_DIVIDE",
                OpCode::Not => "OP_NOT",
                OpCode::Negate => "OP_NEGATE",
                OpCode::Return => "OP_RETURN",
            },
    {
        match self {
            OpCode::Constant => "OP_CONSTANT",
            OpCode::Nil => "OP_NIL",
            OpCode::True => "OP_TRUE",
            OpCode::False => "OP_FALSE",
            OpCode::Equal => "OP_EQUAL",
            OpCode::Greater => "OP_GREATER",
            OpCode::Less => "OP_LESS",
            OpCode::Add => "OP_ADD",
            OpCode::Subtract => "OP_SUBTRACT",
            OpCode::Multiply => "OP_MULTIPLY",
            OpCode::Divide => "OP_DIVIDE",
            OpCode::Not => "OP_NOT",
            OpCode::Negate => "OP_NEGATE",
            OpCode::Return => "OP_RETURN",
        }
    }
}

/// Takes the whole chunk apart, first instruction first.
pub fn disassemble_chunk(chunk: &Chunk) -> (listings: Vec<Listing>)
    requires
        chunk.wf(),
    ensures
        listings@ == listings_from(chunk.code@, chunk.lines@, chunk.constants@, 0),
{
    let mut listings: Vec<Listing> = Vec::new();
    let len = chunk.len();
    let mut offset: usize = 0;
    while offset < len
        invariant
            chunk.wf(),
            len == chunk.code@.len(),
            offset <= len,
            listings@ + listings_from(chunk.code@, chunk.lines@, chunk.constants@, offset as nat)
                == listings_from(chunk.code@, chunk.lines@, chunk.constants@, 0),
        decreases len - offset,
    {
        let ghost before = listings@;
        let listing = disassemble_instruction(chunk, offset);
        listings.push(listing);
        assert(listings@ + listings_from(
            chunk.code@,
            chunk.lines@,
            chunk.constants@,
            listing.next as nat,
        ) =~= before + listings_from(chunk.code@, chunk.lines@, chunk.constants@, offset as nat));
        offset = listing.next;
    }
    assert(listings@ + Seq::<Listing>::empty() =~= listings@);
    listings
}

/// Describes the instruction at `offset`: its line, its name, for
/// `Constant` the index and the constant, and where the next instruction
/// starts.
pub fn disassemble_instruction(chunk: &Chunk, offset: usize) -> (listing: Listing)
    requires
        chunk.wf(),
        offset < chunk.code@.len(),
    ensures
        listing == listing_at(chunk.code@, chunk.lines@, chunk.constants@, offset as nat),
        offset < listing.next <= chunk.code@.len(),
{
    let len = chunk.len();
    let line = if offset > 0 && chunk.lines[offset] == chunk.lines[offset - 1] {
        None
    } else {
        Some(chunk.lines[offset])
    };
    let byte = chunk.index(offset);
    let instruction = OpCode::from_byte(byte);
    match instruction {
        Some(OpCode::Constant) => constant_instruction(chunk, offset, line),
        _ => simple_instruction(byte, instruction, offset, line),
    }
}

fn constant_instruction(chunk: &Chunk, offset: usize, line: Option<usize>) -> (listing: Listing)
    requires
        chunk.wf(),
        offset < chunk.code@.len(),
        OpCode::decode(chunk.code@[offset as int]) == Some(OpCode::Constant),
        line == listing_at(chunk.code@, chunk.lines@, chunk.constants@, offset as nat).line,
    ensures
        listing == listing_at(chunk.code@, chunk.lines@, chunk.constants@, offset as nat),
        offset < listing.next <= chunk.code@.len(),
{
    let len = chunk.len();
    let byte = chunk.index(offset);
    if offset + 1 < len {
        let index = chunk.index(offset + 1);
        let constant = if (index as usize) < chunk.constants.len() {
            Some(chunk.constants[index as usize])
        } else {
            None
        };
        Listing {
            offset,
            line,
            byte,
            opcode: Some(OpCode::Constant),
            operand: Some(index),
            constant,
            next: offset + 2,
        }
    } else {
        Listing {
            offset,
            line,
            byte,
            opcode: Some(OpCode::Constant),
            operand: None,
            constant: None,
            next: offset + 1,
        }
    }
}

fn simple_instruction(byte: u8, opcode: Option<OpCode>, offset: usize, line: Option<usize>) -> (listing:
    Listing)
    requires
        offset < usize::MAX,
    ensures
        listing == (Listing {
            offset,
            line,
            byte,
            opcode,
            operand: None,
            constant: None,
            next: (offset + 1) as usize,
        }),
{
    Listing { offset, line, byte, opcode, operand: None, constant: None, next: offset + 1 }
}

} // verus!
