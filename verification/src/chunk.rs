//! Bytecode: the instruction set and the chunk that holds a compiled
//! expression.
use crate::value::Value;
use vstd::prelude::*;

verus! {

/// The instructions. Each is one byte; `Constant` is followed by one more,
/// the index of a constant of the chunk.
#[derive(Copy, Clone, Debug)]
pub enum OpCode {
    Constant,
    Nil,
    True,
    False,
    Equal,
    Greater,
    Less,
    Add,
    Subtract,
    Multiply,
    Divide,
    Not,
    Negate,
    Return,
}

/// The most constants one chunk can hold: an index is one byte.
pub const MAX_CONSTANTS: usize = 256;

impl OpCode {
    /// The byte that encodes the instruction.
    pub open spec fn byte(self) -> u8 {
        match self {
            OpCode::Constant => 0,
            OpCode::Nil => 1,
            OpCode::True => 2,
            OpCode::False => 3,
            OpCode::Equal => 4,
            OpCode::Greater => 5,
            OpCode::Less => 6,
            OpCode::Add => 7,
            OpCode::Subtract => 8,
            OpCode::Multiply => 9,
            OpCode::Divide => 10,
            OpCode::Not => 11,
            OpCode::Negate => 12,
            OpCode::Return => 13,
        }
    }

    /// The instruction that a byte encodes, if any.
    pub open spec fn decode(byte: u8) -> Option<OpCode> {
        if byte == 0 {
            Some(OpCode::Constant)
        } else if byte == 1 {
            Some(OpCode::Nil)
        } else if byte == 2 {
            Some(OpCode::True)
        } else if byte == 3 {
            Some(OpCode::False)
        } else if byte == 4 {
            Some(OpCode::Equal)
        } else if byte == 5 {
            Some(OpCode::Greater)
        } else if byte == 6 {
            Some(OpCode::Less)
        } else if byte == 7 {
            Some(OpCode::Add)
        } else if byte == 8 {
            Some(OpCode::Subtract)
        } else if byte == 9 {
            Some(OpCode::Multiply)
        } else if byte == 10 {
            Some(OpCode::Divide)
        } else if byte == 11 {
            Some(OpCode::Not)
        } else if byte == 12 {
            Some(OpCode::Negate)
        } else if byte == 13 {
            Some(OpCode::Return)
        } else {
            None
        }
    }

    /// How many bytes the instruction takes, its operand included.
    pub open spec fn size(self) -> nat {
        if self is Constant {
            2
        } else {
            1
        }
    }

    /// Encodes the instruction.
    pub fn to_byte(self) -> (r: u8)
        ensures
            r == self.byte(),
            OpCode::decode(r) == Some(self),
    {
        match self {
            OpCode::Constant => 0,
            OpCode::Nil => 1,
            OpCode::True => 2,
            OpCode::False => 3,
            OpCode::Equal => 4,
            OpCode::Greater => 5,
            OpCode::Less => 6,
            OpCode::Add => 7,
            OpCode::Subtract => 8,
            OpCode::Multiply => 9,
            OpCode::Divide => 10,
            OpCode::Not => 11,
            OpCode::Negate => 12,
            OpCode::Return => 13,
        }
    }

    /// Decodes a byte: `None` for a byte that is no instruction.
    pub fn from_byte(byte: u8) -> (r: Option<OpCode>)
        ensures
            r == OpCode::decode(byte),
            r is Some ==> r.unwrap().byte() == byte,
            r is None <==> byte > 13,
    {
        match byte {
            0 => Some(OpCode::Constant),
            1 => Some(OpCode::Nil),
            2 => Some(OpCode::True),
            3 => Some(OpCode::False),
            4 => Some(OpCode::Equal),
            5 => Some(OpCode::Greater),
            6 => Some(OpCode::Less),
            7 => Some(OpCode::Add),
            8 => Some(OpCode::Subtract),
            9 => Some(OpCode::Multiply),
            10 => Some(OpCode::Divide),
            11 => Some(OpCode::Not),
            12 => Some(OpCode::Negate),
            13 => Some(OpCode::Return),
            _ => None,
        }
    }
}

/// A compiled expression: the instruction bytes, for each byte the source
/// line it came from, and the constants the instructions refer to.
pub struct Chunk {
    pub code: Vec<u8>,
    pub lines: Vec<usize>,
    pub constants: Vec<Value>,
}

impl Chunk {
    /// Every byte has its line.
    pub open spec fn wf(&self) -> bool {
        self.code@.len() == self.lines@.len()
    }

    /// An empty chunk.
    pub fn new() -> (r: Self)
        ensures
            r.wf(),
            r.code@.len() == 0,
            r.lines@.len() == 0,
            r.constants@.len() == 0,
    {
        Chunk { code: Vec::new(), lines: Vec::new(), constants: Vec::new() }
    }

    /// Appends one byte and the line it belongs to.
    pub fn write_chunk(&mut self, byte: u8, line: usize)
        ensures
            final(self).code@ == old(self).code@.push(byte),
            final(self).lines@ == old(self).lines@.push(line),
            final(self).constants@ == old(self).constants@,
            old(self).wf() ==> final(self).wf(),
    {
        self.code.push(byte);
        self.lines.push(line);
    }

    /// The number of bytes.
    pub fn len(&self) -> (r: usize)
        ensures
            r == self.code@.len(),
    {
        self.code.len()
    }

    /// Appends a constant and returns its index.
    pub fn add_constant(&mut self, value: Value) -> (r: usize)
        ensures
            final(self).constants@ == old(self).constants@.push(value),
            final(self).code@ == old(self).code@,
            final(self).lines@ == old(self).lines@,
            r == old(self).constants@.len(),
    {
        self.constants.push(value);
        self.constants.len() - 1
    }

    /// Empties the chunk: bytes, lines and constants.
    pub fn clear(&mut self)
        ensures
            final(self).code@.len() == 0,
            final(self).lines@.len() == 0,
            final(self).constants@.len() == 0,
            final(self).wf(),
    {
        self.code.clear();
        self.lines.clear();
        self.constants.clear();
    }

    /// The byte at `index`.
    pub fn index(&self, index: usize) -> (r: u8)
        requires
            index < self.code@.len(),
        ensures
            r == self.code@[index as int],
    {
        self.code[index]
    }
}

/// Decoding undoes encoding, and a byte that decodes encodes to itself.
pub proof fn lemma_opcode_round_trip(op: OpCode, byte: u8)
    ensures
        OpCode::decode(op.byte()) == Some(op),
        OpCode::decode(byte) is Some ==> OpCode::decode(byte).unwrap().byte() == byte,
        OpCode::decode(byte) is Some <==> byte <= 13,
{
}

} // verus!
