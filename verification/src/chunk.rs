//! The bytecode container.
//!
//! A chunk owns an ordered stream of bytecode units, a parallel source-line
//! table (one entry per unit), and an append-only, non-deduplicated constant
//! pool of at most 256 values (indexed by one byte). A unit is either a bare
//! opcode, a constant-pool index (standing immediately after a `Constant`
//! opcode), or a jump distance (reserved for future jump opcodes; the
//! current compiler never emits one).

use vstd::prelude::*;

use crate::value::Value;

verus! {

/// The opcode set. `Not`, `Negative`, `Noop`, `Pop` and `Return` are defined
/// in the opcode space as extension points; no current compiler path emits
/// them.
#[derive(Debug, PartialEq, Eq, Clone, Copy, Structural)]
pub enum Op {
    Constant,
    True,
    False,
    Add,
    Subtract,
    Multiply,
    Divide,
    IntDivide,
    Exponent,
    ValueEqual,
    NotValueEqual,
    Greater,
    GreaterEqual,
    Less,
    LessEqual,
    Not,
    Negative,
    Noop,
    Pop,
    Return,
    Assert,
}

/// One unit of the instruction stream.
#[derive(Debug, Clone, Copy, PartialEq, Eq, Structural)]
pub enum BytecodeOp {
    Op(Op),
    ConstantIndex(u8),
    JumpDistance(u8),
}

/// The compiled-code container: instruction stream, line table, constant
/// pool.
#[derive(Debug)]
pub struct Chunk {
    pub codes: Vec<BytecodeOp>,
    pub lines: Vec<u16>,
    pub constants: Vec<Value>,
}

/// The number of constant-pool entries a chunk may hold: its indices must
/// fit in one byte.
pub const MAX_CONSTANTS: usize = 256;

impl Chunk {
    /// A well-formed chunk: the line table parallels the instruction stream,
    /// the pool is within its bound, every constant-index unit stands right
    /// after a `Constant` opcode and points into the pool, and every
    /// `Constant` opcode is followed by its index unit.
    pub open spec fn wf(self) -> bool {
        &&& self.codes@.len() == self.lines@.len()
        &&& self.constants@.len() <= MAX_CONSTANTS
        &&& forall|k: int|
            0 <= k < self.codes@.len() ==> (#[trigger] self.codes@[k] matches
                BytecodeOp::ConstantIndex(x) ==> k > 0 && self.codes@[k - 1] == BytecodeOp::Op(
                Op::Constant,
            ) && (x as int) < self.constants@.len())
        &&& forall|k: int|
            0 <= k < self.codes@.len() ==> (#[trigger] self.codes@[k] == BytecodeOp::Op(
                Op::Constant,
            ) ==> k + 1 < self.codes@.len() && self.codes@[k + 1] matches
                BytecodeOp::ConstantIndex(_))
    }

    /// An empty chunk.
    pub fn new() -> (r: Chunk)
        ensures
            r.codes@.len() == 0,
            r.lines@.len() == 0,
            r.constants@.len() == 0,
            r.wf(),
    {
        Chunk { codes: Vec::new(), lines: Vec::new(), constants: Vec::new() }
    }

    /// Appends a value to the constant pool, returning its index, or `None`
    /// when the pool is full.
    pub fn add_constant(&mut self, v: Value) -> (r: Option<u8>)
        ensures
            match r {
                Some(ix) => old(self).constants@.len() < MAX_CONSTANTS && ix as int == old(
                    self,
                ).constants@.len() && final(self).constants@ == old(self).constants@.push(v),
                None => old(self).constants@.len() >= MAX_CONSTANTS && final(self).constants@
                    == old(self).constants@,
            },
            final(self).codes@ == old(self).codes@,
            final(self).lines@ == old(self).lines@,
    {
        if self.constants.len() < MAX_CONSTANTS {
            let ix = self.constants.len();
            self.constants.push(v);
            Some(ix as u8)
        } else {
            None
        }
    }
}

/// Appends one bytecode unit and its source line to the chunk.
pub fn emit_byte(chunk: &mut Chunk, code: BytecodeOp, line: u16)
    ensures
        final(chunk).codes@ == old(chunk).codes@.push(code),
        final(chunk).lines@ == old(chunk).lines@.push(line),
        final(chunk).constants@ == old(chunk).constants@,
{
    chunk.codes.push(code);
    chunk.lines.push(line);
}

} // verus!
