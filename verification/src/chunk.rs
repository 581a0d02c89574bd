//! Bytecode: the instructions, and the chunk that holds a compiled
//! expression.

use crate::value::Value;
use vstd::prelude::*;

verus! {

/// One instruction of the machine.
#[derive(Clone, Copy, Debug, PartialEq, Eq, Structural)]
pub enum Opcode {
    Return,
    Constant(usize),
    Negate,
    Add,
    Subtract,
    Multiply,
    Divide,
}

/// Instructions, the constants they refer to, and for each instruction the
/// source line it came from.
#[derive(Debug)]
pub struct Chunk {
    pub code: Vec<Opcode>,
    pub constants: Vec<Value>,
    pub lines: Vec<u32>,
}

/// Every `Constant` instruction of `code` names a slot of a pool of
/// `slots` constants.
pub open spec fn constants_in_range(code: Seq<Opcode>, slots: nat) -> bool {
    forall|i: int|
        0 <= i < code.len() ==> match #[trigger] code[i] {
            Opcode::Constant(index) => index < slots,
            _ => true,
        }
}

impl Chunk {
    /// There is one line for each instruction, and every `Constant`
    /// instruction names a slot of the pool.
    pub open spec fn well_formed(&self) -> bool {
        &&& self.code@.len() == self.lines@.len()
        &&& constants_in_range(self.code@, self.constants@.len())
    }

    /// An empty chunk.
    pub fn new() -> (chunk: Chunk)
        ensures
            chunk.code@ == Seq::<Opcode>::empty(),
            chunk.constants@ == Seq::<Value>::empty(),
            chunk.lines@ == Seq::<u32>::empty(),
            chunk.well_formed(),
    {
        Chunk { code: Vec::new(), constants: Vec::new(), lines: Vec::new() }
    }

    /// Appends one instruction and the line it came from.
    pub fn write_code(&mut self, code: Opcode, line: u32)
        ensures
            final(self).code@ == old(self).code@.push(code),
            final(self).lines@ == old(self).lines@.push(line),
            final(self).constants@ == old(self).constants@,
            old(self).well_formed() && constants_in_range(seq![code], old(self).constants@.len())
                ==> final(self).well_formed(),
    {
        self.code.push(code);
        self.lines.push(line);
        proof {
            assert(seq![code][0] == code);
        }
    }

    /// Appends a constant to the pool, and the instruction that pushes it.
    pub fn write_constant(&mut self, constant: Value, line: u32)
        ensures
            final(self).code@ == old(self).code@.push(
                Opcode::Constant(old(self).constants@.len() as usize),
            ),
            final(self).lines@ == old(self).lines@.push(line),
            final(self).constants@ == old(self).constants@.push(constant),
            old(self).well_formed() ==> final(self).well_formed(),
    {
        let index: usize = self.constants.len();
        self.write_code(Opcode::Constant(index), line);
        self.constants.push(constant);
    }

    /// Whether the chunk is well formed.
    pub fn is_well_formed(&self) -> (r: bool)
        ensures
            r == self.well_formed(),
    {
        if self.code.len() != self.lines.len() {
            return false;
        }
        let slots: usize = self.constants.len();
        let mut i: usize = 0;
        while i < self.code.len()
            invariant
                i <= self.code@.len(),
                slots == self.constants@.len(),
                constants_in_range(self.code@.take(i as int), slots as nat),
            decreases self.code@.len() - i,
        {
            if let Opcode::Constant(index) = self.code[i] {
                if index >= slots {
                    return false;
                }
            }
            i += 1;
        }
        proof {
            assert(self.code@.take(i as int) == self.code@);
        }
        true
    }
}

impl Default for Chunk {
    fn default() -> (chunk: Chunk)
        ensures
            chunk.code@ == Seq::<Opcode>::empty(),
            chunk.constants@ == Seq::<Value>::empty(),
            chunk.lines@ == Seq::<u32>::empty(),
    {
        Chunk::new()
    }
}

} // verus!
