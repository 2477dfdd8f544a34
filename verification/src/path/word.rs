//! Components of packed path drawing instructions.

use vstd::prelude::*;

verus! {

/// Component of a packed path drawing instruction.
///
/// The packed instruction encoding consists of a sequence of words.
/// A word is either an opcode or an operand,
/// depending on where it appears in the sequence.
/// Each instruction begins with an opcode followed by a number of operands.
/// How many operands the instruction takes depends on the opcode.
/// The [`Instruction`] type has methods for
/// encoding and decoding packed instructions.
///
/// An operand is an opaque 64-bit payload; the layer that produces and
/// consumes paths decides what it means, typically the bit pattern of
/// a binary64 coordinate.
///
/// [`Instruction`]: `crate::path::instruction::Instruction`
#[derive(Clone, Copy, Debug, PartialEq, Eq, Structural)]
pub enum Word {
    /// What kind of instruction is encoded.
    Opcode(Opcode),
    /// An operand to an instruction.
    Operand(u64),
}

/// What kind of path drawing instruction
/// is encoded in a packed encoding.
#[derive(Clone, Copy, Debug, PartialEq, Eq, Structural)]
pub enum Opcode {
    /// The opcode begins a move instruction.
    ///
    /// Followed by two operands, an x and a y coordinate.
    Move,
    /// The opcode begins a linear instruction.
    ///
    /// Followed by two operands, the coordinates of one point.
    Linear,
    /// The opcode begins a quadratic instruction.
    ///
    /// Followed by four operands, the coordinates of two points.
    Quadratic,
    /// The opcode begins a cubic instruction.
    ///
    /// Followed by six operands, the coordinates of three points.
    Cubic,
}

/// How many operand words follow the given opcode.
pub open spec fn operand_count(opcode: Opcode) -> int {
    match opcode {
        Opcode::Move => 2,
        Opcode::Linear => 2,
        Opcode::Quadratic => 4,
        Opcode::Cubic => 6,
    }
}

} // verus!
