//! Transient representation of path drawing instructions.

use vstd::prelude::*;

use crate::path::word::operand_count;
use crate::path::word::Opcode;
use crate::path::word::Word;

verus! {

/// General-purpose two-element vector.
///
/// Vectors are used for specifying points in two dimensions.
/// Each element carries one 64-bit operand payload;
/// the layer that produces and consumes paths decides what a payload
/// means, typically the bit pattern of a binary64 coordinate.
/// The packed path encoding moves payloads around without
/// interpreting them.
#[derive(Clone, Copy, Debug, PartialEq, Eq, Structural)]
pub struct Vector {
    /// The payload of the x coordinate.
    pub x: u64,
    /// The payload of the y coordinate.
    pub y: u64,
}

/// Transient representation of a path drawing instruction.
///
/// Instructions tell a drawing system how to draw a path.
/// The drawing system follows the instructions in order,
/// constructing a path from the curves that make it up.
/// Instructions do not store the starting point of each curve,
/// as the curves are usually connected end-on-end.
/// The [`Instruction::Move`] variant may be used to disconnect curves.
///
/// To store a sequence of instructions, use [`PathBuf`].
/// [`PathBuf`] stores the instructions in an efficient packed encoding.
///
/// [`PathBuf`]: `crate::path::buf::PathBuf`
#[derive(Clone, Copy, Debug, PartialEq, Eq, Structural)]
pub enum Instruction {
    /// Set the start point of the next curve to the given point.
    Move(Vector),
    /// Draw a first-order curve to the given point.
    Linear(Vector),
    /// Draw a second-order curve with the given two points.
    Quadratic(Vector, Vector),
    /// Draw a third-order curve with the given three points.
    Cubic(Vector, Vector, Vector),
}

/// The packed encoding of one instruction: its opcode word followed by
/// its operand words, coordinates in x-before-y order, points in the
/// order in which they appear in the instruction.
pub open spec fn spec_encode(instruction: Instruction) -> Seq<Word> {
    match instruction {
        Instruction::Move(to) => seq![
            Word::Opcode(Opcode::Move),
            Word::Operand(to.x),
            Word::Operand(to.y),
        ],
        Instruction::Linear(p1) => seq![
            Word::Opcode(Opcode::Linear),
            Word::Operand(p1.x),
            Word::Operand(p1.y),
        ],
        Instruction::Quadratic(p1, p2) => seq![
            Word::Opcode(Opcode::Quadratic),
            Word::Operand(p1.x),
            Word::Operand(p1.y),
            Word::Operand(p2.x),
            Word::Operand(p2.y),
        ],
        Instruction::Cubic(p1, p2, p3) => seq![
            Word::Opcode(Opcode::Cubic),
            Word::Operand(p1.x),
            Word::Operand(p1.y),
            Word::Operand(p2.x),
            Word::Operand(p2.y),
            Word::Operand(p3.x),
            Word::Operand(p3.y),
        ],
    }
}

/// Whether `words` carries operand words at positions 1 through `n`.
pub open spec fn operands_present(words: Seq<Word>, n: int) -> bool {
    &&& words.len() >= n + 1
    &&& forall|k: int| 1 <= k <= n ==> (#[trigger] words[k]) is Operand
}

/// The payload of the operand word at position `k`.
pub open spec fn operand_at(words: Seq<Word>, k: int) -> u64 {
    words[k]->Operand_0
}

/// The instruction built from an opcode and the operand payloads that
/// follow it.
pub open spec fn spec_build(opcode: Opcode, words: Seq<Word>) -> Instruction {
    match opcode {
        Opcode::Move => Instruction::Move(
            Vector { x: operand_at(words, 1), y: operand_at(words, 2) },
        ),
        Opcode::Linear => Instruction::Linear(
            Vector { x: operand_at(words, 1), y: operand_at(words, 2) },
        ),
        Opcode::Quadratic => Instruction::Quadratic(
            Vector { x: operand_at(words, 1), y: operand_at(words, 2) },
            Vector { x: operand_at(words, 3), y: operand_at(words, 4) },
        ),
        Opcode::Cubic => Instruction::Cubic(
            Vector { x: operand_at(words, 1), y: operand_at(words, 2) },
            Vector { x: operand_at(words, 3), y: operand_at(words, 4) },
            Vector { x: operand_at(words, 5), y: operand_at(words, 6) },
        ),
    }
}

/// The first instruction of a packed sequence, with the number of
/// words it occupies, or nothing when the sequence does not begin
/// with a valid packed instruction.
pub open spec fn spec_decode_one(words: Seq<Word>) -> Option<(Instruction, int)> {
    if words.len() == 0 {
        None
    } else {
        match words[0] {
            Word::Operand(_) => None,
            Word::Opcode(opcode) => {
                let n = operand_count(opcode);
                if operands_present(words, n) {
                    Some((spec_build(opcode, words), n + 1))
                } else {
                    None
                }
            },
        }
    }
}

/// Decoding the encoding of an instruction yields the instruction
/// unchanged and consumes exactly the words written, whatever follows
/// them.
pub proof fn lemma_instruction_roundtrip(instruction: Instruction, rest: Seq<Word>)
    ensures
        spec_decode_one(spec_encode(instruction) + rest) == Some(
            (instruction, spec_encode(instruction).len() as int),
        ),
{
    let enc = spec_encode(instruction);
    let words = enc + rest;
    assert(words[0] == enc[0]);
    match instruction {
        Instruction::Move(to) => {
            assert(operands_present(words, 2));
        },
        Instruction::Linear(p1) => {
            assert(operands_present(words, 2));
        },
        Instruction::Quadratic(p1, p2) => {
            assert(operands_present(words, 4));
        },
        Instruction::Cubic(p1, p2, p3) => {
            assert(operands_present(words, 6));
        },
    }
}

impl Instruction {
    /// Write the packed encoding for the instruction to a buffer.
    ///
    /// The written sequence of words will
    /// always form a valid packed instruction.
    /// See the documentation for [`Word`] for
    /// more information about the packed encoding.
    pub fn to_words(&self, buf: &mut Vec<Word>)
        ensures
            final(buf)@ == old(buf)@ + spec_encode(*self),
    {
        match *self {
            Self::Move(to) => {
                buf.push(Word::Opcode(Opcode::Move));
                buf.push(Word::Operand(to.x));
                buf.push(Word::Operand(to.y));
            },
            Self::Linear(p1) => {
                buf.push(Word::Opcode(Opcode::Linear));
                buf.push(Word::Operand(p1.x));
                buf.push(Word::Operand(p1.y));
            },
            Self::Quadratic(p1, p2) => {
                buf.push(Word::Opcode(Opcode::Quadratic));
                buf.push(Word::Operand(p1.x));
                buf.push(Word::Operand(p1.y));
                buf.push(Word::Operand(p2.x));
                buf.push(Word::Operand(p2.y));
            },
            Self::Cubic(p1, p2, p3) => {
                buf.push(Word::Opcode(Opcode::Cubic));
                buf.push(Word::Operand(p1.x));
                buf.push(Word::Operand(p1.y));
                buf.push(Word::Operand(p2.x));
                buf.push(Word::Operand(p2.y));
                buf.push(Word::Operand(p3.x));
                buf.push(Word::Operand(p3.y));
            },
        }
        proof {
            assert(buf@ =~= old(buf)@ + spec_encode(*self));
        }
    }

    /// Read an instruction from the start of its packed encoding.
    ///
    /// On success, returns the instruction and the number of words it
    /// occupied, so the caller can advance past it.  Returns [`None`]
    /// when the sequence does not begin with a valid packed
    /// instruction: when it is empty, begins with an operand word, or
    /// is truncated before the instruction's operands end.
    pub fn from_words(words: &[Word]) -> (r: Option<(Instruction, usize)>)
        ensures
            r is Some <==> spec_decode_one(words@) is Some,
            r is Some ==> {
                let (instruction, n) = spec_decode_one(words@)->Some_0;
                &&& r->Some_0.0 == instruction
                &&& r->Some_0.1 == n
                &&& 3 <= n <= words@.len()
            },
    {
        if words.len() == 0 {
            return None;
        }
        let opcode = match words[0] {
            Word::Opcode(opcode) => opcode,
            Word::Operand(_) => {
                return None;
            },
        };
        let count = operands_of(opcode);
        if words.len() < count + 1 {
            proof {
                assert(!operands_present(words@, operand_count(opcode)));
            }
            return None;
        }
        let mut k: usize = 1;
        while k <= count
            invariant
                1 <= k <= count + 1,
                count == operand_count(opcode),
                count + 1 <= words@.len(),
                words@[0] == Word::Opcode(opcode),
                forall|j: int| 1 <= j < k ==> (#[trigger] words@[j]) is Operand,
            decreases count + 1 - k,
        {
            match words[k] {
                Word::Operand(_) => {},
                Word::Opcode(_) => {
                    proof {
                        assert(!operands_present(words@, operand_count(opcode)));
                    }
                    return None;
                },
            }
            k = k + 1;
        }
        proof {
            assert(operands_present(words@, operand_count(opcode)));
        }
        let instruction = match opcode {
            Opcode::Move => Instruction::Move(
                Vector { x: read_operand(words, 1), y: read_operand(words, 2) },
            ),
            Opcode::Linear => Instruction::Linear(
                Vector { x: read_operand(words, 1), y: read_operand(words, 2) },
            ),
            Opcode::Quadratic => Instruction::Quadratic(
                Vector { x: read_operand(words, 1), y: read_operand(words, 2) },
                Vector { x: read_operand(words, 3), y: read_operand(words, 4) },
            ),
            Opcode::Cubic => Instruction::Cubic(
                Vector { x: read_operand(words, 1), y: read_operand(words, 2) },
                Vector { x: read_operand(words, 3), y: read_operand(words, 4) },
                Vector { x: read_operand(words, 5), y: read_operand(words, 6) },
            ),
        };
        Some((instruction, count + 1))
    }
}

/// The number of operand words that follow the given opcode.
fn operands_of(opcode: Opcode) -> (r: usize)
    ensures
        r == operand_count(opcode),
{
    match opcode {
        Opcode::Move => 2,
        Opcode::Linear => 2,
        Opcode::Quadratic => 4,
        Opcode::Cubic => 6,
    }
}

/// The operand payload at position `k` of a packed sequence.
fn read_operand(words: &[Word], k: usize) -> (r: u64)
    requires
        k < words@.len(),
        words@[k as int] is Operand,
    ensures
        r == operand_at(words@, k as int),
{
    match words[k] {
        Word::Operand(payload) => payload,
        Word::Opcode(_) => vstd::pervasive::unreached(),
    }
}

} // verus!
