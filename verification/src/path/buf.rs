//! Owned sequences of path drawing instructions.

use vstd::prelude::*;

use crate::path::instruction::spec_decode_one;
use crate::path::instruction::spec_encode;
use crate::path::instruction::Instruction;
use crate::path::instruction::Vector;
use crate::path::word::Word;

verus! {

/// The instructions encoded by a packed word sequence, or nothing
/// when the sequence is not a concatenation of valid packed
/// instructions.
pub open spec fn spec_decode_all(words: Seq<Word>) -> Option<Seq<Instruction>>
    decreases words.len(),
{
    if words.len() == 0 {
        Some(Seq::empty())
    } else {
        match spec_decode_one(words) {
            None => None,
            Some((instruction, n)) => {
                if 1 <= n <= words.len() {
                    match spec_decode_all(words.skip(n)) {
                        None => None,
                        Some(rest) => Some(seq![instruction] + rest),
                    }
                } else {
                    None
                }
            },
        }
    }
}

/// A valid packed prefix decodes the same before and after more words
/// are appended.
proof fn lemma_decode_one_extend(words: Seq<Word>, ext: Seq<Word>)
    requires
        spec_decode_one(words) is Some,
    ensures
        spec_decode_one(words + ext) == spec_decode_one(words),
{
    let (instruction, n) = spec_decode_one(words)->Some_0;
    assert((words + ext)[0] == words[0]);
    assert forall|k: int| 1 <= k < n implies (#[trigger] (words + ext)[k]) is Operand by {
        assert((words + ext)[k] == words[k]);
    }
}

/// Appending the encoding of one instruction to a valid packed
/// sequence appends that instruction to what the sequence decodes to.
pub proof fn lemma_decode_all_append(words: Seq<Word>, instruction: Instruction)
    requires
        spec_decode_all(words) is Some,
    ensures
        spec_decode_all(words + spec_encode(instruction)) == Some(
            spec_decode_all(words)->Some_0.push(instruction),
        ),
    decreases words.len(),
{
    let enc = spec_encode(instruction);
    if words.len() == 0 {
        assert(words + enc =~= enc);
        crate::path::instruction::lemma_instruction_roundtrip(instruction, Seq::empty());
        assert(enc + Seq::<Word>::empty() =~= enc);
        assert(spec_decode_one(enc) == Some((instruction, enc.len() as int)));
        assert(enc.skip(enc.len() as int) =~= Seq::<Word>::empty());
        assert(spec_decode_all(Seq::<Word>::empty()) == Some(Seq::<Instruction>::empty()));
        assert(spec_decode_all(enc) == Some(seq![instruction] + Seq::<Instruction>::empty()));
        assert(seq![instruction] + Seq::<Instruction>::empty() =~= Seq::<
            Instruction,
        >::empty().push(instruction));
    } else {
        let (head, n) = spec_decode_one(words)->Some_0;
        lemma_decode_one_extend(words, enc);
        assert(spec_decode_one(words + enc) == Some((head, n)));
        assert((words + enc).skip(n) =~= words.skip(n) + enc);
        lemma_decode_all_append(words.skip(n), instruction);
        let rest = spec_decode_all(words.skip(n))->Some_0;
        assert(spec_decode_all(words + enc) == Some(seq![head] + rest.push(instruction)));
        assert(seq![head] + rest.push(instruction) =~= (seq![head] + rest).push(instruction));
    }
}

/// An error distinguishing a packed word sequence that is not a
/// concatenation of valid packed instructions.
#[derive(Clone, Copy, Debug, PartialEq, Eq, Structural)]
pub struct MalformedEncoding;

/// Owned sequence of path drawing instructions.
///
/// The [`Instruction`] type is an enum with variants of different sizes.
/// The smaller variants therefore waste space on padding.
/// [`PathBuf`] stores the instructions as a vector of [`Word`]s,
/// making this type more compact than a vector of instructions.
///
/// Every [`PathBuf`] holds a valid concatenation of packed
/// instructions: the constructors establish it and pushing preserves
/// it, so decoding never meets a malformed sequence.
pub struct PathBuf {
    words: Vec<Word>,
}

impl View for PathBuf {
    type V = Seq<Instruction>;

    closed spec fn view(&self) -> Seq<Instruction> {
        spec_decode_all(self.words@)->Some_0
    }
}

impl PathBuf {
    /// The packed words of the path.
    pub closed spec fn spec_words(&self) -> Seq<Word> {
        self.words@
    }

    /// Well-formedness: the words are a concatenation of valid packed
    /// instructions.
    pub open spec fn wf(&self) -> bool {
        spec_decode_all(self.spec_words()) is Some
    }

    /// Empty path with no path drawing instructions.
    pub fn new() -> (r: Self)
        ensures
            r.wf(),
            r@ == Seq::<Instruction>::empty(),
            r.spec_words() == Seq::<Word>::empty(),
    {
        Self { words: Vec::new() }
    }

    /// Append an instruction to the path.
    pub fn push(&mut self, instruction: Instruction)
        requires
            old(self).wf(),
        ensures
            final(self).wf(),
            final(self)@ == old(self)@.push(instruction),
            final(self).spec_words() == old(self).spec_words() + spec_encode(instruction),
    {
        proof {
            lemma_decode_all_append(self.words@, instruction);
        }
        instruction.to_words(&mut self.words);
    }

    /// Append a move instruction to the path.
    pub fn push_move(&mut self, to: Vector)
        requires
            old(self).wf(),
        ensures
            final(self).wf(),
            final(self)@ == old(self)@.push(Instruction::Move(to)),
    {
        self.push(Instruction::Move(to));
    }

    /// Append a linear instruction to the path.
    pub fn push_linear(&mut self, p1: Vector)
        requires
            old(self).wf(),
        ensures
            final(self).wf(),
            final(self)@ == old(self)@.push(Instruction::Linear(p1)),
    {
        self.push(Instruction::Linear(p1));
    }

    /// Append a quadratic instruction to the path.
    pub fn push_quadratic(&mut self, p1: Vector, p2: Vector)
        requires
            old(self).wf(),
        ensures
            final(self).wf(),
            final(self)@ == old(self)@.push(Instruction::Quadratic(p1, p2)),
    {
        self.push(Instruction::Quadratic(p1, p2));
    }

    /// Append a cubic instruction to the path.
    pub fn push_cubic(&mut self, p1: Vector, p2: Vector, p3: Vector)
        requires
            old(self).wf(),
        ensures
            final(self).wf(),
            final(self)@ == old(self)@.push(Instruction::Cubic(p1, p2, p3)),
    {
        self.push(Instruction::Cubic(p1, p2, p3));
    }

    /// The instructions in the path, decoded in order.
    pub fn instructions(&self) -> (r: Vec<Instruction>)
        requires
            self.wf(),
        ensures
            r@ == self@,
    {
        let mut decoded: Vec<Instruction> = Vec::new();
        let mut pos: usize = 0;
        proof {
            assert(self.words@.skip(0) =~= self.words@);
            assert(decoded@ + spec_decode_all(self.words@)->Some_0 =~= spec_decode_all(
                self.words@,
            )->Some_0);
        }
        while pos < self.words.len()
            invariant
                self.wf(),
                pos <= self.words@.len(),
                spec_decode_all(self.words@.skip(pos as int)) is Some,
                self@ =~= decoded@ + spec_decode_all(self.words@.skip(pos as int))->Some_0,
            decreases self.words@.len() - pos,
        {
            let ghost remaining = self.words@.skip(pos as int);
            let rest = vstd::slice::slice_subrange(self.words.as_slice(), pos, self.words.len());
            match Instruction::from_words(rest) {
                Some((instruction, n)) => {
                    proof {
                        let (ghost_i, ghost_n) = spec_decode_one(remaining)->Some_0;
                        assert(remaining.skip(ghost_n) =~= self.words@.skip(pos + ghost_n));
                        assert(spec_decode_all(remaining) == Some(
                            seq![ghost_i] + spec_decode_all(remaining.skip(ghost_n))->Some_0,
                        ));
                        assert(decoded@.push(ghost_i) + spec_decode_all(
                            self.words@.skip(pos + ghost_n),
                        )->Some_0 =~= decoded@ + spec_decode_all(remaining)->Some_0);
                    }
                    decoded.push(instruction);
                    pos = pos + n;
                },
                None => {
                    // A well-formed path never decodes to nothing.
                    proof {
                        assert(remaining.len() != 0);
                        assert(spec_decode_one(remaining) is Some);
                    }
                    return vstd::pervasive::unreached();
                },
            }
        }
        proof {
            assert(self.words@.skip(self.words@.len() as int) =~= Seq::<Word>::empty());
            assert(decoded@ + Seq::<Instruction>::empty() =~= decoded@);
        }
        decoded
    }

    /// Create a path from a sequence of packed instructions,
    /// validating it.
    ///
    /// If the given sequence is not a concatenation of valid packed
    /// instructions, this function rejects it with
    /// [`MalformedEncoding`] instead of constructing a path.
    pub fn from_words(words: Vec<Word>) -> (r: Result<Self, MalformedEncoding>)
        ensures
            r is Ok <==> spec_decode_all(words@) is Some,
            r is Ok ==> {
                let path = r->Ok_0;
                &&& path.wf()
                &&& path.spec_words() == words@
                &&& path@ == spec_decode_all(words@)->Some_0
            },
    {
        let mut pos: usize = 0;
        proof {
            assert(words@.skip(0) =~= words@);
        }
        while pos < words.len()
            invariant
                pos <= words@.len(),
                spec_decode_all(words@) is Some <==> spec_decode_all(
                    words@.skip(pos as int),
                ) is Some,
            decreases words@.len() - pos,
        {
            let ghost remaining = words@.skip(pos as int);
            let rest = vstd::slice::slice_subrange(words.as_slice(), pos, words.len());
            match Instruction::from_words(rest) {
                Some((_, n)) => {
                    proof {
                        let (ghost_i, ghost_n) = spec_decode_one(remaining)->Some_0;
                        assert(remaining.skip(ghost_n) =~= words@.skip(pos + ghost_n));
                    }
                    pos = pos + n;
                },
                None => {
                    proof {
                        assert(remaining.len() != 0);
                        assert(spec_decode_all(remaining) is None);
                    }
                    return Err(MalformedEncoding);
                },
            }
        }
        proof {
            assert(words@.skip(words@.len() as int) =~= Seq::<Word>::empty());
        }
        Ok(Self { words })
    }

    /// The packed encoding for the sequence of instructions.
    ///
    /// See the documentation for [`Word`] for
    /// more information about the packed encoding.
    pub fn words(&self) -> (r: &[Word])
        ensures
            r@ == self.spec_words(),
    {
        self.words.as_slice()
    }

    /// The packed encoding for the sequence of instructions.
    ///
    /// See the documentation for [`Word`] for
    /// more information about the packed encoding.
    pub fn into_words(self) -> (r: Vec<Word>)
        ensures
            r@ == self.spec_words(),
    {
        self.words
    }
}

} // verus!
