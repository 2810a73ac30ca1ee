//! The instruction set of the parsing machine, and the container of a
//! program's instructions.

use crate::charset::NormalSet;
use vstd::prelude::*;

verus! {

/// Instruction pointer: the offset of the next instruction to run, or the
/// failure state, from which no instruction runs.
pub enum IP {
    /// Failure state.
    Failed,
    /// Offset of the next instruction in the program.
    Index(usize),
}

/// The instructions of the machine.
pub enum Instr {
    /// Consumes that many bytes of the subject; fails only where fewer remain.
    Any(usize),
    /// Pops a backtrack entry, restores the cursor and jumps to the offset.
    BackCommit(usize),
    /// Pushes the offset after this instruction as return address and jumps
    /// to the offset given.
    Call(usize),
    /// Consumes one byte if it equals the byte given; fails otherwise.
    Char(u8),
    /// Pushes a backtrack entry that holds the offset and the cursor.
    Choice(usize),
    /// Pops the top backtrack entry, discards it and jumps to the offset.
    Commit(usize),
    /// Ends matching and accepts the subject.
    End,
    /// Ends matching and rejects the subject.
    EndFail,
    /// Puts the machine in the failure state.
    Fail,
    /// Pops one backtrack entry, then puts the machine in the failure state.
    FailTwice,
    /// Jumps to the offset.
    Jump(usize),
    /// Marks a place in the code with an identifier. Does nothing when run
    /// and is not counted as an instruction.
    Label(usize),
    /// Does nothing and is not counted as an instruction.
    Nop,
    /// Updates the cursor of the top backtrack entry and jumps to the offset,
    /// without popping the entry.
    PartialCommit(usize),
    /// Pops a return address and jumps to it.
    Return,
    /// Consumes one byte if it is a member of the set; fails otherwise.
    InSet(NormalSet),
    /// Consumes the leading bytes that are members of the set, however many.
    /// Never fails.
    Span(NormalSet),
    /// If at least that many bytes remain, pushes a backtrack entry and
    /// advances; else jumps to the offset.
    TestAny(usize, usize),
    /// If the current byte equals the byte given, pushes a backtrack entry
    /// and advances; else jumps to the offset.
    TestChar(u8, usize),
    /// As `TestChar`, without pushing a backtrack entry.
    TestCharNoChoice(u8, usize),
    /// If the current byte is a member of the set, pushes a backtrack entry
    /// and advances; else jumps to the offset.
    TestSet(NormalSet, usize),
    /// As `TestSet`, without pushing a backtrack entry.
    TestSetNoChoice(NormalSet, usize),
}

impl Instr {
    /// Tells whether the instruction is one of the two that only mark or
    /// fill a place: `Label` and `Nop`.
    pub open spec fn is_pseudo(self) -> bool {
        match self {
            Instr::Label(_) => true,
            Instr::Nop => true,
            _ => false,
        }
    }
}

/// The instructions of `code` that the machine runs, in their order: all but
/// `Label` and `Nop`.
pub open spec fn executable(code: Seq<Instr>) -> Seq<Instr> {
    code.filter(|i: Instr| !i.is_pseudo())
}

/// The `Label` and `Nop` entries of `code`, in their order.
pub open spec fn pseudo(code: Seq<Instr>) -> Seq<Instr> {
    code.filter(|i: Instr| i.is_pseudo())
}

/// The instructions of a program in address order: the index of an entry is
/// the offset by which jumps name it.
pub struct Program(pub Vec<Instr>);

impl View for Program {
    type V = Seq<Instr>;

    open spec fn view(&self) -> Seq<Instr> {
        self.0@
    }
}

impl Default for Program {
    fn default() -> (p: Self)
        ensures
            p@ == Seq::<Instr>::empty(),
    {
        Program::new()
    }
}

impl Program {
    /// A program without instructions.
    pub fn new() -> (p: Self)
        ensures
            p@ == Seq::<Instr>::empty(),
    {
        Program(Vec::new())
    }

    /// The number of instructions that the machine runs: every entry but the
    /// `Label` and `Nop` ones.
    pub fn size(&self) -> (n: usize)
        ensures
            n == executable(self@).len(),
            n + pseudo(self@).len() == self@.len(),
    {
        let mut n: usize = 0;
        let mut i: usize = 0;
        proof {
            reveal(Seq::filter);
            assert(self@.take(0) =~= Seq::<Instr>::empty());
        }
        while i < self.0.len()
            invariant
                i <= self.0.len(),
                n == executable(self@.take(i as int)).len(),
                n + pseudo(self@.take(i as int)).len() == i,
            decreases self.0.len() - i,
        {
            proof {
                reveal(Seq::filter);
                assert(self@.take(i + 1).drop_last() =~= self@.take(i as int));
                assert(self@.take(i + 1).last() == self@[i as int]);
            }
            match &self.0[i] {
                Instr::Label(_) => {},
                Instr::Nop => {},
                _ => {
                    n += 1;
                },
            }
            i += 1;
        }
        proof {
            assert(self@.take(self@.len() as int) =~= self@);
        }
        n
    }
}

/// Every entry of a program is either run or a `Label` or `Nop`: the entries
/// that are run and the others add up to the length, whatever their order.
pub proof fn lemma_entries_split(code: Seq<Instr>)
    ensures
        executable(code).len() + pseudo(code).len() == code.len(),
    decreases code.len(),
{
    reveal(Seq::filter);
    if code.len() > 0 {
        lemma_entries_split(code.drop_last());
    }
}

/// One more entry at the end of a program adds one to its size, unless the
/// entry is a `Label` or a `Nop`, which leaves the size as it was.
pub proof fn lemma_size_push(code: Seq<Instr>, entry: Instr)
    ensures
        executable(code.push(entry)).len() == executable(code).len() + if entry.is_pseudo() {
            0int
        } else {
            1int
        },
{
    reveal(Seq::filter);
    assert(code.push(entry).drop_last() =~= code);
}

/// The size of two pieces of code put one after the other is the sum of
/// their sizes.
pub proof fn lemma_size_concat(front: Seq<Instr>, back: Seq<Instr>)
    ensures
        executable(front + back).len() == executable(front).len() + executable(back).len(),
{
    Seq::filter_distributes_over_add(front, back, |i: Instr| !i.is_pseudo());
}

/// Code that holds no `Label` and no `Nop` has its length as its size, and
/// code that holds nothing else has size zero.
pub proof fn lemma_size_uniform(code: Seq<Instr>)
    ensures
        (forall|k: int| 0 <= k < code.len() ==> !(#[trigger] code[k]).is_pseudo())
            ==> executable(code).len() == code.len(),
        (forall|k: int| 0 <= k < code.len() ==> (#[trigger] code[k]).is_pseudo()) ==> executable(
            code,
        ).len() == 0,
    decreases code.len(),
{
    reveal(Seq::filter);
    if code.len() > 0 {
        let init = code.drop_last();
        lemma_size_uniform(init);
        assert(forall|k: int| 0 <= k < init.len() ==> init[k] == code[k]);
    }
}

} // verus!
