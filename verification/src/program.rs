//! The state of a running program and the interpreter's step.

use vstd::prelude::*;

use crate::instruction::commands::with_cell;
use crate::instruction::optimisation::{first_zero_from, last_zero_upto};
use crate::instruction::parse::{
    balanced, compiled, from_tokens, jump_matched_at, jumps_matched,
    lemma_compiled_jumps_matched,
};
use crate::instruction::{Effect, Instruction, InstructionSet, MemoryFault};
use crate::tokeniser::Token;

verus! {

/// The number of memory cells a program starts with.
pub const MEMORY_SIZE: usize = 1048576;

/// The interpreter's state as plain values: the data pointer, the index
/// of the next instruction and the memory cells.
pub struct MachineState {
    pub pointer: usize,
    pub counter: usize,
    pub memory: Seq<u8>,
}

/// A program ready to run: its instructions and the interpreter's state.
pub struct Program {
    pub pointer: usize,
    pub counter: usize,
    pub memory: Vec<u8>,
    pub instructions: Vec<InstructionSet>,
}

impl View for Program {
    type V = MachineState;

    open spec fn view(&self) -> MachineState {
        MachineState { pointer: self.pointer, counter: self.counter, memory: self.memory@ }
    }
}

/// What holds of every state of a running program: the data pointer lies
/// in the memory, the next instruction's index is at most the number of
/// instructions (where the program ends), and the jumps are matched.
pub open spec fn state_ok(instructions: Seq<InstructionSet>, s: MachineState) -> bool {
    &&& s.pointer < s.memory.len()
    &&& s.counter <= instructions.len()
    &&& instructions.len() <= usize::MAX
    &&& jumps_matched(instructions)
}

/// The nearest zero cell at or after `p` lies there or after it, and
/// every cell between them is not zero.
pub proof fn lemma_first_zero_from(m: Seq<u8>, p: int)
    requires
        0 <= p,
    ensures
        first_zero_from(m, p) matches Some(q) ==> p <= q < m.len() && m[q] == 0 && forall|k: int|
            p <= k < q ==> m[k] != 0,
        first_zero_from(m, p) is None ==> forall|k: int| p <= k < m.len() ==> m[k] != 0,
    decreases m.len() - p,
{
    if p < m.len() && m[p] != 0 {
        lemma_first_zero_from(m, p + 1);
    }
}

/// The nearest zero cell at or before `p` lies there or before it, and
/// every cell between them is not zero.
pub proof fn lemma_last_zero_upto(m: Seq<u8>, p: int)
    requires
        p < m.len(),
    ensures
        last_zero_upto(m, p) matches Some(q) ==> 0 <= q <= p && m[q] == 0 && forall|k: int|
            q < k <= p ==> m[k] != 0,
        last_zero_upto(m, p) is None ==> forall|k: int| 0 <= k <= p ==> m[k] != 0,
    decreases p + 1,
{
    if p >= 0 && m[p] != 0 {
        lemma_last_zero_upto(m, p - 1);
    }
}

/// Executing the next instruction of a running program, when it raises no
/// fault, gives again the state of a running program, with as many memory
/// cells as before.
pub proof fn lemma_step_keeps_state_ok(instructions: Seq<InstructionSet>, s: MachineState)
    requires
        state_ok(instructions, s),
        s.counter < instructions.len(),
        instructions[s.counter as int].result_in(s) is Ok,
    ensures
        state_ok(instructions, instructions[s.counter as int].state_after(s)),
        instructions[s.counter as int].state_after(s).memory.len() == s.memory.len(),
{
    assert(jump_matched_at(instructions, s.counter as int));
    lemma_first_zero_from(s.memory, s.pointer as int);
    lemma_last_zero_upto(s.memory, s.pointer as int);
}

impl Program {
    /// The program's state is that of a running program.
    pub open spec fn well_formed(&self) -> bool {
        state_ok(self.instructions@, self@)
    }

    /// Compiles balanced tokens into a program whose memory is
    /// `MEMORY_SIZE` zero cells, with the data pointer on the first cell
    /// and the first instruction next.
    pub fn new(tokens: Vec<Token>) -> (r: Self)
        requires
            balanced(tokens@),
        ensures
            r.instructions@ == compiled(tokens@),
            r.pointer == 0,
            r.counter == 0,
            r.memory@ == Seq::new(MEMORY_SIZE as nat, |i: int| 0u8),
            r.well_formed(),
    {
        let count = tokens.len();
        proof {
            assert(tokens@.len() == count);
            lemma_compiled_jumps_matched(tokens@);
        }
        let memory = vec![0u8; MEMORY_SIZE];
        assert(memory@ =~= Seq::new(MEMORY_SIZE as nat, |i: int| 0u8));
        let instructions = from_tokens(tokens);
        let r = Self { counter: 0, memory, pointer: 0, instructions };
        assert(r.instructions@.len() == r.instructions.len());
        r
    }

    /// The fault that executing the next instruction would raise, if any.
    pub fn next_fault(&self) -> (r: Option<MemoryFault>)
        requires
            self.well_formed(),
            self.counter < self.instructions.len(),
        ensures
            r is None <==> self.instructions@[self.counter as int].result_in(self@) is Ok,
            r matches Some(e) ==> self.instructions@[self.counter as int].result_in(self@)
                == Err::<Effect, MemoryFault>(e),
    {
        proof {
            assert(jump_matched_at(self.instructions@, self.counter as int));
        }
        self.instructions[self.counter].fault(self)
    }

    /// Executes the next instruction, which raises no fault; the program
    /// stays well formed.
    pub fn step(&mut self) -> (r: Effect)
        requires
            old(self).well_formed(),
            old(self).counter < old(self).instructions.len(),
            old(self).instructions@[old(self).counter as int].result_in(old(self)@) is Ok,
        ensures
            old(self).instructions@[old(self).counter as int].result_in(old(self)@) == Ok::<
                Effect,
                MemoryFault,
            >(r),
            final(self)@ == old(self).instructions@[old(self).counter as int].state_after(
                old(self)@,
            ),
            final(self).instructions == old(self).instructions,
            final(self).well_formed(),
    {
        let instruction = self.instructions[self.counter].clone();
        proof {
            assert(jump_matched_at(self.instructions@, self.counter as int));
            lemma_step_keeps_state_ok(old(self).instructions@, old(self)@);
        }
        instruction.execute(self)
    }

    /// Stores a byte of input in the current cell.
    pub fn store_input(&mut self, byte: u8)
        requires
            old(self).well_formed(),
        ensures
            final(self)@ == with_cell(old(self)@, byte),
            final(self).instructions == old(self).instructions,
            final(self).well_formed(),
    {
        self.memory.set(self.pointer, byte);
    }
}

} // verus!
