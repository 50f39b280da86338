//! What compressing a run of one command into one instruction keeps: the
//! counting instruction does what as many single commands do.

use vstd::prelude::*;

use crate::instruction::commands::{cell_add, cell_sub, Decrement, Increment, Left, Right};
use crate::instruction::folding::{run, Run};
use crate::instruction::parse::instruction_for;
use crate::instruction::{Instruction, InstructionSet, MemoryFault};
use crate::program::MachineState;
use crate::tokeniser::Token;

verus! {

/// `n` copies of the instruction `i`.
pub open spec fn repeated(i: InstructionSet, n: nat) -> Seq<InstructionSet> {
    Seq::new(n, |k: int| i)
}

/// The state `s` with the data pointer at `pointer` and the next
/// instruction's index at `counter`.
pub open spec fn moved(s: MachineState, pointer: int, counter: int) -> MachineState {
    MachineState { pointer: pointer as usize, counter: counter as usize, ..s }
}

proof fn lemma_repeat_cell(x: InstructionSet, n: nat, s: MachineState, k: nat, up: bool)
    requires
        x == (if up {
            InstructionSet::Increment(Increment { amount: 1 })
        } else {
            InstructionSet::Decrement(Decrement { amount: 1 })
        }),
        k <= n < usize::MAX,
        s.counter == k,
        s.pointer < s.memory.len(),
    ensures
        run(repeated(x, n), s, (n - k) as nat) == Run::Done(
            MachineState {
                counter: n as usize,
                memory: s.memory.update(
                    s.pointer as int,
                    if up {
                        ((s.memory[s.pointer as int] + (n - k)) % 256) as u8
                    } else {
                        ((s.memory[s.pointer as int] - (n - k)) % 256) as u8
                    },
                ),
                ..s
            },
        ),
    decreases n - k,
{
    let p = s.pointer as int;
    let v = s.memory[p];
    let l = repeated(x, n);
    if k == n {
        assert((v + 0) % 256 == v);
        assert((v - 0) % 256 == v);
        assert(s.memory.update(p, v) =~= s.memory);
    } else {
        let next = MachineState {
            counter: (k + 1) as usize,
            memory: s.memory.update(p, if up { cell_add(v, 1) } else { cell_sub(v, 1) }),
            ..s
        };
        assert(l[k as int] == x);
        assert(run(l, s, (n - k) as nat) == run(l, next, (n - k - 1) as nat));
        lemma_repeat_cell(x, n, next, k + 1, up);
        assert((((v + 1) % 256 + (n - k - 1)) % 256) == ((v + (n - k)) % 256)) by (nonlinear_arith)
            requires
                0 <= v < 256,
        ;
        assert((((v - 1 + 256) % 256 - (n - k - 1)) % 256) == ((v - (n - k)) % 256)) by (nonlinear_arith)
            requires
                0 <= v < 256,
        ;
        assert(next.memory.update(p, if up {
            ((next.memory[p] + (n - k - 1)) % 256) as u8
        } else {
            ((next.memory[p] - (n - k - 1)) % 256) as u8
        }) =~= s.memory.update(p, if up {
            ((v + (n - k)) % 256) as u8
        } else {
            ((v - (n - k)) % 256) as u8
        }));
    }
}

proof fn lemma_repeat_right(r: Right, n: nat, s: MachineState, k: nat)
    requires
        r.count == 1,
        k <= n < usize::MAX,
        s.counter == k,
        s.pointer < s.memory.len() <= usize::MAX,
    ensures
        run(repeated(InstructionSet::Right(r), n), s, (n - k) as nat) == if s.pointer + (n - k)
            < s.memory.len() {
            Run::Done(moved(s, s.pointer + (n - k), n as int))
        } else {
            Run::Fault(MemoryFault::Overflow(r.source_mapping))
        },
    decreases n - k,
{
    let l = repeated(InstructionSet::Right(r), n);
    if k < n {
        assert(l[k as int] == InstructionSet::Right(r));
        if s.pointer + 1 < s.memory.len() {
            let next = moved(s, s.pointer + 1, (k + 1) as int);
            assert(run(l, s, (n - k) as nat) == run(l, next, (n - k - 1) as nat));
            lemma_repeat_right(r, n, next, k + 1);
        }
    }
}

proof fn lemma_repeat_left(r: Left, n: nat, s: MachineState, k: nat)
    requires
        r.count == 1,
        k <= n < usize::MAX,
        s.counter == k,
        s.pointer < s.memory.len(),
    ensures
        run(repeated(InstructionSet::Left(r), n), s, (n - k) as nat) == if s.pointer >= n - k {
            Run::Done(moved(s, s.pointer - (n - k), n as int))
        } else {
            Run::Fault(MemoryFault::Underflow(r.source_mapping))
        },
    decreases n - k,
{
    let l = repeated(InstructionSet::Left(r), n);
    if k < n {
        assert(l[k as int] == InstructionSet::Left(r));
        if s.pointer >= 1 {
            let next = moved(s, s.pointer - 1, (k + 1) as int);
            assert(run(l, s, (n - k) as nat) == run(l, next, (n - k - 1) as nat));
            lemma_repeat_left(r, n, next, k + 1);
        }
    }
}

/// Compression keeps what a run of a command does: for a move or a
/// change of the current cell, running `n` single commands one by one
/// ends as the one instruction that counts them does, with the same state
/// (the next index lying past the run) or the same fault. (A run of input
/// or output commands asks the surroundings for `n` reads or writes.)
pub proof fn lemma_compression_keeps_meaning(t: Token, n: usize, s: MachineState)
    requires
        t is Right || t is Left || t is Increment || t is Decrement,
        1 <= n < usize::MAX,
        s.counter == 0,
        s.pointer < s.memory.len() <= usize::MAX,
    ensures
        run(repeated(instruction_for(t, 1), n as nat), s, n as nat) == match instruction_for(
            t,
            n,
        ).result_in(s) {
            Ok(_) => Run::Done(
                MachineState { counter: n, ..instruction_for(t, n).state_after(s) },
            ),
            Err(e) => Run::Fault(e),
        },
{
    let p = s.pointer as int;
    let v = s.memory[p];
    assert((n as u8) == n % 256) by (bit_vector);
    match t {
        Token::Right(m) => {
            lemma_repeat_right(Right { count: 1, source_mapping: m }, n as nat, s, 0);
        },
        Token::Left(m) => {
            lemma_repeat_left(Left { count: 1, source_mapping: m }, n as nat, s, 0);
        },
        Token::Increment => {
            lemma_repeat_cell(instruction_for(t, 1), n as nat, s, 0, true);
            assert((v + n) % 256 == (v + (n as u8)) % 256) by (nonlinear_arith)
                requires
                    0 <= v < 256,
                    (n as u8) == n % 256,
            ;
            assert(s.memory.update(p, ((v + n) % 256) as u8) =~= s.memory.update(
                p,
                cell_add(v, n as u8),
            ));
        },
        Token::Decrement => {
            lemma_repeat_cell(instruction_for(t, 1), n as nat, s, 0, false);
            assert((v - n) % 256 == (v - (n as u8) + 256) % 256) by (nonlinear_arith)
                requires
                    0 <= v < 256,
                    (n as u8) == n % 256,
            ;
            assert(s.memory.update(p, ((v - n) % 256) as u8) =~= s.memory.update(
                p,
                cell_sub(v, n as u8),
            ));
        },
        _ => {},
    }
}

} // verus!
