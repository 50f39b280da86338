//! What folding a loop into one instruction keeps: the folded
//! instruction does what the loop's instructions do, run one by one.

use vstd::prelude::*;

use crate::instruction::commands::{
    cell_add, cell_sub, with_cell, Decrement, Increment, Left, LeftJump, Right, RightJump,
};
use crate::instruction::optimisation::{first_zero_from, last_zero_upto};
use crate::instruction::{fold_of, Effect, Instruction, InstructionSet, MemoryFault};
use crate::instruction::parse::{
    compile_from, compiled, instruction_for, lemma_run_end_bounds, open_ok, run_end,
};
use crate::program::MachineState;
use crate::tokeniser::Token;

verus! {

/// How running instructions one by one ends: with the index past the
/// last instruction, with a fault, or not within the steps allowed (or
/// at a request for input or output).
pub enum Run {
    Done(MachineState),
    Fault(MemoryFault),
    Unfinished,
}

/// Runs `instructions` from state `s`, at most `fuel` of them.
pub open spec fn run(instructions: Seq<InstructionSet>, s: MachineState, fuel: nat) -> Run
    decreases fuel,
{
    if s.counter >= instructions.len() {
        Run::Done(s)
    } else if fuel == 0 {
        Run::Unfinished
    } else {
        let i = instructions[s.counter as int];
        match i.result_in(s) {
            Ok(Effect::Continue) => run(instructions, i.state_after(s), (fuel - 1) as nat),
            Ok(_) => Run::Unfinished,
            Err(e) => Run::Fault(e),
        }
    }
}

/// The loop whose opening jump and body are `body`, closed as the
/// compiler closes loops that do not fold, standing at index 0.
pub open spec fn closed_loop(body: Seq<InstructionSet>) -> Seq<InstructionSet> {
    body.update(0, InstructionSet::RightJump(RightJump { end: body.len() as usize })).push(
        InstructionSet::LeftJump(LeftJump { start: 0 }),
    )
}

/// How the closed loop ends, according to the instruction it folds into:
/// with the folded instruction's fault, or with its state, the index of
/// the next instruction being past the loop.
pub open spec fn folded_run(f: InstructionSet, s: MachineState, len: nat) -> Run {
    match f.result_in(s) {
        Ok(_) => Run::Done(MachineState { counter: len as usize, ..f.state_after(s) }),
        Err(e) => Run::Fault(e),
    }
}

/// Every move of `body` moves by at least one cell.
pub open spec fn moves_nonzero(body: Seq<InstructionSet>) -> bool {
    forall|k: int|
        0 <= k < body.len() ==> match #[trigger] body[k] {
            InstructionSet::Right(r) => r.count > 0,
            InstructionSet::Left(l) => l.count > 0,
            _ => true,
        }
}

// ---- [-] ----

proof fn lemma_clear_body(l: Seq<InstructionSet>, s: MachineState, fuel: nat)
    requires
        l == seq![
            InstructionSet::RightJump(RightJump { end: 2 }),
            InstructionSet::Decrement(Decrement { amount: 1 }),
            InstructionSet::LeftJump(LeftJump { start: 0 }),
        ],
        s.counter == 1,
        s.pointer < s.memory.len(),
        s.memory[s.pointer as int] > 0,
        fuel >= 2 * s.memory[s.pointer as int],
    ensures
        run(l, s, fuel) == Run::Done(MachineState { counter: 3, ..with_cell(s, 0) }),
    decreases s.memory[s.pointer as int],
{
    let v = s.memory[s.pointer as int];
    let s1 = MachineState { counter: 2, ..with_cell(s, cell_sub(v, 1)) };
    assert(run(l, s, fuel) == run(l, s1, (fuel - 1) as nat));
    if v == 1 {
        let s2 = MachineState { counter: 3, ..s1 };
        assert(run(l, s1, (fuel - 1) as nat) == run(l, s2, (fuel - 2) as nat));
        assert(s2 == MachineState { counter: 3, ..with_cell(s, 0) });
    } else {
        let s2 = MachineState { counter: 1, ..s1 };
        assert(run(l, s1, (fuel - 1) as nat) == run(l, s2, (fuel - 2) as nat));
        lemma_clear_body(l, s2, (fuel - 2) as nat);
        assert(with_cell(s2, 0).memory =~= with_cell(s, 0).memory);
    }
}

/// Adding one and then `k` more is adding `k + 1`.
proof fn lemma_cell_add_step(x: u8, k: u8)
    requires
        k < 255,
    ensures
        cell_add(cell_add(x, 1), k) == cell_add(x, (k + 1) as u8),
{
    assert(((x + 1) % 256 + k) % 256 == (x + k + 1) % 256) by (nonlinear_arith)
        requires
            0 <= x < 256,
            0 <= k < 255,
    ;
}

// ---- [->+<] and [-<+>] ----

proof fn lemma_carry_body(
    l: Seq<InstructionSet>,
    s: MachineState,
    fuel: nat,
    away: InstructionSet,
    back: InstructionSet,
    target: int,
)
    requires
        l == seq![
            InstructionSet::RightJump(RightJump { end: 5 }),
            InstructionSet::Decrement(Decrement { amount: 1 }),
            away,
            InstructionSet::Increment(Increment { amount: 1 }),
            back,
            InstructionSet::LeftJump(LeftJump { start: 0 }),
        ],
        s.counter == 1,
        s.pointer < s.memory.len(),
        0 <= target < s.memory.len(),
        target != s.pointer,
        away.result_in(MachineState { counter: 2, ..s }) is Ok,
        forall|t: MachineState|
            t.pointer == s.pointer && t.counter == 2 && t.memory.len() == s.memory.len() ==> (
            #[trigger] away.state_after(t)).pointer
                == target && away.state_after(t).memory == t.memory && away.state_after(t).counter
                == 3 && away.result_in(t) == away.result_in(MachineState { counter: 2, ..s }),
        forall|t: MachineState|
            t.pointer == target && t.counter == 4 && t.memory.len() == s.memory.len() ==> (
            #[trigger] back.state_after(t)).pointer
                == s.pointer && back.state_after(t).memory == t.memory && back.state_after(t).counter
                == 5 && back.result_in(t) is Ok,
        s.memory[s.pointer as int] > 0,
        fuel >= 5 * s.memory[s.pointer as int],
    ensures
        run(l, s, fuel) == Run::Done(
            MachineState {
                counter: 6,
                memory: s.memory.update(
                    target,
                    cell_add(s.memory[target], s.memory[s.pointer as int]),
                ).update(s.pointer as int, 0),
                ..s
            },
        ),
    decreases s.memory[s.pointer as int],
{
    let p = s.pointer as int;
    let v = s.memory[p];
    let m = s.memory;
    let s1 = MachineState { counter: 2, memory: m.update(p, (v - 1) as u8), ..s };
    assert(run(l, s, fuel) == run(l, s1, (fuel - 1) as nat));
    assert(away.result_in(s1) is Ok);
    let s2 = away.state_after(s1);
    assert(run(l, s1, (fuel - 1) as nat) == run(l, s2, (fuel - 2) as nat));
    let s3 = MachineState {
        counter: 4,
        memory: s2.memory.update(target, cell_add(s2.memory[target], 1)),
        ..s2
    };
    assert(run(l, s2, (fuel - 2) as nat) == run(l, s3, (fuel - 3) as nat));
    let s4 = back.state_after(s3);
    assert(run(l, s3, (fuel - 3) as nat) == run(l, s4, (fuel - 4) as nat));
    assert(s4.memory[p] == v - 1);
    if v == 1 {
        let s5 = MachineState { counter: 6, ..s4 };
        assert(run(l, s4, (fuel - 4) as nat) == run(l, s5, (fuel - 5) as nat));
        assert(s5.memory =~= m.update(target, cell_add(m[target], v)).update(p, 0));
    } else {
        let s5 = MachineState { counter: 1, ..s4 };
        assert(run(l, s4, (fuel - 4) as nat) == run(l, s5, (fuel - 5) as nat));
        assert(s5.pointer == s.pointer);
        assert(away.state_after(MachineState { counter: 2, ..s5 }).pointer == target);
        assert(away.state_after(MachineState { counter: 2, ..s }).pointer == target);
        lemma_carry_body(l, s5, (fuel - 5) as nat, away, back, target);
        lemma_cell_add_step(m[target], (v - 1) as u8);
        assert(s5.memory[target] == cell_add(m[target], 1));
        assert(s5.memory.update(target, cell_add(s5.memory[target], s5.memory[p])).update(p, 0)
            =~= m.update(target, cell_add(m[target], v)).update(p, 0));
    }
}

// ---- [>] and [<] ----

proof fn lemma_right_scan_body(l: Seq<InstructionSet>, s: MachineState, fuel: nat, r: Right)
    requires
        l == seq![
            InstructionSet::RightJump(RightJump { end: 2 }),
            InstructionSet::Right(r),
            InstructionSet::LeftJump(LeftJump { start: 0 }),
        ],
        r.count == 1,
        s.counter == 1,
        s.pointer < s.memory.len() <= usize::MAX,
        s.memory[s.pointer as int] != 0,
        fuel >= 2 * (s.memory.len() - s.pointer),
    ensures
        run(l, s, fuel) == match first_zero_from(s.memory, s.pointer as int) {
            Some(z) => Run::Done(MachineState { counter: 3, pointer: z as usize, ..s }),
            None => Run::Fault(MemoryFault::Overflow(r.source_mapping)),
        },
    decreases s.memory.len() - s.pointer,
{
    let q = s.pointer as int;
    assert(first_zero_from(s.memory, q) == first_zero_from(s.memory, q + 1));
    if q + 1 < s.memory.len() {
        let s1 = MachineState { counter: 2, pointer: (q + 1) as usize, ..s };
        assert(run(l, s, fuel) == run(l, s1, (fuel - 1) as nat));
        if s.memory[q + 1] == 0 {
            let s2 = MachineState { counter: 3, ..s1 };
            assert(run(l, s1, (fuel - 1) as nat) == run(l, s2, (fuel - 2) as nat));
        } else {
            let s2 = MachineState { counter: 1, ..s1 };
            assert(run(l, s1, (fuel - 1) as nat) == run(l, s2, (fuel - 2) as nat));
            lemma_right_scan_body(l, s2, (fuel - 2) as nat, r);
        }
    } else {
        assert(first_zero_from(s.memory, q + 1) is None);
    }
}

proof fn lemma_left_scan_body(l: Seq<InstructionSet>, s: MachineState, fuel: nat, r: Left)
    requires
        l == seq![
            InstructionSet::RightJump(RightJump { end: 2 }),
            InstructionSet::Left(r),
            InstructionSet::LeftJump(LeftJump { start: 0 }),
        ],
        r.count == 1,
        s.counter == 1,
        s.pointer < s.memory.len(),
        s.memory[s.pointer as int] != 0,
        fuel >= 2 * (s.pointer + 1),
    ensures
        run(l, s, fuel) == match last_zero_upto(s.memory, s.pointer as int) {
            Some(z) => Run::Done(MachineState { counter: 3, pointer: z as usize, ..s }),
            None => Run::Fault(MemoryFault::Underflow(r.source_mapping)),
        },
    decreases s.pointer,
{
    let q = s.pointer as int;
    assert(last_zero_upto(s.memory, q) == last_zero_upto(s.memory, q - 1));
    if q >= 1 {
        let s1 = MachineState { counter: 2, pointer: (q - 1) as usize, ..s };
        assert(run(l, s, fuel) == run(l, s1, (fuel - 1) as nat));
        if s.memory[q - 1] == 0 {
            let s2 = MachineState { counter: 3, ..s1 };
            assert(run(l, s1, (fuel - 1) as nat) == run(l, s2, (fuel - 2) as nat));
        } else {
            let s2 = MachineState { counter: 1, ..s1 };
            assert(run(l, s1, (fuel - 1) as nat) == run(l, s2, (fuel - 2) as nat));
            lemma_left_scan_body(l, s2, (fuel - 2) as nat, r);
        }
    } else {
        assert(last_zero_upto(s.memory, q - 1) is None);
    }
}

/// The steps that suffice to run a folded loop over a memory of `len` cells.
pub open spec fn fold_fuel(len: nat) -> nat {
    6 * (len + 256) + 6
}

/// Folding keeps what a loop does: where a loop folds into one
/// instruction, running the loop's instructions one by one from its
/// opening jump ends as the folded instruction does, with the same state
/// (the next index lying just past the loop) or the same fault. This is
/// stated for loops whose moves move by at least one cell, as those of
/// compiled programs do. The one difference is the kind of fault of `[<]`
/// run off the first cell: the loop reports an underflow where the folded
/// instruction reports an overflow; both fault there.
pub proof fn lemma_fold_keeps_meaning(body: Seq<InstructionSet>, s: MachineState)
    requires
        fold_of(body) is Some,
        moves_nonzero(body),
        s.counter == 0,
        s.pointer < s.memory.len() <= usize::MAX,
    ensures
        fold_of(body)->0 is LeftScan && fold_of(body)->0.result_in(s) is Err ==> run(
            closed_loop(body),
            s,
            fold_fuel(s.memory.len()),
        ) is Fault,
        !(fold_of(body)->0 is LeftScan && fold_of(body)->0.result_in(s) is Err) ==> run(
            closed_loop(body),
            s,
            fold_fuel(s.memory.len()),
        ) == folded_run(fold_of(body)->0, s, closed_loop(body).len()),
{
    let f = fold_of(body)->0;
    let l = closed_loop(body);
    let fuel = fold_fuel(s.memory.len());
    let p = s.pointer as int;
    let m = s.memory;
    let v = m[p];
    let s1 = MachineState { counter: 1, ..s };
    if body.len() == 2 && f is Zero {
        assert(l =~= seq![
            InstructionSet::RightJump(RightJump { end: 2 }),
            InstructionSet::Decrement(Decrement { amount: 1 }),
            InstructionSet::LeftJump(LeftJump { start: 0 }),
        ]);
        if v == 0 {
            assert(run(l, s, fuel) == run(l, MachineState { counter: 3, ..s }, (fuel - 1) as nat));
            assert(with_cell(s, 0).memory =~= m);
        } else {
            assert(run(l, s, fuel) == run(l, s1, (fuel - 1) as nat));
            lemma_clear_body(l, s1, (fuel - 1) as nat);
        }
    } else if body.len() == 5 {
        assert(moves_nonzero(body) ==> match body[2] {
            InstructionSet::Right(r) => r.count > 0,
            InstructionSet::Left(l) => l.count > 0,
            _ => true,
        });
        match (body[2], body[4]) {
            (InstructionSet::Right(away), InstructionSet::Left(back)) => {
                let c = away.count as int;
                assert(l =~= seq![
                    InstructionSet::RightJump(RightJump { end: 5 }),
                    InstructionSet::Decrement(Decrement { amount: 1 }),
                    InstructionSet::Right(away),
                    InstructionSet::Increment(Increment { amount: 1 }),
                    InstructionSet::Left(back),
                    InstructionSet::LeftJump(LeftJump { start: 0 }),
                ]);
                if v == 0 {
                    assert(run(l, s, fuel) == run(l, MachineState { counter: 6, ..s }, (fuel - 1) as nat));
                    assert(m.update(p, cell_add(m[p], v)).update(p, 0) =~= m);
                } else {
                    assert(run(l, s, fuel) == run(l, s1, (fuel - 1) as nat));
                    if p + c < m.len() {
                        lemma_carry_body(
                            l,
                            s1,
                            (fuel - 1) as nat,
                            InstructionSet::Right(away),
                            InstructionSet::Left(back),
                            p + c,
                        );
                    } else {
                        let s2 = MachineState { counter: 2, memory: m.update(p, (v - 1) as u8), ..s };
                        assert(run(l, s1, (fuel - 1) as nat) == run(l, s2, (fuel - 2) as nat));
                    }
                }
            },
            (InstructionSet::Left(away), InstructionSet::Right(back)) => {
                let c = away.count as int;
                assert(l =~= seq![
                    InstructionSet::RightJump(RightJump { end: 5 }),
                    InstructionSet::Decrement(Decrement { amount: 1 }),
                    InstructionSet::Left(away),
                    InstructionSet::Increment(Increment { amount: 1 }),
                    InstructionSet::Right(back),
                    InstructionSet::LeftJump(LeftJump { start: 0 }),
                ]);
                if v == 0 {
                    assert(run(l, s, fuel) == run(l, MachineState { counter: 6, ..s }, (fuel - 1) as nat));
                    assert(m.update(p, cell_add(m[p], v)).update(p, 0) =~= m);
                } else {
                    assert(run(l, s, fuel) == run(l, s1, (fuel - 1) as nat));
                    if p >= c {
                        lemma_carry_body(
                            l,
                            s1,
                            (fuel - 1) as nat,
                            InstructionSet::Left(away),
                            InstructionSet::Right(back),
                            p - c,
                        );
                    } else {
                        let s2 = MachineState { counter: 2, memory: m.update(p, (v - 1) as u8), ..s };
                        assert(run(l, s1, (fuel - 1) as nat) == run(l, s2, (fuel - 2) as nat));
                    }
                }
            },
            _ => {},
        }
    } else {
        match body[1] {
            InstructionSet::Right(r) => {
                assert(l =~= seq![
                    InstructionSet::RightJump(RightJump { end: 2 }),
                    InstructionSet::Right(r),
                    InstructionSet::LeftJump(LeftJump { start: 0 }),
                ]);
                if v == 0 {
                    assert(run(l, s, fuel) == run(l, MachineState { counter: 3, ..s }, (fuel - 1) as nat));
                } else {
                    assert(run(l, s, fuel) == run(l, s1, (fuel - 1) as nat));
                    lemma_right_scan_body(l, s1, (fuel - 1) as nat, r);
                }
            },
            InstructionSet::Left(r) => {
                assert(l =~= seq![
                    InstructionSet::RightJump(RightJump { end: 2 }),
                    InstructionSet::Left(r),
                    InstructionSet::LeftJump(LeftJump { start: 0 }),
                ]);
                if v == 0 {
                    assert(run(l, s, fuel) == run(l, MachineState { counter: 3, ..s }, (fuel - 1) as nat));
                } else {
                    assert(run(l, s, fuel) == run(l, s1, (fuel - 1) as nat));
                    lemma_left_scan_body(l, s1, (fuel - 1) as nat, r);
                }
            },
            _ => {},
        }
    }
}

proof fn lemma_compile_from_moves_nonzero(
    tokens: Seq<Token>,
    i: int,
    instructions: Seq<InstructionSet>,
    open: Seq<usize>,
)
    requires
        moves_nonzero(instructions),
        open_ok(instructions, open),
        0 <= i <= tokens.len() <= usize::MAX,
        instructions.len() <= i,
    ensures
        moves_nonzero(compile_from(tokens, i, instructions, open)),
    decreases tokens.len() - i,
{
    if 0 <= i < tokens.len() {
        match tokens[i] {
            Token::RightJump(_) => {
                let next = instructions.push(InstructionSet::RightJump(RightJump { end: 0 }));
                assert(moves_nonzero(next)) by {
                    assert forall|k: int| 0 <= k < next.len() implies match #[trigger] next[k] {
                        InstructionSet::Right(r) => r.count > 0,
                        InstructionSet::Left(l) => l.count > 0,
                        _ => true,
                    } by {
                        if k < instructions.len() {
                            assert(next[k] == instructions[k]);
                        }
                    }
                }
                lemma_compile_from_moves_nonzero(
                    tokens,
                    i + 1,
                    next,
                    open.push(instructions.len() as usize),
                );
            },
            Token::LeftJump(_) => {
                if open.len() > 0 {
                    let start = open.last() as int;
                    let end = instructions.len() as int;
                    assert(open[open.len() - 1] < instructions.len());
                    assert forall|a: int| 0 <= a < open.drop_last().len() implies #[trigger] open.drop_last()[a] < start by {
                        assert(open.drop_last()[a] == open[a]);
                        assert(open[a] < open[open.len() - 1]);
                    }
                    match fold_of(instructions.subrange(start, end)) {
                        Some(f) => {
                            let next = instructions.subrange(0, start).push(f);
                            assert(moves_nonzero(next)) by {
                                assert forall|k: int| 0 <= k < next.len() implies match #[trigger] next[k] {
                                    InstructionSet::Right(r) => r.count > 0,
                                    InstructionSet::Left(l) => l.count > 0,
                                    _ => true,
                                } by {
                                    if k < start {
                                        assert(next[k] == instructions[k]);
                                    }
                                }
                            }
                            lemma_compile_from_moves_nonzero(tokens, i + 1, next, open.drop_last());
                        },
                        None => {
                            let next = instructions.update(
                                start,
                                InstructionSet::RightJump(RightJump { end: end as usize }),
                            ).push(InstructionSet::LeftJump(LeftJump { start: start as usize }));
                            assert(moves_nonzero(next)) by {
                                assert forall|k: int| 0 <= k < next.len() implies match #[trigger] next[k] {
                                    InstructionSet::Right(r) => r.count > 0,
                                    InstructionSet::Left(l) => l.count > 0,
                                    _ => true,
                                } by {
                                    if k < instructions.len() && k != start {
                                        assert(next[k] == instructions[k]);
                                    }
                                }
                            }
                            lemma_compile_from_moves_nonzero(tokens, i + 1, next, open.drop_last());
                        },
                    }
                }
            },
            _ => {
                lemma_run_end_bounds(tokens, i, i + 1);
                let end = run_end(tokens, i, i + 1);
                let next = instructions.push(instruction_for(tokens[i], (end - i) as usize));
                assert(moves_nonzero(next)) by {
                    assert forall|k: int| 0 <= k < next.len() implies match #[trigger] next[k] {
                        InstructionSet::Right(r) => r.count > 0,
                        InstructionSet::Left(l) => l.count > 0,
                        _ => true,
                    } by {
                        if k < instructions.len() {
                            assert(next[k] == instructions[k]);
                        }
                    }
                }
                lemma_compile_from_moves_nonzero(tokens, end, next, open);
            },
        }
    }
}

/// Every move of a compiled program moves by at least one cell, so that
/// every loop of a compiled program that folds keeps its meaning (see
/// `lemma_fold_keeps_meaning`).
pub proof fn lemma_compiled_moves_nonzero(tokens: Seq<Token>)
    requires
        tokens.len() <= usize::MAX,
    ensures
        moves_nonzero(compiled(tokens)),
{
    lemma_compile_from_moves_nonzero(tokens, 0, Seq::empty(), Seq::empty());
}

} // verus!
