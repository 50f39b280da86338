//! A model of the part of WebAssembly that the emitters write: the
//! numeric instructions on `i32`, locals, loads and stores of linear
//! memory, `if` blocks and `throw`. It is what the laws about emitted code
//! run the code on.
//!
//! Values on the stack are the `i32` bit patterns, as integers from 0 to
//! 2^32 - 1. An instruction whose immediates are not one byte long, or
//! that the model does not know, makes the run unsupported.

use vstd::prelude::*;

use crate::compiler::web::{leb128_framed, lemma_sleb128_round_trip, sleb128, sleb128_value};

verus! {

/// 2^32, the number of `i32` bit patterns.
pub open spec fn modulus() -> int {
    0x1_0000_0000
}

/// The bit pattern of the integer `x`.
pub open spec fn wrap(x: int) -> int {
    x % modulus()
}

/// The signed value of a bit pattern.
pub open spec fn signed(x: int) -> int {
    if x >= 0x8000_0000 {
        x - modulus()
    } else {
        x
    }
}

/// The 32-bit little-endian value at address `a` of linear memory.
pub open spec fn load32(mem: Seq<u8>, a: int) -> int {
    mem[a] + 256 * mem[a + 1] + 65536 * mem[a + 2] + 16777216 * mem[a + 3]
}

/// The state of a running function: its operand stack (top last), its
/// locals, the linear memory, and the bytes that the reading import (the
/// function import 0, which takes nothing and returns a byte) will still
/// give, in order.
pub struct WasmState {
    pub stack: Seq<int>,
    pub locals: Seq<int>,
    pub mem: Seq<u8>,
    pub input: Seq<u8>,
}

/// How running code ends: at its end, with a branch out to the label
/// `depth` blocks out, with an exception of a tag, with a trap (an access
/// outside linear memory), after more turns of a loop than allowed, or at
/// something the model does not cover.
pub enum WasmOutcome {
    Finished(WasmState),
    Branch(nat, WasmState),
    Thrown(u8),
    Trapped,
    OutOfFuel,
    Unsupported,
}

/// The state with `v` pushed.
pub open spec fn push(st: WasmState, v: int) -> WasmState {
    WasmState { stack: st.stack.push(v), ..st }
}

/// The state with the top value popped.
pub open spec fn pop(st: WasmState) -> WasmState {
    WasmState { stack: st.stack.drop_last(), ..st }
}

/// The number of bytes of the LEB128 number at the start of `s`, or 0
/// where it is not terminated within `s`.
pub open spec fn leb_len(s: Seq<u8>) -> nat
    decreases s.len(),
{
    if s.len() == 0 {
        0
    } else if s[0] < 128 {
        1
    } else {
        let r = leb_len(s.drop_first());
        if r == 0 {
            0
        } else {
            r + 1
        }
    }
}

/// The number of bytes of the instruction at the start of `s`, with its
/// immediates, or 0 where it is not one of the model's.
pub open spec fn op_size(s: Seq<u8>) -> int {
    if s.len() == 0 {
        0
    } else {
        let op = s[0];
        if op == 0x41 {
            let n = leb_len(s.drop_first());
            if n == 0 {
                0
            } else {
                1 + n as int
            }
        } else if op == 0x20 || op == 0x21 || op == 0x08 || op == 0x0c || op == 0x0d || op == 0x10 {
            if s.len() >= 2 && s[1] < 128 {
                2
            } else {
                0
            }
        } else if op == 0x02 || op == 0x03 || op == 0x04 {
            if s.len() >= 2 && s[1] == 0x40 {
                2
            } else {
                0
            }
        } else if op == 0x28 || op == 0x2d || op == 0x36 || op == 0x3a {
            if s.len() >= 3 && s[1] < 128 && s[2] < 128 {
                3
            } else {
                0
            }
        } else if op == 0x0b || op == 0x1a || op == 0x45 || (0x46 <= op <= 0x4f) || op == 0x6a
            || op == 0x6b || op == 0x6c {
            1
        } else {
            0
        }
    }
}

/// The number of bytes up to and with the `end` that closes the block
/// `depth` levels out, or -1 where there is none within `s`.
pub open spec fn skip_len(s: Seq<u8>, depth: nat) -> int
    decreases s.len(),
{
    let k = op_size(s);
    if k <= 0 || k > s.len() {
        -1
    } else if s[0] == 0x0b && depth == 0 {
        1
    } else {
        let d = if s[0] == 0x0b {
            (depth - 1) as nat
        } else if s[0] == 0x02 || s[0] == 0x03 || s[0] == 0x04 {
            depth + 1
        } else {
            depth
        };
        let r = skip_len(s.skip(k), d);
        if r < 0 {
            -1
        } else {
            r + k
        }
    }
}

/// A comparison's result: 1 where it holds, else 0.
pub open spec fn flag(b: bool) -> int {
    if b {
        1
    } else {
        0
    }
}

/// The result of a binary numeric instruction on `a` (pushed first) and
/// `b`.
pub open spec fn binary(op: u8, a: int, b: int) -> int {
    if op == 0x6a {
        wrap(a + b)
    } else if op == 0x6b {
        wrap(a - b)
    } else if op == 0x6c {
        wrap(a * b)
    } else if op == 0x46 {
        flag(a == b)
    } else if op == 0x47 {
        flag(a != b)
    } else if op == 0x48 {
        flag(signed(a) < signed(b))
    } else if op == 0x49 {
        flag(a < b)
    } else if op == 0x4a {
        flag(signed(a) > signed(b))
    } else if op == 0x4b {
        flag(a > b)
    } else if op == 0x4c {
        flag(signed(a) <= signed(b))
    } else if op == 0x4d {
        flag(a <= b)
    } else if op == 0x4e {
        flag(signed(a) >= signed(b))
    } else {
        flag(a >= b)
    }
}

/// What the instruction at the start of `s` does: it goes on past its
/// first `k` bytes (its own, or, for an `if` not taken, up to the `end` of
/// the block) in a new state, or it ends the run.
pub enum Step {
    Next(int, WasmState),
    Stop(WasmOutcome),
}

/// The effect of the instruction at the start of the non-empty code `s`.
pub open spec fn step(s: Seq<u8>, st: WasmState) -> Step {
    let k = op_size(s);
    let n = st.stack.len();
    if k <= 0 || k > s.len() {
        Step::Stop(WasmOutcome::Unsupported)
    } else {
        let op = s[0];
        if op == 0x41 {
            Step::Next(k, push(st, wrap(sleb128_value(s.subrange(1, k)))))
        } else if op == 0x20 {
            if s[1] < st.locals.len() {
                Step::Next(k, push(st, st.locals[s[1] as int]))
            } else {
                Step::Stop(WasmOutcome::Unsupported)
            }
        } else if op == 0x21 {
            if s[1] < st.locals.len() && n >= 1 {
                Step::Next(
                    k,
                    WasmState { locals: st.locals.update(s[1] as int, st.stack[n - 1]), ..pop(st) },
                )
            } else {
                Step::Stop(WasmOutcome::Unsupported)
            }
        } else if op == 0x28 || op == 0x2d {
            let size = if op == 0x28 {
                4int
            } else {
                1int
            };
            if n < 1 {
                Step::Stop(WasmOutcome::Unsupported)
            } else if st.stack[n - 1] + s[2] + size > st.mem.len() {
                Step::Stop(WasmOutcome::Trapped)
            } else {
                let a = st.stack[n - 1] + s[2];
                let v = if op == 0x28 {
                    load32(st.mem, a)
                } else {
                    st.mem[a] as int
                };
                Step::Next(k, push(pop(st), v))
            }
        } else if op == 0x36 || op == 0x3a {
            let size = if op == 0x36 {
                4int
            } else {
                1int
            };
            if n < 2 {
                Step::Stop(WasmOutcome::Unsupported)
            } else if st.stack[n - 2] + s[2] + size > st.mem.len() {
                Step::Stop(WasmOutcome::Trapped)
            } else {
                let a = st.stack[n - 2] + s[2];
                let v = st.stack[n - 1];
                let mem = if op == 0x3a {
                    st.mem.update(a, (v % 256) as u8)
                } else {
                    st.mem.update(a, (v % 256) as u8).update(a + 1, ((v / 256) % 256) as u8).update(
                        a + 2,
                        ((v / 65536) % 256) as u8,
                    ).update(a + 3, ((v / 16777216) % 256) as u8)
                };
                Step::Next(k, WasmState { mem, ..pop(pop(st)) })
            }
        } else if op == 0x45 {
            if n < 1 {
                Step::Stop(WasmOutcome::Unsupported)
            } else {
                Step::Next(k, push(pop(st), flag(st.stack[n - 1] == 0)))
            }
        } else if (0x46 <= op <= 0x4f) || op == 0x6a || op == 0x6b || op == 0x6c {
            if n < 2 {
                Step::Stop(WasmOutcome::Unsupported)
            } else {
                Step::Next(k, push(pop(pop(st)), binary(op, st.stack[n - 2], st.stack[n - 1])))
            }
        } else if op == 0x1a {
            if n < 1 {
                Step::Stop(WasmOutcome::Unsupported)
            } else {
                Step::Next(k, pop(st))
            }
        } else if op == 0x08 {
            Step::Stop(WasmOutcome::Thrown(s[1]))
        } else if op == 0x10 {
            if s[1] == 0 && st.input.len() > 0 {
                Step::Next(
                    k,
                    WasmState { stack: st.stack.push(st.input[0] as int), input: st.input.drop_first(), ..st },
                )
            } else {
                Step::Stop(WasmOutcome::Unsupported)
            }
        } else {
            Step::Stop(WasmOutcome::Unsupported)
        }
    }
}

/// Runs the code `s` from state `st` to its end, turning each loop at
/// most `fuel` times.
#[verifier::opaque]
pub open spec fn exec(s: Seq<u8>, st: WasmState, fuel: nat) -> WasmOutcome
    decreases fuel, s.len(), 0nat,
{
    if s.len() == 0 {
        WasmOutcome::Finished(st)
    } else if s[0] == 0x02 || s[0] == 0x03 || s[0] == 0x04 {
        let n = st.stack.len();
        let m = skip_len(s.skip(2), 0);
        if op_size(s) != 2 || m < 1 || m > s.len() - 2 || (s[0] == 0x04 && n < 1) {
            WasmOutcome::Unsupported
        } else {
            let body = s.subrange(2, 1 + m);
            let rest = s.skip(2 + m);
            if s[0] == 0x04 && st.stack[n - 1] == 0 {
                exec(rest, pop(st), fuel)
            } else {
                let inner = if s[0] == 0x03 {
                    run_loop(body, st, fuel)
                } else if s[0] == 0x04 {
                    exec(body, pop(st), fuel)
                } else {
                    exec(body, st, fuel)
                };
                match inner {
                    WasmOutcome::Finished(next) => exec(rest, next, fuel),
                    WasmOutcome::Branch(d, next) => if d > 0 {
                        WasmOutcome::Branch((d - 1) as nat, next)
                    } else {
                        exec(rest, next, fuel)
                    },
                    other => other,
                }
            }
        }
    } else if s[0] == 0x0c || s[0] == 0x0d {
        let n = st.stack.len();
        if op_size(s) != 2 || (s[0] == 0x0d && n < 1) {
            WasmOutcome::Unsupported
        } else if s[0] == 0x0c {
            WasmOutcome::Branch(s[1] as nat, st)
        } else if st.stack[n - 1] != 0 {
            WasmOutcome::Branch(s[1] as nat, pop(st))
        } else {
            exec(s.skip(2), pop(st), fuel)
        }
    } else {
        match step(s, st) {
            Step::Next(k, next) => if 0 < k <= s.len() {
                exec(s.skip(k), next, fuel)
            } else {
                WasmOutcome::Unsupported
            },
            Step::Stop(outcome) => outcome,
        }
    }
}

/// Runs a loop's body from state `st`: a branch to the loop's own label
/// turns it again, at most `fuel` more times; a branch further out leaves
/// it, one label fewer out. The result of a branch to the loop's own
/// label never leaves it.
#[verifier::opaque]
pub open spec fn run_loop(body: Seq<u8>, st: WasmState, fuel: nat) -> WasmOutcome
    decreases fuel, body.len(), 1nat,
{
    match exec(body, st, fuel) {
        WasmOutcome::Branch(d, next) => if d > 0 {
            WasmOutcome::Branch(d, next)
        } else if fuel == 0 {
            WasmOutcome::OutOfFuel
        } else {
            run_loop(body, next, (fuel - 1) as nat)
        },
        other => other,
    }
}

proof fn lemma_leb_len_prefix(x: Seq<u8>, y: Seq<u8>)
    requires
        leb_len(x) > 0,
    ensures
        leb_len(x + y) == leb_len(x),
        leb_len(x) <= x.len(),
    decreases x.len(),
{
    if x[0] >= 128 {
        assert((x + y).drop_first() =~= x.drop_first() + y);
        lemma_leb_len_prefix(x.drop_first(), y);
    }
}

proof fn lemma_op_size_prefix(x: Seq<u8>, y: Seq<u8>)
    requires
        0 < op_size(x) <= x.len(),
    ensures
        op_size(x + y) == op_size(x),
{
    if x[0] == 0x41 {
        assert((x + y).drop_first() =~= x.drop_first() + y);
        lemma_leb_len_prefix(x.drop_first(), y);
    }
}

proof fn lemma_skip_len_prefix(x: Seq<u8>, y: Seq<u8>, depth: nat)
    requires
        skip_len(x, depth) >= 0,
    ensures
        skip_len(x + y, depth) == skip_len(x, depth),
        skip_len(x, depth) <= x.len(),
    decreases x.len(),
{
    let k = op_size(x);
    lemma_op_size_prefix(x, y);
    if !(x[0] == 0x0b && depth == 0) {
        let d = if x[0] == 0x0b {
            (depth - 1) as nat
        } else if x[0] == 0x02 || x[0] == 0x03 || x[0] == 0x04 {
            depth + 1
        } else {
            depth
        };
        assert((x + y).skip(k) =~= x.skip(k) + y);
        lemma_skip_len_prefix(x.skip(k), y, d);
    }
}

proof fn lemma_step_prefix(x: Seq<u8>, y: Seq<u8>, st: WasmState)
    requires
        x.len() > 0,
    ensures
        step(x, st) matches Step::Next(k, next) && 0 < k <= x.len() ==> step(x + y, st)
            == step(x, st),
        step(x, st) matches Step::Stop(o) && !(o is Unsupported) ==> step(x + y, st) == step(
            x,
            st,
        ),
{
    let k = op_size(x);
    if 0 < k <= x.len() {
        lemma_op_size_prefix(x, y);
        let xy = x + y;
        assert(xy[0] == x[0]);
        assert(k >= 2 ==> xy[1] == x[1]);
        assert(k >= 3 ==> xy[2] == x[2]);
        assert(xy.subrange(1, k) =~= x.subrange(1, k));
    }
}

/// What running `x` followed by `y` gives, by what running `x` gives.
pub open spec fn runs_in_sequence(x: Seq<u8>, y: Seq<u8>, st: WasmState, fuel: nat) -> bool {
    &&& exec(x, st, fuel) matches WasmOutcome::Finished(s2) ==> exec(x + y, st, fuel) == exec(
        y,
        s2,
        fuel,
    )
    &&& !(exec(x, st, fuel) is Finished) && !(exec(x, st, fuel) is Unsupported) ==> exec(
        x + y,
        st,
        fuel,
    ) == exec(x, st, fuel)
}

/// Running code `x` and then code `y` is running `x` followed by `y`:
/// where `x` runs to its end, `y` goes on from the state `x` ends in, and
/// where `x` ends otherwise (a branch out, a throw, a trap), so does the
/// whole.
pub proof fn lemma_exec_concat(x: Seq<u8>, y: Seq<u8>, st: WasmState, fuel: nat)
    ensures
        runs_in_sequence(x, y, st, fuel),
    decreases fuel, x.len(), 1nat,
{
    if x.len() == 0 {
        reveal(exec);
        assert(x + y =~= y);
    } else if x[0] == 0x02 || x[0] == 0x03 || x[0] == 0x04 {
        lemma_concat_block(x, y, st, fuel);
    } else if x[0] == 0x0c || x[0] == 0x0d {
        lemma_concat_branch(x, y, st, fuel);
    } else {
        lemma_concat_step(x, y, st, fuel);
    }
}

#[verifier::spinoff_prover]
#[verifier::rlimit(100)]
proof fn lemma_concat_block(x: Seq<u8>, y: Seq<u8>, st: WasmState, fuel: nat)
    requires
        x.len() > 0,
        x[0] == 0x02 || x[0] == 0x03 || x[0] == 0x04,
    ensures
        runs_in_sequence(x, y, st, fuel),
    decreases fuel, x.len(), 0nat,
{
    reveal(exec);
    let xy = x + y;
    assert(xy[0] == x[0]);
    if op_size(x) == 2 && x.len() >= 2 {
        lemma_op_size_prefix(x, y);
        assert(xy.skip(2) =~= x.skip(2) + y);
        let m = skip_len(x.skip(2), 0);
        if 1 <= m <= x.len() - 2 {
            lemma_skip_len_prefix(x.skip(2), y, 0);
            assert(xy.subrange(2, 1 + m) =~= x.subrange(2, 1 + m));
            assert(xy.skip(2 + m) =~= x.skip(2 + m) + y);
            let n = st.stack.len();
            if x[0] == 0x04 && n >= 1 && st.stack[n - 1] == 0 {
                lemma_exec_concat(x.skip(2 + m), y, pop(st), fuel);
            } else {
                let body = x.subrange(2, 1 + m);
                let inner = if x[0] == 0x03 {
                    run_loop(body, st, fuel)
                } else if x[0] == 0x04 {
                    exec(body, pop(st), fuel)
                } else {
                    exec(body, st, fuel)
                };
                match inner {
                    WasmOutcome::Finished(next) => {
                        lemma_exec_concat(x.skip(2 + m), y, next, fuel);
                    },
                    WasmOutcome::Branch(d, next) => {
                        lemma_exec_concat(x.skip(2 + m), y, next, fuel);
                    },
                    _ => {},
                }
            }
        }
    }
}

proof fn lemma_concat_branch(x: Seq<u8>, y: Seq<u8>, st: WasmState, fuel: nat)
    requires
        x.len() > 0,
        x[0] == 0x0c || x[0] == 0x0d,
    ensures
        runs_in_sequence(x, y, st, fuel),
    decreases fuel, x.len(), 0nat,
{
    reveal(exec);
    let xy = x + y;
    assert(xy[0] == x[0]);
    if op_size(x) == 2 && x.len() >= 2 {
        lemma_op_size_prefix(x, y);
        assert(xy[1] == x[1]);
        assert(xy.skip(2) =~= x.skip(2) + y);
        lemma_exec_concat(x.skip(2), y, pop(st), fuel);
    }
}

proof fn lemma_concat_step(x: Seq<u8>, y: Seq<u8>, st: WasmState, fuel: nat)
    requires
        x.len() > 0,
        !(x[0] == 0x02 || x[0] == 0x03 || x[0] == 0x04 || x[0] == 0x0c || x[0] == 0x0d),
    ensures
        runs_in_sequence(x, y, st, fuel),
    decreases fuel, x.len(), 0nat,
{
    reveal(exec);
    let xy = x + y;
    assert(xy[0] == x[0]);
    lemma_step_prefix(x, y, st);
    match step(x, st) {
        Step::Next(k, next) => {
            if 0 < k <= x.len() {
                assert(xy.skip(k) =~= x.skip(k) + y);
                lemma_exec_concat(x.skip(k), y, next, fuel);
            }
        },
        Step::Stop(_) => {},
    }
}

/// A framed LEB128 sequence is one number, all of it.
proof fn lemma_leb_len_framed(s: Seq<u8>)
    requires
        leb128_framed(s),
    ensures
        leb_len(s) == s.len(),
    decreases s.len(),
{
    if s.len() > 1 {
        let t = s.drop_first();
        assert(s[0] >= 128);
        assert forall|i: int| 0 <= i < t.len() - 1 implies #[trigger] t[i] >= 128 by {
            assert(t[i] == s[i + 1]);
        }
        assert(t[t.len() - 1] == s[s.len() - 1]);
        lemma_leb_len_framed(t);
    }
}

/// `i32.const` with the signed LEB128 literal of `v` pushes the bit
/// pattern of `v`, and takes all of its bytes.
pub proof fn lemma_exec_const(v: int, st: WasmState, fuel: nat)
    requires
        i32::MIN <= v <= i32::MAX,
    ensures
        op_size(seq![0x41u8] + sleb128(v)) == 1 + sleb128(v).len(),
        exec(seq![0x41u8] + sleb128(v), st, fuel) == WasmOutcome::Finished(push(st, wrap(v))),
{
    let l = sleb128(v);
    let s = seq![0x41u8] + l;
    lemma_sleb128_round_trip(v);
    lemma_leb_len_framed(l);
    assert(s.drop_first() =~= l);
    assert(s.subrange(1, 1 + l.len() as int) =~= l);
    assert(s.skip(1 + l.len() as int) =~= Seq::<u8>::empty());
    reveal_with_fuel(exec, 2);
}

/// An `i32.const` is skipped over whole while looking for the end of a
/// block.
pub proof fn lemma_skip_const(v: int, rest: Seq<u8>, depth: nat)
    requires
        i32::MIN <= v <= i32::MAX,
    ensures
        skip_len(seq![0x41u8] + sleb128(v) + rest, depth) == if skip_len(rest, depth) < 0 {
            -1
        } else {
            1 + sleb128(v).len() + skip_len(rest, depth)
        },
{
    let c = seq![0x41u8] + sleb128(v);
    let s = c + rest;
    lemma_exec_const(
        v,
        WasmState { stack: Seq::empty(), locals: Seq::empty(), mem: Seq::empty(), input: Seq::empty() },
        0,
    );
    lemma_op_size_prefix(c, rest);
    assert(s[0] == 0x41);
    assert(s.skip(c.len() as int) =~= rest);
}

/// `i32.const v` followed by `rest`: `rest` runs with `v` pushed.
pub proof fn lemma_run_const(v: int, rest: Seq<u8>, st: WasmState, fuel: nat)
    requires
        i32::MIN <= v <= i32::MAX,
    ensures
        exec(seq![0x41u8] + sleb128(v) + rest, st, fuel) == exec(rest, push(st, wrap(v)), fuel),
{
    lemma_exec_const(v, st, fuel);
    lemma_exec_concat(seq![0x41u8] + sleb128(v), rest, st, fuel);
}

/// `local.get x` followed by `rest`.
pub proof fn lemma_run_get(x: u8, rest: Seq<u8>, st: WasmState, fuel: nat)
    requires
        x < 128,
        x < st.locals.len(),
    ensures
        exec(seq![0x20u8, x] + rest, st, fuel) == exec(rest, push(st, st.locals[x as int]), fuel),
{
    reveal(exec);
    let s = seq![0x20u8, x] + rest;
    assert(s[0] == 0x20 && s[1] == x);
    assert(s.skip(2) =~= rest);
}

/// Popping what was pushed gives the state back.
pub proof fn lemma_pop_push(st: WasmState, v: int)
    ensures
        pop(push(st, v)) == st,
{
    assert(st.stack.push(v).drop_last() =~= st.stack);
}

/// `local.set x` followed by `rest`, with `v` on top of the stack.
pub proof fn lemma_run_set(x: u8, rest: Seq<u8>, st: WasmState, v: int, fuel: nat)
    requires
        x < 128,
        x < st.locals.len(),
    ensures
        exec(seq![0x21u8, x] + rest, push(st, v), fuel) == exec(
            rest,
            WasmState { locals: st.locals.update(x as int, v), ..st }, fuel,
        ),
{
    reveal(exec);
    lemma_pop_push(st, v);
    let s = seq![0x21u8, x] + rest;
    assert(s[0] == 0x21 && s[1] == x);
    assert(s.skip(2) =~= rest);
}

/// `i32.load` (`op` 0x28) or `i32.load8_u` (0x2d) at offset `off` of the
/// address `a`, followed by `rest`, within linear memory.
pub proof fn lemma_run_load(op: u8, off: u8, rest: Seq<u8>, st: WasmState, a: int, fuel: nat)
    requires
        op == 0x28 || op == 0x2d,
        off < 128,
        a + off + (if op == 0x28 {
            4int
        } else {
            1int
        }) <= st.mem.len(),
    ensures
        exec(seq![op, 0x02, off] + rest, push(st, a), fuel) == exec(
            rest,
            push(
                st,
                if op == 0x28 {
                    load32(st.mem, a + off)
                } else {
                    st.mem[a + off] as int
                },
            ), fuel,
        ),
{
    reveal(exec);
    lemma_pop_push(st, a);
    let s = seq![op, 0x02u8, off] + rest;
    assert(s[0] == op && s[1] == 0x02 && s[2] == off);
    assert(s.skip(3) =~= rest);
}

/// `i32.load8_u` at offset `off` of the address `a`, written with
/// alignment 0, followed by `rest`, within linear memory.
pub proof fn lemma_run_load8(off: u8, rest: Seq<u8>, st: WasmState, a: int, fuel: nat)
    requires
        off < 128,
        a + off + 1 <= st.mem.len(),
    ensures
        exec(seq![0x2du8, 0x00, off] + rest, push(st, a), fuel) == exec(
            rest,
            push(st, st.mem[a + off] as int), fuel,
        ),
{
    reveal(exec);
    lemma_pop_push(st, a);
    let s = seq![0x2du8, 0x00, off] + rest;
    assert(s[0] == 0x2d && s[1] == 0x00 && s[2] == off);
    assert(s.skip(3) =~= rest);
}

/// `i32.store8` at offset `off` of the address `a` of the value `v`,
/// followed by `rest`, within linear memory.
pub proof fn lemma_run_store8(off: u8, rest: Seq<u8>, st: WasmState, a: int, v: int, fuel: nat)
    requires
        off < 128,
        a + off + 1 <= st.mem.len(),
    ensures
        exec(seq![0x3au8, 0x00, off] + rest, push(push(st, a), v), fuel) == exec(
            rest,
            WasmState { mem: st.mem.update(a + off, (v % 256) as u8), ..st }, fuel,
        ),
{
    reveal(exec);
    lemma_pop_push(push(st, a), v);
    lemma_pop_push(st, a);
    let s = seq![0x3au8, 0x00, off] + rest;
    assert(s[0] == 0x3a && s[1] == 0x00 && s[2] == off);
    assert(s.skip(3) =~= rest);
}

/// `i32.eqz` followed by `rest`, with `a` on top of the stack.
pub proof fn lemma_run_eqz(rest: Seq<u8>, st: WasmState, a: int, fuel: nat)
    ensures
        exec(seq![0x45u8] + rest, push(st, a), fuel) == exec(rest, push(st, flag(a == 0)), fuel),
{
    reveal(exec);
    lemma_pop_push(st, a);
    let s = seq![0x45u8] + rest;
    assert(s[0] == 0x45);
    assert(s.skip(1) =~= rest);
}

/// A binary numeric instruction on `a` and `b`, followed by `rest`.
pub proof fn lemma_run_binary(op: u8, rest: Seq<u8>, st: WasmState, a: int, b: int, fuel: nat)
    requires
        (0x46 <= op <= 0x4f) || op == 0x6a || op == 0x6b || op == 0x6c,
    ensures
        exec(seq![op] + rest, push(push(st, a), b), fuel) == exec(rest, push(st, binary(op, a, b)), fuel),
{
    reveal(exec);
    lemma_pop_push(push(st, a), b);
    lemma_pop_push(st, a);
    let s = seq![op] + rest;
    assert(s[0] == op);
    assert(s.skip(1) =~= rest);
}

/// Code that has run to its end.
pub proof fn lemma_run_end(st: WasmState, fuel: nat)
    ensures
        exec(Seq::empty(), st, fuel) == WasmOutcome::Finished(st),
{
    reveal(exec);
}

/// Linear memory with the 32-bit little-endian value `v` written at `a`.
pub open spec fn store32(mem: Seq<u8>, a: int, v: int) -> Seq<u8> {
    mem.update(a, (v % 256) as u8).update(a + 1, ((v / 256) % 256) as u8).update(
        a + 2,
        ((v / 65536) % 256) as u8,
    ).update(a + 3, ((v / 16777216) % 256) as u8)
}

/// `i32.store` at offset `off` of the address `a` of the value `v`,
/// followed by `rest`, within linear memory.
pub proof fn lemma_run_store32(off: u8, rest: Seq<u8>, st: WasmState, a: int, v: int, fuel: nat)
    requires
        off < 128,
        a + off + 4 <= st.mem.len(),
    ensures
        exec(seq![0x36u8, 0x02, off] + rest, push(push(st, a), v), fuel) == exec(
            rest,
            WasmState { mem: store32(st.mem, a + off, v), ..st }, fuel,
        ),
{
    reveal(exec);
    lemma_pop_push(push(st, a), v);
    lemma_pop_push(st, a);
    let s = seq![0x36u8, 0x02, off] + rest;
    assert(s[0] == 0x36 && s[1] == 0x02 && s[2] == off);
    assert(s.skip(3) =~= rest);
}

/// A 32-bit value written to linear memory reads back, and no other byte
/// changes.
pub proof fn lemma_store32_load32(mem: Seq<u8>, a: int, v: int)
    requires
        0 <= a,
        a + 4 <= mem.len(),
        0 <= v < modulus(),
    ensures
        load32(store32(mem, a, v), a) == v,
        store32(mem, a, v).len() == mem.len(),
        forall|k: int|
            0 <= k < mem.len() && !(a <= k < a + 4) ==> #[trigger] store32(mem, a, v)[k] == mem[k],
{
    let b0 = v % 256;
    let b1 = (v / 256) % 256;
    let b2 = (v / 65536) % 256;
    let b3 = (v / 16777216) % 256;
    let m = store32(mem, a, v);
    assert(m[a] == b0 && m[a + 1] == b1 && m[a + 2] == b2 && m[a + 3] == b3);
    assert(b0 + 256 * b1 + 65536 * b2 + 16777216 * b3 == v) by (nonlinear_arith)
        requires
            0 <= v < 0x1_0000_0000,
            b0 == v % 256,
            b1 == (v / 256) % 256,
            b2 == (v / 65536) % 256,
            b3 == (v / 16777216) % 256,
    {
        assert(v == b0 + 256 * (v / 256));
        assert(v / 256 == b1 + 256 * (v / 65536));
        assert(v / 65536 == b2 + 256 * (v / 16777216));
        assert(v / 16777216 == b3);
    }
}

/// `throw` of a tag, whatever follows.
pub proof fn lemma_run_throw(tag: u8, rest: Seq<u8>, st: WasmState, fuel: nat)
    requires
        tag < 128,
    ensures
        exec(seq![0x08u8, tag] + rest, st, fuel) == WasmOutcome::Thrown(tag),
{
    reveal(exec);
    let s = seq![0x08u8, tag] + rest;
    assert(s[0] == 0x08 && s[1] == tag);
}

/// An `if` block without `else` that makes up the whole of `s`: where
/// the condition on top of the stack is zero it only pops it, and where
/// the body throws, so does the block.
pub proof fn lemma_run_if(s: Seq<u8>, st: WasmState, fuel: nat)
    requires
        s.len() >= 3,
        s[0] == 0x04,
        s[1] == 0x40,
        skip_len(s.skip(2), 0) == s.len() - 2,
        st.stack.len() >= 1,
    ensures
        st.stack.last() == 0 ==> exec(s, st, fuel) == WasmOutcome::Finished(pop(st)),
        st.stack.last() != 0 && exec(s.subrange(2, s.len() - 1), pop(st), fuel) is Thrown ==> exec(
            s,
            st,
            fuel,
        ) == exec(s.subrange(2, s.len() - 1), pop(st), fuel),
{
    reveal_with_fuel(exec, 2);
    assert(s.skip(s.len() as int) =~= Seq::<u8>::empty());
}

/// Code that is whole instructions with its blocks closed: looking for the
/// end of a block passes over all of it.
pub open spec fn transparent(x: Seq<u8>) -> bool {
    forall|rest: Seq<u8>, d: nat|
        skip_len(rest, d) >= 0 ==> #[trigger] skip_len(x + rest, d) == x.len() + skip_len(rest, d)
}

/// Two pieces of such code in a row are such code.
pub proof fn lemma_transparent_concat(x: Seq<u8>, y: Seq<u8>)
    requires
        transparent(x),
        transparent(y),
    ensures
        transparent(x + y),
{
    assert forall|rest: Seq<u8>, d: nat| skip_len(rest, d) >= 0 implies #[trigger] skip_len(
        (x + y) + rest,
        d,
    ) == (x + y).len() + skip_len(rest, d) by {
        assert((x + y) + rest =~= x + (y + rest));
        assert(skip_len(y + rest, d) == y.len() + skip_len(rest, d));
        assert(skip_len(x + (y + rest), d) == x.len() + skip_len(y + rest, d));
    }
}

/// One instruction that opens or closes no block is such code.
pub proof fn lemma_transparent_op(x: Seq<u8>)
    requires
        x.len() > 0,
        op_size(x) == x.len(),
        x[0] != 0x02 && x[0] != 0x03 && x[0] != 0x04 && x[0] != 0x0b,
    ensures
        transparent(x),
{
    assert forall|rest: Seq<u8>, d: nat| skip_len(rest, d) >= 0 implies #[trigger] skip_len(
        x + rest,
        d,
    ) == x.len() + skip_len(rest, d) by {
        lemma_op_size_prefix(x, rest);
        assert((x + rest)[0] == x[0]);
        assert((x + rest).skip(x.len() as int) =~= rest);
    }
}

/// An `i32.const` is such code.
pub proof fn lemma_transparent_const(v: int)
    requires
        i32::MIN <= v <= i32::MAX,
    ensures
        transparent(seq![0x41u8] + sleb128(v)),
{
    assert forall|rest: Seq<u8>, d: nat| skip_len(rest, d) >= 0 implies #[trigger] skip_len(
        seq![0x41u8] + sleb128(v) + rest,
        d,
    ) == (seq![0x41u8] + sleb128(v)).len() + skip_len(rest, d) by {
        lemma_skip_const(v, rest, d);
    }
}

/// A block, loop or `if` around such code, with its `end`, is such code.
pub proof fn lemma_transparent_block(kind: u8, body: Seq<u8>)
    requires
        kind == 0x02 || kind == 0x03 || kind == 0x04,
        transparent(body),
    ensures
        transparent(seq![kind, 0x40] + body + seq![0x0bu8]),
{
    let x = seq![kind, 0x40] + body + seq![0x0bu8];
    assert forall|rest: Seq<u8>, d: nat| skip_len(rest, d) >= 0 implies #[trigger] skip_len(
        x + rest,
        d,
    ) == x.len() + skip_len(rest, d) by {
        let s = x + rest;
        let e = seq![0x0bu8] + rest;
        assert(s[0] == kind && s[1] == 0x40);
        assert(s.skip(2) =~= body + e);
        assert(skip_len(body + e, d + 1) == body.len() + skip_len(e, d + 1)) by {
            assert(e[0] == 0x0b);
            assert(e.skip(1) =~= rest);
        }
        assert(e[0] == 0x0b);
        assert(e.skip(1) =~= rest);
    }
}

/// A block or loop around `body`, followed by `rest`: a branch to its
/// label goes on after it (for a block) or turns it again (for a loop),
/// and a branch further out leaves it, one label fewer out.
pub proof fn lemma_run_block(kind: u8, body: Seq<u8>, rest: Seq<u8>, st: WasmState, fuel: nat)
    requires
        kind == 0x02 || kind == 0x03,
        transparent(body),
    ensures
        exec(seq![kind, 0x40] + body + seq![0x0bu8] + rest, st, fuel) == match (if kind == 0x03 {
            run_loop(body, st, fuel)
        } else {
            exec(body, st, fuel)
        }) {
            WasmOutcome::Finished(next) => exec(rest, next, fuel),
            WasmOutcome::Branch(d, next) => if d > 0 {
                WasmOutcome::Branch((d - 1) as nat, next)
            } else {
                exec(rest, next, fuel)
            },
            other => other,
        },
{
    reveal(exec);
    reveal(run_loop);
    let s = seq![kind, 0x40] + body + seq![0x0bu8] + rest;
    let e = seq![0x0bu8] + rest;
    assert(s[0] == kind && s[1] == 0x40);
    assert(s.skip(2) =~= body + e);
    reveal_with_fuel(skip_len, 2);
    assert(e[0] == 0x0b);
    assert(skip_len(e, 0) == 1);
    assert(skip_len(body + e, 0) == body.len() + skip_len(e, 0));
    assert(skip_len(s.skip(2), 0) == body.len() + 1);
    assert(s.subrange(2, 2 + body.len() as int) =~= body);
    assert(s.skip(3 + body.len() as int) =~= rest);
}

/// A loop's body turns once more where it branches to the loop's label.
pub proof fn lemma_run_loop(body: Seq<u8>, st: WasmState, fuel: nat)
    ensures
        run_loop(body, st, fuel) == match exec(body, st, fuel) {
            WasmOutcome::Branch(d, next) => if d > 0 {
                WasmOutcome::Branch(d, next)
            } else if fuel == 0 {
                WasmOutcome::OutOfFuel
            } else {
                run_loop(body, next, (fuel - 1) as nat)
            },
            other => other,
        },
{
    reveal_with_fuel(run_loop, 2);
    reveal(exec);
}

/// `br_if d` with `c` on top of the stack, followed by `rest`.
pub proof fn lemma_run_br_if(d: u8, rest: Seq<u8>, st: WasmState, c: int, fuel: nat)
    requires
        d < 128,
    ensures
        exec(seq![0x0du8, d] + rest, push(st, c), fuel) == if c != 0 {
            WasmOutcome::Branch(d as nat, st)
        } else {
            exec(rest, st, fuel)
        },
{
    reveal(exec);
    lemma_pop_push(st, c);
    let s = seq![0x0du8, d] + rest;
    assert(s[0] == 0x0d && s[1] == d);
    assert(s.skip(2) =~= rest);
}

/// `br d`, whatever follows.
pub proof fn lemma_run_br(d: u8, rest: Seq<u8>, st: WasmState, fuel: nat)
    requires
        d < 128,
    ensures
        exec(seq![0x0cu8, d] + rest, st, fuel) == WasmOutcome::Branch(d as nat, st),
{
    reveal(exec);
    let s = seq![0x0cu8, d] + rest;
    assert(s[0] == 0x0c && s[1] == d);
}

/// A call of the reading import followed by `rest`: the next input byte
/// is pushed and no longer to come.
pub proof fn lemma_run_read(rest: Seq<u8>, st: WasmState, fuel: nat)
    requires
        st.input.len() > 0,
    ensures
        exec(seq![0x10u8, 0x00] + rest, st, fuel) == exec(
            rest,
            WasmState { input: st.input.drop_first(), ..push(st, st.input[0] as int) },
            fuel,
        ),
{
    reveal(exec);
    let s = seq![0x10u8, 0x00] + rest;
    assert(s[0] == 0x10 && s[1] == 0x00);
    assert(s.skip(2) =~= rest);
}

/// `drop` followed by `rest`.
pub proof fn lemma_run_drop(rest: Seq<u8>, st: WasmState, v: int, fuel: nat)
    ensures
        exec(seq![0x1au8] + rest, push(st, v), fuel) == exec(rest, st, fuel),
{
    reveal(exec);
    lemma_pop_push(st, v);
    let s = seq![0x1au8] + rest;
    assert(s[0] == 0x1a);
    assert(s.skip(1) =~= rest);
}

} // verus!
