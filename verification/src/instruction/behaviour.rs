//! What the emitted code does when it runs, stated against what the
//! interpreter's `execute` does, in the model of WebAssembly of
//! `compiler::wasm`.
//!
//! The code reaches the interpreter's state through an image of it in
//! linear memory (see `holds_image`).

use vstd::prelude::*;

use crate::compiler::wasm::{
    binary, exec, flag, lemma_exec_concat, lemma_run_binary, lemma_run_const,
    lemma_run_end, lemma_run_eqz, lemma_run_if, lemma_run_throw, lemma_run_block, lemma_run_br,
    lemma_run_br_if, lemma_run_loop, lemma_transparent_block, lemma_transparent_concat,
    lemma_transparent_const, lemma_transparent_op, run_loop, transparent, op_size, lemma_run_read,
    lemma_run_drop, lemma_run_get, lemma_run_load, lemma_run_load8, lemma_run_set,
    lemma_run_store32, lemma_run_store8, lemma_store32_load32,
    lemma_pop_push, lemma_skip_const, load32, pop, push, signed, skip_len, wrap, WasmOutcome,
    WasmState,
};
use crate::compiler::web::sleb128;
use crate::instruction::commands::{
    cell_add, cell_sub, discarded_reads, with_cell, Decrement, Increment, Input, Left, Right,
};
use crate::instruction::optimisation::{
    first_zero_from, last_zero_upto, left_scan_step, right_scan_step, scan_code, LeftScan, RightScan,
    Zero,
};
use crate::instruction::emit::{cell_address, fits_i32, load_field, raise, signed_const, store_pointer};
use crate::instruction::optimisation::{carry_tail, LeftCarry, RightCarry};
use crate::instruction::Instruction;
use crate::program::{lemma_first_zero_from, lemma_last_zero_upto, MachineState};
use crate::tokeniser::SourceMapping;

verus! {

/// Linear memory `mem` holds an image of the state `s` at `addr`: the
/// data pointer at `addr`, the number of cells at `addr + 8`, the address
/// `data` of the cells at `addr + 12`, and the cells themselves from
/// `data` on. Every address lies below 2^31, so that no address
/// arithmetic of the emitted code wraps.
pub open spec fn holds_image(mem: Seq<u8>, addr: int, data: int, s: MachineState) -> bool {
    &&& 0 <= addr
    &&& addr + 16 <= mem.len() < 0x8000_0000
    &&& load32(mem, addr) == s.pointer
    &&& load32(mem, addr + 8) == s.memory.len()
    &&& load32(mem, addr + 12) == data
    &&& 0 <= data
    &&& data + s.memory.len() <= mem.len()
    &&& mem.subrange(data, data + s.memory.len()) == s.memory
}

/// The code that raises a fault is an `if` block around the constants
/// and the `throw`.
#[verifier::spinoff_prover]
#[verifier::rlimit(80)]
proof fn lemma_raise_shape(code: u8, m: SourceMapping, path_addr: i32)
    requires
        code < 64,
    ensures
        ({
            let r = raise(code, m, path_addr);
            &&& r.len() >= 3
            &&& r[0] == 0x04
            &&& r[1] == 0x40
            &&& skip_len(r.skip(2), 0) == r.len() - 2
            &&& r.subrange(2, r.len() - 1) == seq![0x41u8] + sleb128(code as int) + (signed_const(
                m.line as i32,
            ) + (signed_const(m.column as i32) + (signed_const(path_addr) + (signed_const(
                crate::instruction::emit::path_length(m),
            ) + (seq![0x08u8, 0x00] + Seq::<u8>::empty())))))
        }),
{
    let line = m.line as i32;
    let column = m.column as i32;
    let length = crate::instruction::emit::path_length(m);
    let c1 = signed_const(line);
    let c2 = signed_const(column);
    let c3 = signed_const(path_addr);
    let c4 = signed_const(length);
    let r = raise(code, m, path_addr);
    let end = seq![0x08u8, 0x00, 0x0b];
    let tail = seq![0x08u8, 0x00] + Seq::<u8>::empty();
    let k = seq![0x41u8] + sleb128(code as int);
    reveal_with_fuel(sleb128, 2);
    assert(sleb128(code as int) =~= seq![code]);
    reveal_with_fuel(skip_len, 3);
    assert(skip_len(end, 0) == 3) by {
        assert(end.skip(2) =~= seq![0x0bu8]);
    }
    lemma_skip_const(length as int, end, 0);
    lemma_skip_const(path_addr as int, c4 + end, 0);
    lemma_skip_const(column as int, c3 + (c4 + end), 0);
    lemma_skip_const(line as int, c2 + (c3 + (c4 + end)), 0);
    lemma_skip_const(code as int, c1 + (c2 + (c3 + (c4 + end))), 0);
    assert(r.skip(2) =~= k + (c1 + (c2 + (c3 + (c4 + end)))));
    assert(r.subrange(2, r.len() - 1) =~= k + (c1 + (c2 + (c3 + (c4 + tail)))));
}

/// The code that raises a fault throws the runtime error's tag where the
/// value on top of the stack is not zero, and otherwise only pops it.
proof fn lemma_run_raise(code: u8, m: SourceMapping, path_addr: i32, st: WasmState, fuel: nat)
    requires
        code < 64,
        st.stack.len() >= 1,
    ensures
        st.stack.last() != 0 ==> exec(raise(code, m, path_addr), st, fuel) == WasmOutcome::Thrown(0),
        st.stack.last() == 0 ==> exec(raise(code, m, path_addr), st, fuel) == WasmOutcome::Finished(
            pop(st),
        ),
{
    let line = m.line as i32;
    let column = m.column as i32;
    let length = crate::instruction::emit::path_length(m);
    let c1 = signed_const(line);
    let c2 = signed_const(column);
    let c3 = signed_const(path_addr);
    let c4 = signed_const(length);
    let r = raise(code, m, path_addr);
    let tail = seq![0x08u8, 0x00] + Seq::<u8>::empty();
    lemma_raise_shape(code, m, path_addr);
    let s0 = pop(st);
    if st.stack.last() != 0 {
        lemma_run_const(code as int, c1 + (c2 + (c3 + (c4 + tail))), s0, fuel);
        let s1 = push(s0, wrap(code as int));
        lemma_run_const(line as int, c2 + (c3 + (c4 + tail)), s1, fuel);
        let s2 = push(s1, wrap(line as int));
        lemma_run_const(column as int, c3 + (c4 + tail), s2, fuel);
        let s3 = push(s2, wrap(column as int));
        lemma_run_const(path_addr as int, c4 + tail, s3, fuel);
        let s4 = push(s3, wrap(path_addr as int));
        lemma_run_const(length as int, tail, s4, fuel);
        lemma_run_throw(0x00, Seq::<u8>::empty(), push(s4, wrap(length as int)), fuel);
    }
    lemma_run_if(r, st, fuel);
}

/// Loading a field of the image, followed by `rest`.
proof fn lemma_run_field(program_addr: i32, offset: u8, rest: Seq<u8>, st: WasmState, fuel: nat)
    requires
        0 <= program_addr,
        offset < 128,
        program_addr + offset + 4 <= st.mem.len(),
    ensures
        exec(load_field(program_addr, offset) + rest, st, fuel) == exec(
            rest,
            push(st, load32(st.mem, program_addr + offset)), fuel,
        ),
{
    let c = seq![0x41u8] + sleb128(program_addr as int);
    assert(load_field(program_addr, offset) + rest =~= c + (seq![0x28u8, 0x02, offset] + rest));
    lemma_run_const(program_addr as int, seq![0x28u8, 0x02, offset] + rest, st, fuel);
    assert(wrap(program_addr as int) == program_addr);
    lemma_run_load(0x28, offset, rest, st, program_addr as int, fuel);
}

/// The code that raises a fault, followed by `rest`.
proof fn lemma_run_raise_then(
    code: u8,
    m: SourceMapping,
    path_addr: i32,
    rest: Seq<u8>,
    st: WasmState,
    fuel: nat,
)
    requires
        code < 64,
        st.stack.len() >= 1,
    ensures
        st.stack.last() != 0 ==> exec(raise(code, m, path_addr) + rest, st, fuel)
            == WasmOutcome::Thrown(0),
        st.stack.last() == 0 ==> exec(raise(code, m, path_addr) + rest, st, fuel) == exec(
            rest,
            pop(st), fuel,
        ),
{
    lemma_run_raise(code, m, path_addr, st, fuel);
    lemma_exec_concat(raise(code, m, path_addr), rest, st, fuel);
}

/// The end of a carry, with the source cell's address in local 0 and the
/// target's index in local 2: the target cell gets the sum of both cells,
/// wrapping at 256, and then the source cell becomes 0.
#[verifier::spinoff_prover]
#[verifier::rlimit(80)]
proof fn lemma_run_carry_tail(program_addr: i32, data: int, source: int, target: int, st: WasmState, fuel: nat)
    requires
        0 <= program_addr,
        program_addr + 16 <= st.mem.len() < 0x8000_0000,
        load32(st.mem, program_addr + 12) == data,
        0 <= data,
        0 <= source,
        0 <= target,
        data + source < st.mem.len(),
        data + target < st.mem.len(),
        st.locals.len() >= 3,
        st.locals[0] == data + source,
        st.locals[2] == target,
    ensures
        exec(carry_tail(program_addr), st, fuel) == WasmOutcome::Finished(
            WasmState {
                mem: st.mem.update(
                    data + target,
                    ((st.mem[data + target] + st.mem[data + source]) % 256) as u8,
                ).update(data + source, 0),
                ..st
            },
        ),
{
    let pa = program_addr;
    let m0 = st.mem;
    let e = Seq::<u8>::empty();
    let r14 = seq![0x3au8, 0x00, 0x00] + e;
    let r13 = seq![0x41u8] + sleb128(0) + r14;
    let r12 = seq![0x20u8, 0x00] + r13;
    let r11 = seq![0x3au8, 0x00, 0x00] + r12;
    let r10 = seq![0x6au8] + r11;
    let r9 = seq![0x2du8, 0x00, 0x00] + r10;
    let r8 = seq![0x20u8, 0x00] + r9;
    let r7 = seq![0x2du8, 0x00, 0x00] + r8;
    let r6 = seq![0x6au8] + r7;
    let r5 = load_field(pa, 0x0c) + r6;
    let r4 = seq![0x20u8, 0x02] + r5;
    let r3 = seq![0x6au8] + r4;
    let r2 = load_field(pa, 0x0c) + r3;
    let r1 = seq![0x20u8, 0x02] + r2;
    reveal_with_fuel(sleb128, 1);
    assert(sleb128(0) =~= seq![0u8]);
    assert(carry_tail(pa) =~= r1);
    let t = target;
    let d = data + target;
    let src = data + source;
    lemma_run_get(2, r2, st, fuel);
    lemma_run_field(pa, 0x0c, r3, push(st, t), fuel);
    lemma_run_binary(0x6a, r4, st, t, data, fuel);
    assert(binary(0x6a, t, data) == d);
    let s3 = push(st, d);
    lemma_run_get(2, r5, s3, fuel);
    lemma_run_field(pa, 0x0c, r6, push(s3, t), fuel);
    lemma_run_binary(0x6a, r7, s3, t, data, fuel);
    lemma_run_load8(0x00, r8, s3, d, fuel);
    let x = m0[d] as int;
    lemma_run_get(0, r9, push(s3, x), fuel);
    lemma_run_load8(0x00, r10, push(s3, x), src, fuel);
    let y = m0[src] as int;
    lemma_run_binary(0x6a, r11, s3, x, y, fuel);
    assert(binary(0x6a, x, y) == x + y);
    lemma_run_store8(0x00, r12, st, d, x + y, fuel);
    let s11 = WasmState { mem: m0.update(d, ((x + y) % 256) as u8), ..st };
    lemma_run_get(0, r13, s11, fuel);
    lemma_run_const(0, r14, push(s11, src), fuel);
    assert(wrap(0) == 0);
    lemma_run_store8(0x00, e, s11, src, 0, fuel);
    lemma_run_end(WasmState { mem: s11.mem.update(src, 0), ..st }, fuel);
}

/// Where the code of an instruction that changes cells runs to its end:
/// the stack is as it was, the cells of the image are those of the state
/// `after`, and no byte of linear memory outside the cells changed.
pub open spec fn ends_with_cells(
    outcome: WasmOutcome,
    st: WasmState,
    data: int,
    after: MachineState,
) -> bool {
    &&& outcome is Finished
    &&& outcome->Finished_0.stack == st.stack
    &&& outcome->Finished_0.mem.len() == st.mem.len()
    &&& outcome->Finished_0.mem.subrange(data, data + after.memory.len()) == after.memory
    &&& forall|k: int|
        0 <= k < st.mem.len() && !(data <= k < data + after.memory.len())
            ==> #[trigger] outcome->Finished_0.mem[k] == st.mem[k]
}

proof fn lemma_assoc(x: Seq<u8>, y: Seq<u8>, z: Seq<u8>)
    ensures
        (x + y) + z == x + (y + z),
{
    assert((x + y) + z =~= x + (y + z));
}

/// The code of a right carry, with its pieces nested to the right.
proof fn lemma_right_carry_code(c: RightCarry, pa: i32, path_addr: i32)
    ensures
        c.emitted(pa, path_addr) == load_field(pa, 0x00) + (seq![0x21u8, 0x02, 0x20, 0x02] + (
        load_field(pa, 0x0c) + (seq![0x6au8, 0x21, 0x00, 0x20, 0x00, 0x2d, 0x00, 0x00, 0x45, 0x45]
            + (signed_const(c.count as i32) + (seq![0x6cu8, 0x20, 0x02, 0x6a, 0x21, 0x02, 0x20, 0x02]
            + (load_field(pa, 0x08) + (seq![0x4eu8] + (raise(0x01, c.source_mapping, path_addr)
            + carry_tail(pa))))))))),
{
    let a1 = load_field(pa, 0x00);
    let b2 = seq![0x21u8, 0x02, 0x20, 0x02];
    let a3 = load_field(pa, 0x0c);
    let b4 = seq![0x6au8, 0x21, 0x00, 0x20, 0x00, 0x2d, 0x00, 0x00, 0x45, 0x45];
    let a5 = signed_const(c.count as i32);
    let b6 = seq![0x6cu8, 0x20, 0x02, 0x6a, 0x21, 0x02, 0x20, 0x02];
    let a7 = load_field(pa, 0x08);
    let b8 = seq![0x4eu8];
    let a9 = raise(0x01, c.source_mapping, path_addr);
    let a10 = carry_tail(pa);
    assert(c.emitted(pa, path_addr) == a1 + b2 + a3 + b4 + a5 + b6 + a7 + b8 + a9 + a10);
    lemma_assoc(a1 + b2 + a3 + b4 + a5 + b6 + a7 + b8, a9, a10);
    let r9 = a9 + a10;
    lemma_assoc(a1 + b2 + a3 + b4 + a5 + b6 + a7, b8, r9);
    let r8 = b8 + r9;
    lemma_assoc(a1 + b2 + a3 + b4 + a5 + b6, a7, r8);
    let r7 = a7 + r8;
    lemma_assoc(a1 + b2 + a3 + b4 + a5, b6, r7);
    let r6 = b6 + r7;
    lemma_assoc(a1 + b2 + a3 + b4, a5, r6);
    let r5 = a5 + r6;
    lemma_assoc(a1 + b2 + a3, b4, r5);
    let r4 = b4 + r5;
    lemma_assoc(a1 + b2, a3, r4);
    let r3 = a3 + r4;
    lemma_assoc(a1, b2, r3);
}

/// The code of `[->+<]` with `count` moves, run on an image of a state,
/// does what executing the right carry does: where the current cell is
/// not zero and the cell `count` to its right lies past the memory, it
/// throws the runtime error's tag, exactly where `execute` faults;
/// otherwise the cell `count` to the right (or the current cell itself,
/// when that is zero) gets the current cell's value added, wrapping at
/// 256, and the current cell becomes zero, and nothing else changes. This
/// holds where no address or index reaches 2^31.
#[verifier::spinoff_prover]
#[verifier::rlimit(100)]
pub proof fn lemma_right_carry_runs_as_execute(
    c: RightCarry,
    program_addr: i32,
    path_addr: i32,
    s: MachineState,
    st: WasmState,
    data: int,
    fuel: nat,
)
    requires
        holds_image(st.mem, program_addr as int, data, s),
        s.pointer < s.memory.len(),
        fits_i32(c.count),
        s.pointer + c.count < 0x8000_0000,
        st.locals.len() >= 3,
    ensures
        c.result_in(s) is Err ==> exec(c.emitted(program_addr, path_addr), st, fuel)
            == WasmOutcome::Thrown(0),
        c.result_in(s) is Ok ==> ends_with_cells(
            exec(c.emitted(program_addr, path_addr), st, fuel),
            st,
            data,
            c.state_after(s),
        ),
{
    let pa = program_addr;
    let pl = program_addr as int;
    let m0 = st.mem;
    let p = s.pointer as int;
    let len = s.memory.len() as int;
    let count = c.count as int;
    assert(m0[data + p] == s.memory[p]) by {
        assert(m0.subrange(data, data + len)[p] == m0[data + p]);
    }
    let v = s.memory[p] as int;
    let mask: int = if v != 0 {
        1
    } else {
        0
    };
    let dist: int = if v != 0 {
        count
    } else {
        0
    };
    let t = p + dist;
    let tail = carry_tail(pa);
    let q19 = raise(0x01, c.source_mapping, path_addr) + tail;
    let q18 = seq![0x4eu8] + q19;
    let q17 = load_field(pa, 0x08) + q18;
    let q16 = seq![0x20u8, 0x02] + q17;
    let q15 = seq![0x21u8, 0x02] + q16;
    let q14 = seq![0x6au8] + q15;
    let q13 = seq![0x20u8, 0x02] + q14;
    let q12 = seq![0x6cu8] + q13;
    let q11 = seq![0x41u8] + sleb128(count) + q12;
    let q10 = seq![0x45u8] + q11;
    let q9 = seq![0x45u8] + q10;
    let q8 = seq![0x2du8, 0x00, 0x00] + q9;
    let q7 = seq![0x20u8, 0x00] + q8;
    let q6 = seq![0x21u8, 0x00] + q7;
    let q5 = seq![0x6au8] + q6;
    let q4 = load_field(pa, 0x0c) + q5;
    let q3 = seq![0x20u8, 0x02] + q4;
    let q2 = seq![0x21u8, 0x02] + q3;
    let q1 = load_field(pa, 0x00) + q2;
    assert((c.count as i32) as int == count);
    lemma_right_carry_code(c, pa, path_addr);
    assert(seq![0x21u8, 0x02, 0x20, 0x02] + q4 =~= q2);
    assert(seq![0x6au8, 0x21, 0x00, 0x20, 0x00, 0x2d, 0x00, 0x00, 0x45, 0x45] + (seq![0x41u8]
        + sleb128(count) + q12) =~= q5);
    assert(seq![0x6cu8, 0x20, 0x02, 0x6a, 0x21, 0x02, 0x20, 0x02] + q17 =~= q12);
    assert(c.emitted(pa, path_addr) == q1);
    lemma_run_field(pa, 0x00, q2, st, fuel);
    lemma_run_set(2, q3, st, p, fuel);
    let sa = WasmState { locals: st.locals.update(2, p), ..st };
    lemma_run_get(2, q4, sa, fuel);
    lemma_run_field(pa, 0x0c, q5, push(sa, p), fuel);
    lemma_run_binary(0x6a, q6, sa, p, data, fuel);
    assert(binary(0x6a, p, data) == p + data);
    lemma_run_set(0, q7, sa, p + data, fuel);
    let sb = WasmState { locals: sa.locals.update(0, p + data), ..sa };
    lemma_run_get(0, q8, sb, fuel);
    lemma_run_load8(0x00, q9, sb, p + data, fuel);
    lemma_run_eqz(q10, sb, v, fuel);
    lemma_run_eqz(q11, sb, flag(v == 0), fuel);
    assert(flag(flag(v == 0) == 0) == mask);
    lemma_run_const(count, q12, push(sb, mask), fuel);
    assert(wrap(count) == count);
    lemma_run_binary(0x6c, q13, sb, mask, count, fuel);
    assert(binary(0x6c, mask, count) == dist);
    lemma_run_get(2, q14, push(sb, dist), fuel);
    lemma_run_binary(0x6a, q15, sb, dist, p, fuel);
    assert(binary(0x6a, dist, p) == t);
    lemma_run_set(2, q16, sb, t, fuel);
    let sc = WasmState { locals: sb.locals.update(2, t), ..sb };
    lemma_run_get(2, q17, sc, fuel);
    lemma_run_field(pa, 0x08, q18, push(sc, t), fuel);
    lemma_run_binary(0x4e, q19, sc, t, len, fuel);
    let f = flag(signed(t) >= signed(len));
    assert(f != 0 <==> t >= len);
    lemma_run_raise_then(0x01, c.source_mapping, path_addr, tail, push(sc, f), fuel);
    lemma_pop_push(sc, f);
    if t < len {
        lemma_run_carry_tail(pa, data, p, t, sc, fuel);
        let after = c.state_after(s);
        let end = m0.update(data + t, ((m0[data + t] + m0[data + p]) % 256) as u8).update(
            data + p,
            0,
        );
        assert(m0[data + t] == s.memory[t]) by {
            assert(m0.subrange(data, data + len)[t] == m0[data + t]);
        }
        assert(end.subrange(data, data + len) =~= after.memory) by {
            assert forall|i: int| 0 <= i < len implies end.subrange(data, data + len)[i]
                == after.memory[i] by {
                assert(m0.subrange(data, data + len)[i] == m0[data + i]);
            }
        }
    }
}

/// The code of a left carry, with its pieces nested to the right.
proof fn lemma_left_carry_code(c: LeftCarry, pa: i32, path_addr: i32)
    ensures
        c.emitted(pa, path_addr) == load_field(pa, 0x00) + (seq![0x21u8, 0x02, 0x20, 0x02] + (
        load_field(pa, 0x0c) + (seq![
            0x6au8,
            0x21,
            0x00,
            0x20,
            0x02,
            0x20,
            0x00,
            0x2d,
            0x00,
            0x00,
            0x45,
            0x45,
        ] + (signed_const(c.count as i32) + (seq![0x6cu8, 0x6b, 0x21, 0x02, 0x20, 0x02, 0x41, 0x00, 0x48]
            + (raise(0x01, c.source_mapping, path_addr) + carry_tail(pa))))))),
{
    let a1 = load_field(pa, 0x00);
    let b2 = seq![0x21u8, 0x02, 0x20, 0x02];
    let a3 = load_field(pa, 0x0c);
    let b4 = seq![0x6au8, 0x21, 0x00, 0x20, 0x02, 0x20, 0x00, 0x2d, 0x00, 0x00, 0x45, 0x45];
    let a5 = signed_const(c.count as i32);
    let b6 = seq![0x6cu8, 0x6b, 0x21, 0x02, 0x20, 0x02, 0x41, 0x00, 0x48];
    let a9 = raise(0x01, c.source_mapping, path_addr);
    let a10 = carry_tail(pa);
    assert(c.emitted(pa, path_addr) == a1 + b2 + a3 + b4 + a5 + b6 + a9 + a10);
    lemma_assoc(a1 + b2 + a3 + b4 + a5 + b6, a9, a10);
    let r9 = a9 + a10;
    lemma_assoc(a1 + b2 + a3 + b4 + a5, b6, r9);
    let r6 = b6 + r9;
    lemma_assoc(a1 + b2 + a3 + b4, a5, r6);
    let r5 = a5 + r6;
    lemma_assoc(a1 + b2 + a3, b4, r5);
    let r4 = b4 + r5;
    lemma_assoc(a1 + b2, a3, r4);
    let r3 = a3 + r4;
    lemma_assoc(a1, b2, r3);
}

/// The code of `[-<+>]` with `count` moves, run on an image of a state,
/// does what executing the left carry does: where the current cell is
/// not zero and the cell `count` to its left lies below the memory's
/// first cell, it throws the runtime error's tag, exactly where `execute`
/// faults; otherwise the cell `count` to the left (or the current cell
/// itself, when that is zero) gets the current cell's value added,
/// wrapping at 256, and the current cell becomes zero, and nothing else
/// changes. This holds where no address or index reaches 2^31.
#[verifier::spinoff_prover]
#[verifier::rlimit(100)]
pub proof fn lemma_left_carry_runs_as_execute(
    c: LeftCarry,
    program_addr: i32,
    path_addr: i32,
    s: MachineState,
    st: WasmState,
    data: int,
    fuel: nat,
)
    requires
        holds_image(st.mem, program_addr as int, data, s),
        s.pointer < s.memory.len(),
        fits_i32(c.count),
        st.locals.len() >= 3,
    ensures
        c.result_in(s) is Err ==> exec(c.emitted(program_addr, path_addr), st, fuel)
            == WasmOutcome::Thrown(0),
        c.result_in(s) is Ok ==> ends_with_cells(
            exec(c.emitted(program_addr, path_addr), st, fuel),
            st,
            data,
            c.state_after(s),
        ),
{
    let pa = program_addr;
    let m0 = st.mem;
    let p = s.pointer as int;
    let len = s.memory.len() as int;
    let count = c.count as int;
    assert(m0[data + p] == s.memory[p]) by {
        assert(m0.subrange(data, data + len)[p] == m0[data + p]);
    }
    let v = s.memory[p] as int;
    let mask: int = if v != 0 {
        1
    } else {
        0
    };
    let dist: int = if v != 0 {
        count
    } else {
        0
    };
    let w = wrap(p - dist);
    let tail = carry_tail(pa);
    let q17 = raise(0x01, c.source_mapping, path_addr) + tail;
    let q16 = seq![0x48u8] + q17;
    let q15 = seq![0x41u8] + sleb128(0) + q16;
    let q14 = seq![0x20u8, 0x02] + q15;
    let q13 = seq![0x21u8, 0x02] + q14;
    let q12 = seq![0x6bu8] + q13;
    let q11 = seq![0x6cu8] + q12;
    let q10 = seq![0x41u8] + sleb128(count) + q11;
    let q9 = seq![0x45u8] + q10;
    let q8 = seq![0x45u8] + q9;
    let q7 = seq![0x2du8, 0x00, 0x00] + q8;
    let q6 = seq![0x20u8, 0x00] + q7;
    let q5b = seq![0x20u8, 0x02] + q6;
    let q5a = seq![0x21u8, 0x00] + q5b;
    let q5 = seq![0x6au8] + q5a;
    let q4 = load_field(pa, 0x0c) + q5;
    let q3 = seq![0x20u8, 0x02] + q4;
    let q2 = seq![0x21u8, 0x02] + q3;
    let q1 = load_field(pa, 0x00) + q2;
    assert((c.count as i32) as int == count);
    reveal_with_fuel(sleb128, 1);
    assert(sleb128(0) =~= seq![0u8]);
    lemma_left_carry_code(c, pa, path_addr);
    assert(seq![0x21u8, 0x02, 0x20, 0x02] + q4 =~= q2);
    assert(seq![0x6au8, 0x21, 0x00, 0x20, 0x02, 0x20, 0x00, 0x2d, 0x00, 0x00, 0x45, 0x45] + (
    seq![0x41u8] + sleb128(count) + q11) =~= q5);
    assert(seq![0x6cu8, 0x6b, 0x21, 0x02, 0x20, 0x02, 0x41, 0x00, 0x48] + q17 =~= q11);
    assert(c.emitted(pa, path_addr) == q1);
    lemma_run_field(pa, 0x00, q2, st, fuel);
    lemma_run_set(2, q3, st, p, fuel);
    let sa = WasmState { locals: st.locals.update(2, p), ..st };
    lemma_run_get(2, q4, sa, fuel);
    lemma_run_field(pa, 0x0c, q5, push(sa, p), fuel);
    lemma_run_binary(0x6a, q5a, sa, p, data, fuel);
    assert(binary(0x6a, p, data) == p + data);
    lemma_run_set(0, q5b, sa, p + data, fuel);
    let sb = WasmState { locals: sa.locals.update(0, p + data), ..sa };
    lemma_run_get(2, q6, sb, fuel);
    lemma_run_get(0, q7, push(sb, p), fuel);
    lemma_run_load8(0x00, q8, push(sb, p), p + data, fuel);
    lemma_run_eqz(q9, push(sb, p), v, fuel);
    lemma_run_eqz(q10, push(sb, p), flag(v == 0), fuel);
    assert(flag(flag(v == 0) == 0) == mask);
    lemma_run_const(count, q11, push(push(sb, p), mask), fuel);
    assert(wrap(count) == count);
    lemma_run_binary(0x6c, q12, push(sb, p), mask, count, fuel);
    assert(binary(0x6c, mask, count) == dist);
    lemma_run_binary(0x6b, q13, sb, p, dist, fuel);
    lemma_run_set(2, q14, sb, w, fuel);
    let sc = WasmState { locals: sb.locals.update(2, w), ..sb };
    lemma_run_get(2, q15, sc, fuel);
    lemma_run_const(0, q16, push(sc, w), fuel);
    assert(wrap(0) == 0);
    lemma_run_binary(0x48, q17, sc, w, 0, fuel);
    let f = flag(signed(w) < signed(0));
    assert(f != 0 <==> p < dist);
    lemma_run_raise_then(0x01, c.source_mapping, path_addr, tail, push(sc, f), fuel);
    lemma_pop_push(sc, f);
    if p >= dist {
        let t = p - dist;
        assert(w == t);
        lemma_run_carry_tail(pa, data, p, t, sc, fuel);
        let after = c.state_after(s);
        let end = m0.update(data + t, ((m0[data + t] + m0[data + p]) % 256) as u8).update(
            data + p,
            0,
        );
        assert(m0[data + t] == s.memory[t]) by {
            assert(m0.subrange(data, data + len)[t] == m0[data + t]);
        }
        assert(end.subrange(data, data + len) =~= after.memory) by {
            assert forall|i: int| 0 <= i < len implies end.subrange(data, data + len)[i]
                == after.memory[i] by {
                assert(m0.subrange(data, data + len)[i] == m0[data + i]);
            }
        }
    }
}

/// Where the code of a move runs to its end: the stack is as it was, the
/// image's data pointer is that of the state `after`, and no byte of
/// linear memory outside the data pointer's four changed.
pub open spec fn ends_with_pointer(
    outcome: WasmOutcome,
    st: WasmState,
    addr: int,
    after: MachineState,
) -> bool {
    &&& outcome is Finished
    &&& outcome->Finished_0.stack == st.stack
    &&& outcome->Finished_0.mem.len() == st.mem.len()
    &&& load32(outcome->Finished_0.mem, addr) == after.pointer
    &&& forall|k: int|
        0 <= k < st.mem.len() && !(addr <= k < addr + 4) ==> #[trigger] outcome->Finished_0.mem[k]
            == st.mem[k]
}

/// Storing local 2 as the data pointer, with `t` in local 2.
proof fn lemma_run_store_pointer(program_addr: i32, st: WasmState, t: int, fuel: nat)
    requires
        0 <= program_addr,
        program_addr + 4 <= st.mem.len(),
        st.locals.len() >= 3,
        st.locals[2] == t,
        0 <= t < 0x8000_0000,
    ensures
        exec(store_pointer(program_addr), st, fuel) == WasmOutcome::Finished(
            WasmState { mem: crate::compiler::wasm::store32(st.mem, program_addr as int, t), ..st },
        ),
{
    let pl = program_addr as int;
    let e = Seq::<u8>::empty();
    let r3 = seq![0x36u8, 0x02, 0x00] + e;
    let r2 = seq![0x20u8, 0x02] + r3;
    assert(store_pointer(program_addr) =~= seq![0x41u8] + sleb128(pl) + r2);
    lemma_run_const(pl, r2, st, fuel);
    assert(wrap(pl) == pl);
    lemma_run_get(2, r3, push(st, pl), fuel);
    lemma_run_store32(0x00, e, st, pl, t, fuel);
    lemma_run_end(WasmState { mem: crate::compiler::wasm::store32(st.mem, pl + 0, t), ..st }, fuel);
}

/// The code of a right move, with its pieces nested to the right.
proof fn lemma_right_code(c: Right, pa: i32, path_addr: i32)
    ensures
        c.emitted(pa, path_addr) == load_field(pa, 0x00) + (signed_const(c.count as i32) + (seq![
            0x6au8,
            0x21,
            0x02,
            0x20,
            0x02,
        ] + (load_field(pa, 0x08) + (seq![0x4eu8] + (raise(0x01, c.source_mapping, path_addr)
            + store_pointer(pa)))))),
{
    let a1 = load_field(pa, 0x00);
    let a2 = signed_const(c.count as i32);
    let b3 = seq![0x6au8, 0x21, 0x02, 0x20, 0x02];
    let a4 = load_field(pa, 0x08);
    let b5 = seq![0x4eu8];
    let a6 = raise(0x01, c.source_mapping, path_addr);
    let a7 = store_pointer(pa);
    assert(c.emitted(pa, path_addr) == a1 + a2 + b3 + a4 + b5 + a6 + a7);
    lemma_assoc(a1 + a2 + b3 + a4 + b5, a6, a7);
    lemma_assoc(a1 + a2 + b3 + a4, b5, a6 + a7);
    lemma_assoc(a1 + a2 + b3, a4, b5 + (a6 + a7));
    lemma_assoc(a1 + a2, b3, a4 + (b5 + (a6 + a7)));
    lemma_assoc(a1, a2, b3 + (a4 + (b5 + (a6 + a7))));
}

/// The code of `>` repeated `count` times, run on an image of a state,
/// does what executing the right move does: it throws the runtime error's
/// tag exactly where `execute` faults, at a target at or past the
/// memory's end, and otherwise sets the image's data pointer `count`
/// cells to the right and changes nothing else. This holds where no
/// address or index reaches 2^31.
#[verifier::spinoff_prover]
#[verifier::rlimit(80)]
pub proof fn lemma_right_runs_as_execute(
    c: Right,
    program_addr: i32,
    path_addr: i32,
    s: MachineState,
    st: WasmState,
    data: int,
    fuel: nat,
)
    requires
        holds_image(st.mem, program_addr as int, data, s),
        fits_i32(c.count),
        s.pointer + c.count < 0x8000_0000,
        st.locals.len() >= 3,
    ensures
        c.result_in(s) is Err ==> exec(c.emitted(program_addr, path_addr), st, fuel)
            == WasmOutcome::Thrown(0),
        c.result_in(s) is Ok ==> ends_with_pointer(
            exec(c.emitted(program_addr, path_addr), st, fuel),
            st,
            program_addr as int,
            c.state_after(s),
        ),
{
    let pa = program_addr;
    let p = s.pointer as int;
    let len = s.memory.len() as int;
    let count = c.count as int;
    let t = p + count;
    let q6 = raise(0x01, c.source_mapping, path_addr) + store_pointer(pa);
    let q5 = seq![0x4eu8] + q6;
    let q4 = load_field(pa, 0x08) + q5;
    let q3c = seq![0x20u8, 0x02] + q4;
    let q3b = seq![0x21u8, 0x02] + q3c;
    let q3 = seq![0x6au8] + q3b;
    let q2 = seq![0x41u8] + sleb128(count) + q3;
    let q1 = load_field(pa, 0x00) + q2;
    assert((c.count as i32) as int == count);
    lemma_right_code(c, pa, path_addr);
    assert(seq![0x6au8, 0x21, 0x02, 0x20, 0x02] + q4 =~= q3);
    assert(c.emitted(pa, path_addr) == q1);
    lemma_run_field(pa, 0x00, q2, st, fuel);
    lemma_run_const(count, q3, push(st, p), fuel);
    assert(wrap(count) == count);
    lemma_run_binary(0x6a, q3b, st, p, count, fuel);
    assert(binary(0x6a, p, count) == t);
    lemma_run_set(2, q3c, st, t, fuel);
    let sa = WasmState { locals: st.locals.update(2, t), ..st };
    lemma_run_get(2, q4, sa, fuel);
    lemma_run_field(pa, 0x08, q5, push(sa, t), fuel);
    lemma_run_binary(0x4e, q6, sa, t, len, fuel);
    let f = flag(signed(t) >= signed(len));
    assert(f != 0 <==> t >= len);
    lemma_run_raise_then(0x01, c.source_mapping, path_addr, store_pointer(pa), push(sa, f), fuel);
    lemma_pop_push(sa, f);
    if t < len {
        lemma_run_store_pointer(pa, sa, t, fuel);
        lemma_store32_load32(st.mem, pa as int, t);
    }
}

/// The code of a left move, with its pieces nested to the right.
proof fn lemma_left_code(c: Left, pa: i32, path_addr: i32)
    ensures
        c.emitted(pa, path_addr) == load_field(pa, 0x00) + (signed_const(c.count as i32) + (seq![
            0x6bu8,
            0x21,
            0x02,
            0x20,
            0x02,
            0x41,
            0x00,
            0x48,
        ] + (raise(0x00, c.source_mapping, path_addr) + store_pointer(pa)))),
{
    let a1 = load_field(pa, 0x00);
    let a2 = signed_const(c.count as i32);
    let b3 = seq![0x6bu8, 0x21, 0x02, 0x20, 0x02, 0x41, 0x00, 0x48];
    let a6 = raise(0x00, c.source_mapping, path_addr);
    let a7 = store_pointer(pa);
    assert(c.emitted(pa, path_addr) == a1 + a2 + b3 + a6 + a7);
    lemma_assoc(a1 + a2 + b3, a6, a7);
    lemma_assoc(a1 + a2, b3, a6 + a7);
    lemma_assoc(a1, a2, b3 + (a6 + a7));
}

/// The code of `<` repeated `count` times, run on an image of a state,
/// does what executing the left move does: it throws the runtime error's
/// tag exactly where `execute` faults, at a target below the memory's
/// first cell, and otherwise sets the image's data pointer `count` cells
/// to the left and changes nothing else. This holds where no address or
/// index reaches 2^31.
#[verifier::spinoff_prover]
#[verifier::rlimit(80)]
pub proof fn lemma_left_runs_as_execute(
    c: Left,
    program_addr: i32,
    path_addr: i32,
    s: MachineState,
    st: WasmState,
    data: int,
    fuel: nat,
)
    requires
        holds_image(st.mem, program_addr as int, data, s),
        s.pointer < s.memory.len(),
        fits_i32(c.count),
        st.locals.len() >= 3,
    ensures
        c.result_in(s) is Err ==> exec(c.emitted(program_addr, path_addr), st, fuel)
            == WasmOutcome::Thrown(0),
        c.result_in(s) is Ok ==> ends_with_pointer(
            exec(c.emitted(program_addr, path_addr), st, fuel),
            st,
            program_addr as int,
            c.state_after(s),
        ),
{
    let pa = program_addr;
    let p = s.pointer as int;
    let count = c.count as int;
    let w = wrap(p - count);
    let q6 = raise(0x00, c.source_mapping, path_addr) + store_pointer(pa);
    let q5 = seq![0x48u8] + q6;
    let q4 = seq![0x41u8] + sleb128(0) + q5;
    let q3d = seq![0x20u8, 0x02] + q4;
    let q3c = seq![0x21u8, 0x02] + q3d;
    let q3 = seq![0x6bu8] + q3c;
    let q2 = seq![0x41u8] + sleb128(count) + q3;
    let q1 = load_field(pa, 0x00) + q2;
    assert((c.count as i32) as int == count);
    reveal_with_fuel(sleb128, 1);
    assert(sleb128(0) =~= seq![0u8]);
    lemma_left_code(c, pa, path_addr);
    assert(seq![0x6bu8, 0x21, 0x02, 0x20, 0x02, 0x41, 0x00, 0x48] + q6 =~= q3);
    assert(c.emitted(pa, path_addr) == q1);
    lemma_run_field(pa, 0x00, q2, st, fuel);
    lemma_run_const(count, q3, push(st, p), fuel);
    assert(wrap(count) == count);
    lemma_run_binary(0x6b, q3c, st, p, count, fuel);
    lemma_run_set(2, q3d, st, w, fuel);
    let sa = WasmState { locals: st.locals.update(2, w), ..st };
    lemma_run_get(2, q4, sa, fuel);
    lemma_run_const(0, q5, push(sa, w), fuel);
    assert(wrap(0) == 0);
    lemma_run_binary(0x48, q6, sa, w, 0, fuel);
    let f = flag(signed(w) < signed(0));
    assert(f != 0 <==> p < count);
    lemma_run_raise_then(0x00, c.source_mapping, path_addr, store_pointer(pa), push(sa, f), fuel);
    lemma_pop_push(sa, f);
    if p >= count {
        assert(w == p - count);
        lemma_run_store_pointer(pa, sa, p - count, fuel);
        lemma_store32_load32(st.mem, pa as int, p - count);
    }
}

/// Pushing the address of the current cell, followed by `rest`.
proof fn lemma_run_cell_address(program_addr: i32, rest: Seq<u8>, st: WasmState, fuel: nat)
    requires
        0 <= program_addr,
        program_addr + 16 <= st.mem.len(),
        load32(st.mem, program_addr as int) + load32(st.mem, program_addr + 12) < 0x8000_0000,
    ensures
        exec(cell_address(program_addr) + rest, st, fuel) == exec(
            rest,
            push(st, load32(st.mem, program_addr as int) + load32(st.mem, program_addr + 12)), fuel,
        ),
{
    let p = load32(st.mem, program_addr as int);
    let d = load32(st.mem, program_addr + 12);
    let r2 = seq![0x6au8] + rest;
    let r1 = load_field(program_addr, 0x0c) + r2;
    assert(cell_address(program_addr) + rest =~= load_field(program_addr, 0x00) + r1);
    lemma_run_field(program_addr, 0x00, r1, st, fuel);
    lemma_run_field(program_addr, 0x0c, r2, push(st, p), fuel);
    lemma_run_binary(0x6a, rest, st, p, d, fuel);
}

/// The code of a change of the current cell by `amount` with `op`
/// (`i32.add` or `i32.sub`), run on an image whose current cell holds `x`:
/// the cell gets `x op amount` in its low eight bits.
proof fn lemma_run_cell_change(
    program_addr: i32,
    amount: u8,
    op: u8,
    s: MachineState,
    st: WasmState,
    data: int,
    fuel: nat,
)
    requires
        op == 0x6a || op == 0x6b,
        holds_image(st.mem, program_addr as int, data, s),
        s.pointer < s.memory.len(),
        st.locals.len() >= 3,
    ensures
        exec(
            cell_address(program_addr) + seq![0x21u8, 0x00, 0x20, 0x00, 0x20, 0x00, 0x2d, 0x00, 0x00]
                + signed_const(amount as i32) + seq![op, 0x3a, 0x00, 0x00],
            st, fuel,
        ) == WasmOutcome::Finished(
            WasmState {
                mem: st.mem.update(
                    data + s.pointer,
                    (binary(op, s.memory[s.pointer as int] as int, amount as int) % 256) as u8,
                ),
                locals: st.locals.update(0, data + s.pointer),
                ..st
            },
        ),
{
    let pa = program_addr;
    let p = s.pointer as int;
    let len = s.memory.len() as int;
    let a = data + p;
    let amt = amount as int;
    let e = Seq::<u8>::empty();
    let r7 = seq![0x3au8, 0x00, 0x00] + e;
    let r6 = seq![op] + r7;
    let r5 = seq![0x41u8] + sleb128(amt) + r6;
    let r4 = seq![0x2du8, 0x00, 0x00] + r5;
    let r3 = seq![0x20u8, 0x00] + r4;
    let r2 = seq![0x20u8, 0x00] + r3;
    let r1 = seq![0x21u8, 0x00] + r2;
    assert((amount as i32) as int == amt);
    assert(cell_address(pa) + seq![0x21u8, 0x00, 0x20, 0x00, 0x20, 0x00, 0x2d, 0x00, 0x00]
        + signed_const(amount as i32) + seq![op, 0x3a, 0x00, 0x00] =~= cell_address(pa) + r1);
    assert(st.mem[a] == s.memory[p]) by {
        assert(st.mem.subrange(data, data + len)[p] == st.mem[a]);
    }
    let x = s.memory[p] as int;
    lemma_run_cell_address(pa, r1, st, fuel);
    lemma_run_set(0, r2, st, a, fuel);
    let sa = WasmState { locals: st.locals.update(0, a), ..st };
    lemma_run_get(0, r3, sa, fuel);
    lemma_run_get(0, r4, push(sa, a), fuel);
    lemma_run_load8(0x00, r5, push(sa, a), a, fuel);
    lemma_run_const(amt, r6, push(push(sa, a), x), fuel);
    assert(wrap(amt) == amt);
    lemma_run_binary(op, r7, push(sa, a), x, amt, fuel);
    lemma_run_store8(0x00, e, sa, a, binary(op, x, amt), fuel);
    lemma_run_end(WasmState { mem: st.mem.update(a + 0, (binary(op, x, amt) % 256) as u8), ..sa }, fuel);
}

/// The cell image after a change: the image of the state whose current
/// cell is `v`, and no byte outside the cells changed.
proof fn lemma_cell_written(st: WasmState, data: int, s: MachineState, v: u8, after: MachineState)
    requires
        0 <= data,
        data + s.memory.len() <= st.mem.len(),
        st.mem.subrange(data, data + s.memory.len()) == s.memory,
        s.pointer < s.memory.len(),
        after.memory == s.memory.update(s.pointer as int, v),
    ensures
        st.mem.update(data + s.pointer, v).subrange(data, data + s.memory.len()) == after.memory,
{
    let len = s.memory.len() as int;
    let m1 = st.mem.update(data + s.pointer, v);
    assert forall|i: int| 0 <= i < len implies m1.subrange(data, data + len)[i]
        == after.memory[i] by {
        assert(st.mem.subrange(data, data + len)[i] == st.mem[data + i]);
    }
    assert(m1.subrange(data, data + len) =~= after.memory);
}

/// The code of `+` repeated `amount` times, run on an image of a state,
/// does what executing the increment does: the current cell gets
/// `amount` added, wrapping at 256, and nothing else changes.
pub proof fn lemma_increment_runs_as_execute(
    c: Increment,
    program_addr: i32,
    path_addr: i32,
    s: MachineState,
    st: WasmState,
    data: int,
    fuel: nat,
)
    requires
        holds_image(st.mem, program_addr as int, data, s),
        s.pointer < s.memory.len(),
        st.locals.len() >= 3,
    ensures
        ends_with_cells(exec(c.emitted(program_addr, path_addr), st, fuel), st, data, c.state_after(s)),
{
    let x = s.memory[s.pointer as int] as int;
    lemma_run_cell_change(program_addr, c.amount, 0x6a, s, st, data, fuel);
    assert(wrap(x + c.amount) == x + c.amount);
    lemma_cell_written(st, data, s, ((x + c.amount) % 256) as u8, c.state_after(s));
}

/// The code of `-` repeated `amount` times, run on an image of a state,
/// does what executing the decrement does: the current cell gets
/// `amount` subtracted, wrapping at 256, and nothing else changes.
pub proof fn lemma_decrement_runs_as_execute(
    c: Decrement,
    program_addr: i32,
    path_addr: i32,
    s: MachineState,
    st: WasmState,
    data: int,
    fuel: nat,
)
    requires
        holds_image(st.mem, program_addr as int, data, s),
        s.pointer < s.memory.len(),
        st.locals.len() >= 3,
    ensures
        ends_with_cells(exec(c.emitted(program_addr, path_addr), st, fuel), st, data, c.state_after(s)),
{
    let x = s.memory[s.pointer as int] as int;
    let amt = c.amount as int;
    lemma_run_cell_change(program_addr, c.amount, 0x6b, s, st, data, fuel);
    assert(wrap(x - amt) % 256 == (x - amt + 256) % 256) by (nonlinear_arith)
        requires
            0 <= x < 256,
            0 <= amt < 256,
            wrap(x - amt) == (x - amt) % 0x1_0000_0000,
    {
        if x - amt >= 0 {
            assert(wrap(x - amt) == x - amt);
        } else {
            assert(wrap(x - amt) == x - amt + 0x1_0000_0000);
        }
    }
    lemma_cell_written(st, data, s, cell_sub(x as u8, c.amount), c.state_after(s));
}

/// The code of `[-]`, run on an image of a state, does what executing it
/// does: the current cell becomes zero and nothing else changes.
pub proof fn lemma_zero_runs_as_execute(
    c: Zero,
    program_addr: i32,
    path_addr: i32,
    s: MachineState,
    st: WasmState,
    data: int,
    fuel: nat,
)
    requires
        holds_image(st.mem, program_addr as int, data, s),
        s.pointer < s.memory.len(),
    ensures
        ends_with_cells(exec(c.emitted(program_addr, path_addr), st, fuel), st, data, c.state_after(s)),
{
    let pa = program_addr;
    let a = data + s.pointer;
    let e = Seq::<u8>::empty();
    let r2 = seq![0x3au8, 0x00, 0x00] + e;
    let r1 = seq![0x41u8] + sleb128(0) + r2;
    reveal_with_fuel(sleb128, 1);
    assert(sleb128(0) =~= seq![0u8]);
    assert(c.emitted(pa, path_addr) =~= cell_address(pa) + r1);
    lemma_run_cell_address(pa, r1, st, fuel);
    lemma_run_const(0, r2, push(st, a), fuel);
    assert(wrap(0) == 0);
    lemma_run_store8(0x00, e, st, a, 0, fuel);
    lemma_run_end(WasmState { mem: st.mem.update(a + 0, 0), ..st }, fuel);
    lemma_cell_written(st, data, s, 0, c.state_after(s));
}

/// The state with local 2 set to `q`.
pub open spec fn with_local2(st: WasmState, q: int) -> WasmState {
    WasmState { locals: st.locals.update(2, q), ..st }
}

/// The body of a scan's loop with the step `step`.
pub open spec fn scan_body(program_addr: i32, step: Seq<u8>) -> Seq<u8> {
    seq![0x20u8, 0x02] + (load_field(program_addr, 0x0c) + (seq![0x6au8] + (seq![0x2du8, 0x00, 0x00]
        + (seq![0x45u8] + (seq![0x0du8, 0x01] + (step + seq![0x0cu8, 0x00]))))))
}

proof fn lemma_transparent_field(program_addr: i32, offset: u8)
    requires
        offset < 128,
    ensures
        transparent(load_field(program_addr, offset)),
{
    lemma_transparent_const(program_addr as int);
    let op = seq![0x28u8, 0x02, offset];
    assert(op_size(op) == 3);
    lemma_transparent_op(op);
    lemma_transparent_concat(seq![0x41u8] + sleb128(program_addr as int), op);
}

proof fn lemma_transparent_raise(code: u8, m: SourceMapping, path_addr: i32)
    requires
        code < 64,
    ensures
        transparent(raise(code, m, path_addr)),
{
    lemma_raise_shape(code, m, path_addr);
    let r = raise(code, m, path_addr);
    let c0 = seq![0x41u8] + sleb128(code as int);
    let c1 = signed_const(m.line as i32);
    let c2 = signed_const(m.column as i32);
    let c3 = signed_const(path_addr);
    let c4 = signed_const(crate::instruction::emit::path_length(m));
    let t = seq![0x08u8, 0x00] + Seq::<u8>::empty();
    lemma_transparent_const(code as int);
    lemma_transparent_const(m.line as i32 as int);
    lemma_transparent_const(m.column as i32 as int);
    lemma_transparent_const(path_addr as int);
    lemma_transparent_const(crate::instruction::emit::path_length(m) as int);
    assert(op_size(t) == 2);
    lemma_transparent_op(t);
    lemma_transparent_concat(c4, t);
    lemma_transparent_concat(c3, c4 + t);
    lemma_transparent_concat(c2, c3 + (c4 + t));
    lemma_transparent_concat(c1, c2 + (c3 + (c4 + t)));
    let inner = c0 + (c1 + (c2 + (c3 + (c4 + t))));
    lemma_transparent_concat(c0, c1 + (c2 + (c3 + (c4 + t))));
    lemma_transparent_block(0x04, inner);
    assert(r =~= seq![0x04u8, 0x40] + inner + seq![0x0bu8]);
}

proof fn lemma_transparent_scan_body(program_addr: i32, step: Seq<u8>)
    requires
        transparent(step),
    ensures
        transparent(scan_body(program_addr, step)),
{
    let g = seq![0x20u8, 0x02];
    let a = seq![0x6au8];
    let l = seq![0x2du8, 0x00, 0x00];
    let z = seq![0x45u8];
    let bi = seq![0x0du8, 0x01];
    let br = seq![0x0cu8, 0x00];
    assert(op_size(g) == 2);
    assert(op_size(a) == 1);
    assert(op_size(l) == 3);
    assert(op_size(z) == 1);
    assert(op_size(bi) == 2);
    assert(op_size(br) == 2);
    lemma_transparent_op(g);
    lemma_transparent_op(a);
    lemma_transparent_op(l);
    lemma_transparent_op(z);
    lemma_transparent_op(bi);
    lemma_transparent_op(br);
    lemma_transparent_field(program_addr, 0x0c);
    lemma_transparent_concat(step, br);
    lemma_transparent_concat(bi, step + br);
    lemma_transparent_concat(z, bi + (step + br));
    lemma_transparent_concat(l, z + (bi + (step + br)));
    lemma_transparent_concat(a, l + (z + (bi + (step + br))));
    lemma_transparent_concat(load_field(program_addr, 0x0c), a + (l + (z + (bi + (step + br)))));
    lemma_transparent_concat(g, load_field(program_addr, 0x0c) + (a + (l + (z + (bi + (step + br))))));
}

/// A scan's code, around its loop.
#[verifier::spinoff_prover]
#[verifier::rlimit(80)]
proof fn lemma_scan_shape(program_addr: i32, step: Seq<u8>)
    ensures
        scan_code(program_addr, step) == load_field(program_addr, 0x00) + (seq![0x21u8, 0x02] + (
        seq![0x02u8, 0x40] + (seq![0x03u8, 0x40] + scan_body(program_addr, step) + seq![0x0bu8])
            + seq![0x0bu8] + store_pointer(program_addr))),
{
    let pa = program_addr;
    let a1 = load_field(pa, 0x00);
    let b2 = seq![0x21u8, 0x02, 0x02, 0x40, 0x03, 0x40, 0x20, 0x02];
    let a3 = load_field(pa, 0x0c);
    let b4 = seq![0x6au8, 0x2d, 0x00, 0x00, 0x45, 0x0d, 0x01];
    let b6 = seq![0x0cu8, 0x00, 0x0b, 0x0b];
    let a7 = store_pointer(pa);
    assert(scan_code(pa, step) == a1 + b2 + a3 + b4 + step + b6 + a7);
    lemma_assoc(a1 + b2 + a3 + b4 + step, b6, a7);
    lemma_assoc(a1 + b2 + a3 + b4, step, b6 + a7);
    lemma_assoc(a1 + b2 + a3, b4, step + (b6 + a7));
    lemma_assoc(a1 + b2, a3, b4 + (step + (b6 + a7)));
    lemma_assoc(a1, b2, a3 + (b4 + (step + (b6 + a7))));
    let x = a3 + (b4 + (step + (b6 + a7)));
    let body = scan_body(pa, step);
    let lp = seq![0x03u8, 0x40] + body + seq![0x0bu8];
    let rhs = seq![0x21u8, 0x02] + (seq![0x02u8, 0x40] + lp + seq![0x0bu8] + a7);
    assert(b4 + (step + (b6 + a7)) =~= seq![0x6au8] + (seq![0x2du8, 0x00, 0x00] + (seq![0x45u8] + (
    seq![0x0du8, 0x01] + (step + seq![0x0cu8, 0x00])))) + seq![0x0bu8, 0x0b] + a7);
    assert(b2 + x =~= rhs);
}

/// One turn of a scan's loop, up to its step: where the cell at local 2
/// is zero, it branches out of the loop's block; otherwise the step
/// runs.
#[verifier::spinoff_prover]
#[verifier::rlimit(80)]
proof fn lemma_run_scan_body(
    program_addr: i32,
    step: Seq<u8>,
    s: MachineState,
    st: WasmState,
    data: int,
    q: int,
    fuel: nat,
)
    requires
        holds_image(st.mem, program_addr as int, data, s),
        0 <= q < s.memory.len(),
        st.locals.len() >= 3,
    ensures
        exec(scan_body(program_addr, step), with_local2(st, q), fuel) == if s.memory[q] == 0 {
            WasmOutcome::Branch(1, with_local2(st, q))
        } else {
            exec(step + seq![0x0cu8, 0x00], with_local2(st, q), fuel)
        },
{
    let pa = program_addr;
    let sq = with_local2(st, q);
    let len = s.memory.len() as int;
    let r6 = step + seq![0x0cu8, 0x00];
    let r5 = seq![0x0du8, 0x01] + r6;
    let r4 = seq![0x45u8] + r5;
    let r3 = seq![0x2du8, 0x00, 0x00] + r4;
    let r2 = seq![0x6au8] + r3;
    let r1 = load_field(pa, 0x0c) + r2;
    assert(st.mem[data + q] == s.memory[q]) by {
        assert(st.mem.subrange(data, data + len)[q] == st.mem[data + q]);
    }
    lemma_run_get(2, r1, sq, fuel);
    lemma_run_field(pa, 0x0c, r2, push(sq, q), fuel);
    lemma_run_binary(0x6a, r3, sq, q, data, fuel);
    assert(binary(0x6a, q, data) == data + q);
    lemma_run_load8(0x00, r4, sq, data + q, fuel);
    lemma_run_eqz(r5, sq, s.memory[q] as int, fuel);
    lemma_run_br_if(0x01, r6, sq, flag(s.memory[q] == 0), fuel);
}

/// A scan's code runs its loop from the data pointer, and, where the loop
/// leaves its block, stores local 2 as the data pointer.
#[verifier::spinoff_prover]
#[verifier::rlimit(80)]
proof fn lemma_run_scan_frame(
    program_addr: i32,
    step: Seq<u8>,
    s: MachineState,
    st: WasmState,
    data: int,
    fuel: nat,
)
    requires
        holds_image(st.mem, program_addr as int, data, s),
        transparent(step),
        st.locals.len() >= 3,
    ensures
        run_loop(scan_body(program_addr, step), with_local2(st, s.pointer as int), fuel) matches WasmOutcome::Branch(
            d,
            next,
        ) ==> (d == 1 ==> exec(scan_code(program_addr, step), st, fuel) == exec(
            store_pointer(program_addr),
            next,
            fuel,
        )),
        run_loop(scan_body(program_addr, step), with_local2(st, s.pointer as int), fuel) is Thrown
            ==> exec(scan_code(program_addr, step), st, fuel) == run_loop(
            scan_body(program_addr, step),
            with_local2(st, s.pointer as int),
            fuel,
        ),
{
    let pa = program_addr;
    let p = s.pointer as int;
    let body = scan_body(pa, step);
    let lp = seq![0x03u8, 0x40] + body + seq![0x0bu8];
    let a7 = store_pointer(pa);
    let outer = seq![0x02u8, 0x40] + lp + seq![0x0bu8] + a7;
    lemma_scan_shape(pa, step);
    lemma_transparent_scan_body(pa, step);
    lemma_transparent_block(0x03, body);
    lemma_run_field(pa, 0x00, seq![0x21u8, 0x02] + outer, st, fuel);
    lemma_run_set(2, outer, st, p, fuel);
    let sp = with_local2(st, p);
    lemma_run_block(0x02, lp, a7, sp, fuel);
    assert(lp =~= lp + Seq::<u8>::empty());
    lemma_run_block(0x03, body, Seq::<u8>::empty(), sp, fuel);
}

proof fn lemma_transparent_right_scan_step(program_addr: i32, m: SourceMapping, path_addr: i32)
    ensures
        transparent(right_scan_step(program_addr, m, path_addr)),
{
    let g = seq![0x20u8, 0x02];
    let one = seq![0x41u8] + sleb128(1);
    let a = seq![0x6au8];
    let t = seq![0x21u8, 0x02];
    let c = seq![0x4eu8];
    reveal_with_fuel(sleb128, 1);
    assert(sleb128(1) =~= seq![1u8]);
    assert(op_size(g) == 2);
    assert(op_size(a) == 1);
    assert(op_size(t) == 2);
    assert(op_size(c) == 1);
    lemma_transparent_op(g);
    lemma_transparent_op(a);
    lemma_transparent_op(t);
    lemma_transparent_op(c);
    lemma_transparent_const(1);
    lemma_transparent_field(program_addr, 0x08);
    lemma_transparent_raise(0x01, m, path_addr);
    lemma_transparent_concat(g, one);
    lemma_transparent_concat(g + one, a);
    lemma_transparent_concat(g + one + a, t);
    lemma_transparent_concat(g + one + a + t, g);
    let lit = g + one + a + t + g;
    assert(lit =~= seq![0x20u8, 0x02, 0x41, 0x01, 0x6a, 0x21, 0x02, 0x20, 0x02]);
    lemma_transparent_concat(lit, load_field(program_addr, 0x08));
    lemma_transparent_concat(lit + load_field(program_addr, 0x08), c);
    lemma_transparent_concat(lit + load_field(program_addr, 0x08) + c, raise(0x01, m, path_addr));
}

/// The step of `[>]` from local 2 holding `q`: the next cell, or the
/// runtime error where that is the memory's end; then a branch to the
/// loop.
#[verifier::spinoff_prover]
#[verifier::rlimit(80)]
proof fn lemma_run_right_scan_step(
    program_addr: i32,
    m: SourceMapping,
    path_addr: i32,
    s: MachineState,
    st: WasmState,
    data: int,
    q: int,
    fuel: nat,
)
    requires
        holds_image(st.mem, program_addr as int, data, s),
        0 <= q < s.memory.len(),
        st.locals.len() >= 3,
    ensures
        exec(right_scan_step(program_addr, m, path_addr) + seq![0x0cu8, 0x00], with_local2(st, q), fuel)
            == if q + 1 >= s.memory.len() {
            WasmOutcome::Thrown(0)
        } else {
            WasmOutcome::Branch(0, with_local2(st, q + 1))
        },
{
    let pa = program_addr;
    let len = s.memory.len() as int;
    let sq = with_local2(st, q);
    let br = seq![0x0cu8, 0x00];
    let r8 = raise(0x01, m, path_addr) + br;
    let r7 = seq![0x4eu8] + r8;
    let r6 = load_field(pa, 0x08) + r7;
    let r5 = seq![0x20u8, 0x02] + r6;
    let r4 = seq![0x21u8, 0x02] + r5;
    let r3 = seq![0x6au8] + r4;
    let r2 = seq![0x41u8] + sleb128(1) + r3;
    let r1 = seq![0x20u8, 0x02] + r2;
    reveal_with_fuel(sleb128, 1);
    assert(sleb128(1) =~= seq![1u8]);
    assert(right_scan_step(pa, m, path_addr) + br =~= r1);
    lemma_run_get(2, r2, sq, fuel);
    lemma_run_const(1, r3, push(sq, q), fuel);
    assert(wrap(1) == 1);
    lemma_run_binary(0x6a, r4, sq, q, 1, fuel);
    assert(binary(0x6a, q, 1) == q + 1);
    lemma_run_set(2, r5, sq, q + 1, fuel);
    let sn = with_local2(st, q + 1);
    assert(sq.locals.update(2, q + 1) =~= sn.locals);
    lemma_run_get(2, r6, sn, fuel);
    lemma_run_field(pa, 0x08, r7, push(sn, q + 1), fuel);
    lemma_run_binary(0x4e, r8, sn, q + 1, len, fuel);
    let f = flag(signed(q + 1) >= signed(len));
    assert(f != 0 <==> q + 1 >= len);
    lemma_run_raise_then(0x01, m, path_addr, br, push(sn, f), fuel);
    lemma_pop_push(sn, f);
    lemma_run_br(0x00, Seq::<u8>::empty(), sn, fuel);
    assert(br =~= br + Seq::<u8>::empty());
}

/// The loop of `[>]` from local 2 holding `q`: it leaves its block with
/// local 2 at the first zero cell from `q` on, or throws where there is
/// none.
#[verifier::spinoff_prover]
#[verifier::rlimit(80)]
proof fn lemma_right_scan_loop(
    program_addr: i32,
    m: SourceMapping,
    path_addr: i32,
    s: MachineState,
    st: WasmState,
    data: int,
    q: int,
    fuel: nat,
)
    requires
        holds_image(st.mem, program_addr as int, data, s),
        0 <= q < s.memory.len(),
        fuel >= s.memory.len() - q,
        st.locals.len() >= 3,
    ensures
        run_loop(scan_body(program_addr, right_scan_step(program_addr, m, path_addr)), with_local2(st, q), fuel)
            == match first_zero_from(s.memory, q) {
            Some(z) => WasmOutcome::Branch(1, with_local2(st, z)),
            None => WasmOutcome::Thrown(0),
        },
    decreases s.memory.len() - q,
{
    let step = right_scan_step(program_addr, m, path_addr);
    let body = scan_body(program_addr, step);
    let sq = with_local2(st, q);
    lemma_run_loop(body, sq, fuel);
    lemma_run_scan_body(program_addr, step, s, st, data, q, fuel);
    if s.memory[q] != 0 {
        lemma_run_right_scan_step(program_addr, m, path_addr, s, st, data, q, fuel);
        assert(first_zero_from(s.memory, q) == first_zero_from(s.memory, q + 1));
        if q + 1 < s.memory.len() {
            lemma_right_scan_loop(program_addr, m, path_addr, s, st, data, q + 1, (fuel - 1) as nat);
        }
    }
}

/// The code of `[>]`, run on an image of a state with enough turns of its
/// loop allowed, does what executing the right scan does: it sets the
/// image's data pointer to the first zero cell at or after it and changes
/// nothing else, and it throws the runtime error's tag exactly where
/// there is no such cell, where `execute` faults.
#[verifier::spinoff_prover]
#[verifier::rlimit(80)]
pub proof fn lemma_right_scan_runs_as_execute(
    c: RightScan,
    program_addr: i32,
    path_addr: i32,
    s: MachineState,
    st: WasmState,
    data: int,
    fuel: nat,
)
    requires
        holds_image(st.mem, program_addr as int, data, s),
        s.pointer < s.memory.len(),
        fuel >= s.memory.len(),
        st.locals.len() >= 3,
    ensures
        c.result_in(s) is Err ==> exec(c.emitted(program_addr, path_addr), st, fuel)
            == WasmOutcome::Thrown(0),
        c.result_in(s) is Ok ==> ends_with_pointer(
            exec(c.emitted(program_addr, path_addr), st, fuel),
            st,
            program_addr as int,
            c.state_after(s),
        ),
{
    let step = right_scan_step(program_addr, c.source_mapping, path_addr);
    let p = s.pointer as int;
    lemma_transparent_right_scan_step(program_addr, c.source_mapping, path_addr);
    lemma_right_scan_loop(program_addr, c.source_mapping, path_addr, s, st, data, p, fuel);
    lemma_run_scan_frame(program_addr, step, s, st, data, fuel);
    lemma_first_zero_from(s.memory, p);
    if let Some(z) = first_zero_from(s.memory, p) {
        lemma_run_store_pointer(program_addr, with_local2(st, z), z, fuel);
        lemma_store32_load32(st.mem, program_addr as int, z);
    }
}

proof fn lemma_transparent_left_scan_step(m: SourceMapping, path_addr: i32)
    ensures
        transparent(left_scan_step(m, path_addr)),
{
    let g = seq![0x20u8, 0x02];
    let zero = seq![0x41u8] + sleb128(0);
    let one = seq![0x41u8] + sleb128(1);
    let le = seq![0x4cu8];
    let sub = seq![0x6bu8];
    let t = seq![0x21u8, 0x02];
    reveal_with_fuel(sleb128, 1);
    assert(sleb128(0) =~= seq![0u8]);
    assert(sleb128(1) =~= seq![1u8]);
    assert(op_size(g) == 2);
    assert(op_size(le) == 1);
    assert(op_size(sub) == 1);
    assert(op_size(t) == 2);
    lemma_transparent_op(g);
    lemma_transparent_op(le);
    lemma_transparent_op(sub);
    lemma_transparent_op(t);
    lemma_transparent_const(0);
    lemma_transparent_const(1);
    lemma_transparent_raise(0x01, m, path_addr);
    lemma_transparent_concat(g, zero);
    lemma_transparent_concat(g + zero, le);
    let head = g + zero + le;
    assert(head =~= seq![0x20u8, 0x02, 0x41, 0x00, 0x4c]);
    lemma_transparent_concat(g, one);
    lemma_transparent_concat(g + one, sub);
    lemma_transparent_concat(g + one + sub, t);
    let tail = g + one + sub + t;
    assert(tail =~= seq![0x20u8, 0x02, 0x41, 0x01, 0x6b, 0x21, 0x02]);
    lemma_transparent_concat(head, raise(0x01, m, path_addr));
    lemma_transparent_concat(head + raise(0x01, m, path_addr), tail);
}

/// The step of `[<]` from local 2 holding `q`: the runtime error on the
/// first cell, else the cell before; then a branch to the loop.
#[verifier::spinoff_prover]
#[verifier::rlimit(80)]
proof fn lemma_run_left_scan_step(
    m: SourceMapping,
    path_addr: i32,
    s: MachineState,
    st: WasmState,
    q: int,
    fuel: nat,
)
    requires
        0 <= q < 0x8000_0000,
        st.locals.len() >= 3,
    ensures
        exec(left_scan_step(m, path_addr) + seq![0x0cu8, 0x00], with_local2(st, q), fuel) == if q
            == 0 {
            WasmOutcome::Thrown(0)
        } else {
            WasmOutcome::Branch(0, with_local2(st, q - 1))
        },
{
    let sq = with_local2(st, q);
    let br = seq![0x0cu8, 0x00];
    let r8 = seq![0x21u8, 0x02] + br;
    let r7 = seq![0x6bu8] + r8;
    let r6 = seq![0x41u8] + sleb128(1) + r7;
    let r5 = seq![0x20u8, 0x02] + r6;
    let r4 = raise(0x01, m, path_addr) + r5;
    let r3 = seq![0x4cu8] + r4;
    let r2 = seq![0x41u8] + sleb128(0) + r3;
    let r1 = seq![0x20u8, 0x02] + r2;
    reveal_with_fuel(sleb128, 1);
    assert(sleb128(0) =~= seq![0u8]);
    assert(sleb128(1) =~= seq![1u8]);
    assert(left_scan_step(m, path_addr) + br =~= r1);
    lemma_run_get(2, r2, sq, fuel);
    lemma_run_const(0, r3, push(sq, q), fuel);
    assert(wrap(0) == 0);
    lemma_run_binary(0x4c, r4, sq, q, 0, fuel);
    let f = flag(signed(q) <= signed(0));
    assert(f != 0 <==> q == 0);
    lemma_run_raise_then(0x01, m, path_addr, r5, push(sq, f), fuel);
    lemma_pop_push(sq, f);
    if q != 0 {
        lemma_run_get(2, r6, sq, fuel);
        lemma_run_const(1, r7, push(sq, q), fuel);
        assert(wrap(1) == 1);
        lemma_run_binary(0x6b, r8, sq, q, 1, fuel);
        assert(binary(0x6b, q, 1) == q - 1);
        lemma_run_set(2, br, sq, q - 1, fuel);
        let sn = with_local2(st, q - 1);
        assert(sq.locals.update(2, q - 1) =~= sn.locals);
        lemma_run_br(0x00, Seq::<u8>::empty(), sn, fuel);
        assert(br =~= br + Seq::<u8>::empty());
    }
}

/// The loop of `[<]` from local 2 holding `q`: it leaves its block with
/// local 2 at the last zero cell up to `q`, or throws where there is none.
#[verifier::spinoff_prover]
#[verifier::rlimit(80)]
proof fn lemma_left_scan_loop(
    program_addr: i32,
    m: SourceMapping,
    path_addr: i32,
    s: MachineState,
    st: WasmState,
    data: int,
    q: int,
    fuel: nat,
)
    requires
        holds_image(st.mem, program_addr as int, data, s),
        0 <= q < s.memory.len(),
        fuel >= q + 1,
        st.locals.len() >= 3,
    ensures
        run_loop(scan_body(program_addr, left_scan_step(m, path_addr)), with_local2(st, q), fuel)
            == match last_zero_upto(s.memory, q) {
            Some(z) => WasmOutcome::Branch(1, with_local2(st, z)),
            None => WasmOutcome::Thrown(0),
        },
    decreases q,
{
    let step = left_scan_step(m, path_addr);
    let body = scan_body(program_addr, step);
    let sq = with_local2(st, q);
    lemma_run_loop(body, sq, fuel);
    lemma_run_scan_body(program_addr, step, s, st, data, q, fuel);
    if s.memory[q] != 0 {
        lemma_run_left_scan_step(m, path_addr, s, st, q, fuel);
        assert(last_zero_upto(s.memory, q) == last_zero_upto(s.memory, q - 1));
        if q > 0 {
            lemma_left_scan_loop(program_addr, m, path_addr, s, st, data, q - 1, (fuel - 1) as nat);
        }
    }
}

/// The code of `[<]`, run on an image of a state with enough turns of its
/// loop allowed, does what executing the left scan does: it sets the
/// image's data pointer to the last zero cell at or before it and changes
/// nothing else, and it throws the runtime error's tag exactly where
/// there is no such cell, where `execute` faults.
#[verifier::spinoff_prover]
#[verifier::rlimit(80)]
pub proof fn lemma_left_scan_runs_as_execute(
    c: LeftScan,
    program_addr: i32,
    path_addr: i32,
    s: MachineState,
    st: WasmState,
    data: int,
    fuel: nat,
)
    requires
        holds_image(st.mem, program_addr as int, data, s),
        s.pointer < s.memory.len(),
        fuel >= s.memory.len(),
        st.locals.len() >= 3,
    ensures
        c.result_in(s) is Err ==> exec(c.emitted(program_addr, path_addr), st, fuel)
            == WasmOutcome::Thrown(0),
        c.result_in(s) is Ok ==> ends_with_pointer(
            exec(c.emitted(program_addr, path_addr), st, fuel),
            st,
            program_addr as int,
            c.state_after(s),
        ),
{
    let step = left_scan_step(c.source_mapping, path_addr);
    let p = s.pointer as int;
    lemma_transparent_left_scan_step(c.source_mapping, path_addr);
    lemma_left_scan_loop(program_addr, c.source_mapping, path_addr, s, st, data, p, fuel);
    lemma_run_scan_frame(program_addr, step, s, st, data, fuel);
    lemma_last_zero_upto(s.memory, p);
    if let Some(z) = last_zero_upto(s.memory, p) {
        lemma_run_store_pointer(program_addr, with_local2(st, z), z, fuel);
        lemma_store32_load32(st.mem, program_addr as int, z);
    }
}

/// Reads whose bytes are dropped, followed by `rest`: `rest` runs with
/// `count` fewer bytes to come.
proof fn lemma_run_discarded_reads(count: nat, rest: Seq<u8>, st: WasmState, fuel: nat)
    requires
        st.input.len() >= count,
    ensures
        exec(discarded_reads(count) + rest, st, fuel) == exec(
            rest,
            WasmState { input: st.input.skip(count as int), ..st },
            fuel,
        ),
    decreases count,
{
    if count == 0 {
        assert(discarded_reads(0) + rest =~= rest);
        assert(st.input.skip(0) =~= st.input);
    } else {
        let k = (count - 1) as nat;
        let one = seq![0x10u8, 0x00, 0x1a];
        lemma_assoc(discarded_reads(k), one, rest);
        lemma_run_discarded_reads(k, one + rest, st, fuel);
        let sk = WasmState { input: st.input.skip(k as int), ..st };
        assert(one + rest =~= seq![0x10u8, 0x00] + (seq![0x1au8] + rest));
        lemma_run_read(seq![0x1au8] + rest, sk, fuel);
        let b = sk.input[0] as int;
        let sr = WasmState { input: sk.input.drop_first(), ..push(sk, b) };
        assert(sr == push(WasmState { input: sk.input.drop_first(), ..sk }, b));
        lemma_run_drop(rest, WasmState { input: sk.input.drop_first(), ..sk }, b, fuel);
        assert(sk.input.drop_first() =~= st.input.skip(count as int));
    }
}

/// The code of `,` repeated `count` times, run on an image of a state,
/// does what executing the input together with storing what it reads
/// does: it takes exactly `count` bytes of input and leaves the last of
/// them in the current cell, the other cells and the rest of linear
/// memory unchanged; with `count` zero it does nothing.
#[verifier::spinoff_prover]
#[verifier::rlimit(80)]
pub proof fn lemma_input_runs_as_execute(
    c: Input,
    program_addr: i32,
    path_addr: i32,
    s: MachineState,
    st: WasmState,
    data: int,
    fuel: nat,
)
    requires
        holds_image(st.mem, program_addr as int, data, s),
        s.pointer < s.memory.len(),
        st.input.len() >= c.count,
    ensures
        c.count == 0 ==> exec(c.emitted(program_addr, path_addr), st, fuel) == WasmOutcome::Finished(
            st,
        ),
        c.count > 0 ==> ends_with_cells(
            exec(c.emitted(program_addr, path_addr), st, fuel),
            st,
            data,
            with_cell(c.state_after(s), st.input[c.count - 1]),
        ),
        c.count > 0 ==> exec(c.emitted(program_addr, path_addr), st, fuel)->Finished_0.input
            == st.input.skip(c.count as int),
{
    let pa = program_addr;
    let n = c.count as int;
    if n == 0 {
        lemma_run_end(st, fuel);
    } else {
        let k = (n - 1) as nat;
        let a = data + s.pointer;
        let e = Seq::<u8>::empty();
        let r3 = seq![0x3au8, 0x00, 0x00] + e;
        let r2 = seq![0x10u8, 0x00] + r3;
        let r1 = cell_address(pa) + r2;
        assert(c.emitted(pa, path_addr) =~= discarded_reads(k) + r1);
        lemma_run_discarded_reads(k, r1, st, fuel);
        let sk = WasmState { input: st.input.skip(k as int), ..st };
        lemma_run_cell_address(pa, r2, sk, fuel);
        lemma_run_read(r3, push(sk, a), fuel);
        let b = sk.input[0];
        assert(b == st.input[n - 1]);
        let sd = WasmState { input: sk.input.drop_first(), ..sk };
        assert(WasmState { input: sk.input.drop_first(), ..push(push(sk, a), b as int) } == push(
            push(sd, a),
            b as int,
        ));
        lemma_run_store8(0x00, e, sd, a, b as int, fuel);
        lemma_run_end(WasmState { mem: sd.mem.update(a + 0, ((b as int) % 256) as u8), ..sd }, fuel);
        assert(sk.input.drop_first() =~= st.input.skip(n));
        lemma_cell_written(st, data, s, b, with_cell(c.state_after(s), b));
    }
}

} // verus!
