//! Instructions that stand for whole loops of the source.

use vstd::prelude::*;

use crate::instruction::commands::{cell_add, with_cell};
use crate::instruction::emit::{
    cell_address, fits_i32, load_field, mapping_encodable, mapping_fits, put, put_cell_address,
    put_load_field, put_raise, put_signed_const, put_store_pointer, raise, signed_const,
    store_pointer,
};
use crate::instruction::{advance, runnable, Effect, Instruction, MemoryFault};
use crate::program::{lemma_first_zero_from, lemma_last_zero_upto, MachineState, Program};
use crate::tokeniser::SourceMapping;

verus! {

/// `[>]`: moves right to the nearest zero cell.
#[derive(Debug, PartialEq)]
pub struct RightScan {
    pub source_mapping: SourceMapping,
}

/// `[<]`: moves left to the nearest zero cell.
#[derive(Debug, PartialEq)]
pub struct LeftScan {
    pub source_mapping: SourceMapping,
}

/// `[-]`: sets the current cell to zero.
#[derive(Debug, PartialEq)]
pub struct Zero;

/// `[->+<]` with `count` moves each way: adds the current cell to the
/// cell `count` to the right and clears it.
#[derive(Debug, PartialEq)]
pub struct RightCarry {
    pub count: usize,
    pub source_mapping: SourceMapping,
}

/// `[-<+>]` with `count` moves each way: adds the current cell to the
/// cell `count` to the left and clears it.
#[derive(Debug, PartialEq)]
pub struct LeftCarry {
    pub count: usize,
    pub source_mapping: SourceMapping,
}

impl Clone for RightScan {
    fn clone(&self) -> (r: Self)
        ensures
            r == *self,
    {
        RightScan { source_mapping: self.source_mapping.clone() }
    }
}

impl Clone for LeftScan {
    fn clone(&self) -> (r: Self)
        ensures
            r == *self,
    {
        LeftScan { source_mapping: self.source_mapping.clone() }
    }
}

impl Clone for RightCarry {
    fn clone(&self) -> (r: Self)
        ensures
            r == *self,
    {
        RightCarry { count: self.count, source_mapping: self.source_mapping.clone() }
    }
}

impl Clone for LeftCarry {
    fn clone(&self) -> (r: Self)
        ensures
            r == *self,
    {
        LeftCarry { count: self.count, source_mapping: self.source_mapping.clone() }
    }
}

/// The index of the first zero cell of `m` at or after `p`, if any.
pub open spec fn first_zero_from(m: Seq<u8>, p: int) -> Option<int>
    decreases m.len() - p,
{
    if p < 0 || p >= m.len() {
        None
    } else if m[p] == 0 {
        Some(p)
    } else {
        first_zero_from(m, p + 1)
    }
}

/// The index of the last zero cell of `m` at or before `p`, if any.
pub open spec fn last_zero_upto(m: Seq<u8>, p: int) -> Option<int>
    decreases p + 1,
{
    if p < 0 || p >= m.len() {
        None
    } else if m[p] == 0 {
        Some(p)
    } else {
        last_zero_upto(m, p - 1)
    }
}

/// The state `s` after the current cell's value `v` was added to the
/// cell at `target` and the current cell was cleared.
pub open spec fn carried(s: MachineState, target: int) -> MachineState {
    let v = s.memory[s.pointer as int];
    advance(
        MachineState {
            memory: s.memory.update(target, cell_add(s.memory[target], v)).update(
                s.pointer as int,
                0,
            ),
            ..s
        },
    )
}

/// How far a carry moves the current cell's value: `count` when the cell
/// is not zero, else nowhere.
pub open spec fn carry_distance(s: MachineState, count: usize) -> int {
    if s.memory[s.pointer as int] != 0 {
        count as int
    } else {
        0
    }
}

/// The scanning loop shared by the two scans. Local 2 starts as the data
/// pointer; the loop ends when the cell it points at is zero, and `step`
/// moves it by one cell, raising a fault where it would leave the memory.
/// Local 2 is then stored as the data pointer.
pub open spec fn scan_code(program_addr: i32, step: Seq<u8>) -> Seq<u8> {
    load_field(program_addr, 0x00) + seq![0x21u8, 0x02, 0x02, 0x40, 0x03, 0x40, 0x20, 0x02]
        + load_field(program_addr, 0x0c) + seq![0x6au8, 0x2d, 0x00, 0x00, 0x45, 0x0d, 0x01] + step
        + seq![0x0cu8, 0x00, 0x0b, 0x0b] + store_pointer(program_addr)
}

/// The step of `[>]`: one cell to the right, with an overflow raised when
/// that reaches the memory's length.
pub open spec fn right_scan_step(program_addr: i32, m: SourceMapping, path_addr: i32) -> Seq<
    u8,
> {
    seq![0x20u8, 0x02, 0x41, 0x01, 0x6a, 0x21, 0x02, 0x20, 0x02] + load_field(program_addr, 0x08)
        + seq![0x4eu8] + raise(0x01, m, path_addr)
}

/// The step of `[<]`: an overflow raised on the first cell, else one cell
/// to the left.
pub open spec fn left_scan_step(m: SourceMapping, path_addr: i32) -> Seq<u8> {
    seq![0x20u8, 0x02, 0x41, 0x00, 0x4c] + raise(0x01, m, path_addr) + seq![
        0x20u8,
        0x02,
        0x41,
        0x01,
        0x6b,
        0x21,
        0x02,
    ]
}

/// The end of both carries: adds the source cell to the target cell,
/// whose index is in local 2, and clears the source cell, whose address
/// is in local 0.
pub open spec fn carry_tail(program_addr: i32) -> Seq<u8> {
    seq![0x20u8, 0x02] + load_field(program_addr, 0x0c) + seq![0x6au8, 0x20, 0x02] + load_field(
        program_addr,
        0x0c,
    ) + seq![
        0x6au8,
        0x2d,
        0x00,
        0x00,
        0x20,
        0x00,
        0x2d,
        0x00,
        0x00,
        0x6a,
        0x3a,
        0x00,
        0x00,
        0x20,
        0x00,
        0x41,
        0x00,
        0x3a,
        0x00,
        0x00,
    ]
}

fn put_scan_head(result: &mut Vec<u8>, program_addr: i32)
    ensures
        final(result)@ == old(result)@ + load_field(program_addr, 0x00) + seq![
            0x21u8,
            0x02,
            0x02,
            0x40,
            0x03,
            0x40,
            0x20,
            0x02,
        ] + load_field(program_addr, 0x0c) + seq![0x6au8, 0x2d, 0x00, 0x00, 0x45, 0x0d, 0x01],
{
    // the data pointer, kept in local 2
    put_load_field(result, program_addr, 0x00);
    put(result, &[0x21, 0x02]);
    // block, loop: break out when the cell at local 2 is zero
    put(result, &[0x02, 0x40, 0x03, 0x40, 0x20, 0x02]);
    put_load_field(result, program_addr, 0x0c);
    put(result, &[0x6a, 0x2d, 0x00, 0x00, 0x45, 0x0d, 0x01]);
    assert(result@ =~= old(result)@ + load_field(program_addr, 0x00) + seq![
        0x21u8,
        0x02,
        0x02,
        0x40,
        0x03,
        0x40,
        0x20,
        0x02,
    ] + load_field(program_addr, 0x0c) + seq![0x6au8, 0x2d, 0x00, 0x00, 0x45, 0x0d, 0x01]);
}

fn put_carry_tail(result: &mut Vec<u8>, program_addr: i32)
    ensures
        final(result)@ == old(result)@ + carry_tail(program_addr),
{
    // address of the target cell
    put(result, &[0x20, 0x02]);
    put_load_field(result, program_addr, 0x0c);
    put(result, &[0x6a]);
    // the target cell's value
    put(result, &[0x20, 0x02]);
    put_load_field(result, program_addr, 0x0c);
    put(result, &[0x6a, 0x2d, 0x00, 0x00]);
    // plus the source cell's value, stored in the target cell
    put(result, &[0x20, 0x00, 0x2d, 0x00, 0x00, 0x6a, 0x3a, 0x00, 0x00]);
    // clear the source cell
    put(result, &[0x20, 0x00, 0x41, 0x00, 0x3a, 0x00, 0x00]);
    assert(result@ =~= old(result)@ + carry_tail(program_addr));
}

impl RightScan {
    pub fn new(source_mapping: SourceMapping) -> (r: Self)
        ensures
            r.source_mapping == source_mapping,
    {
        Self { source_mapping }
    }
}

impl Instruction for RightScan {
    open spec fn can_execute(&self, s: MachineState) -> bool {
        runnable(s)
    }

    open spec fn result_in(&self, s: MachineState) -> Result<Effect, MemoryFault> {
        match first_zero_from(s.memory, s.pointer as int) {
            Some(_) => Ok(Effect::Continue),
            None => Err(MemoryFault::Overflow(self.source_mapping)),
        }
    }

    open spec fn state_after(&self, s: MachineState) -> MachineState {
        advance(
            MachineState {
                pointer: first_zero_from(s.memory, s.pointer as int)->0 as usize,
                ..s
            },
        )
    }

    open spec fn emitted(&self, program_addr: i32, path_addr: i32) -> Seq<u8> {
        scan_code(program_addr, right_scan_step(program_addr, self.source_mapping, path_addr))
    }

    open spec fn encodable(&self) -> bool {
        mapping_encodable(self.source_mapping)
    }

    fn fault(&self, program: &Program) -> (r: Option<MemoryFault>) {
        let memory_len = program.memory.len();
        let mut p = program.pointer;
        while program.memory[p] != 0
            invariant
                memory_len == program.memory@.len(),
                program.pointer <= p < memory_len,
                first_zero_from(program.memory@, program.pointer as int) == first_zero_from(
                    program.memory@,
                    p as int,
                ),
            decreases memory_len - p,
        {
            p += 1;
            if p >= memory_len {
                return Some(MemoryFault::Overflow(self.source_mapping.clone()));
            }
        }
        None
    }

    fn execute(&self, program: &mut Program) -> (r: Effect) {
        let memory_len = program.memory.len();
        let mut p = program.pointer;
        proof {
            lemma_first_zero_from(program.memory@, p as int);
        }
        while program.memory[p] != 0
            invariant
                memory_len == program.memory@.len(),
                first_zero_from(program.memory@, p as int) is Some,
                first_zero_from(program.memory@, old(program).pointer as int) == first_zero_from(
                    program.memory@,
                    p as int,
                ),
                program.pointer <= p,
                program@ == old(program)@,
                program.instructions == old(program).instructions,
            decreases program.memory@.len() - p,
        {
            proof {
                lemma_first_zero_from(program.memory@, p as int);
            }
            p += 1;
        }
        proof {
            lemma_first_zero_from(program.memory@, p as int);
        }
        program.pointer = p;
        program.counter += 1;
        Effect::Continue
    }

    fn is_encodable(&self) -> (r: bool) {
        mapping_fits(&self.source_mapping)
    }

    fn emit(&self, program_addr: i32, path_addr: i32) -> (r: Vec<u8>) {
        let mut result: Vec<u8> = Vec::new();
        put_scan_head(&mut result, program_addr);
        // one cell to the right; an overflow when that is the memory's length
        put(&mut result, &[0x20, 0x02, 0x41, 0x01, 0x6a, 0x21, 0x02, 0x20, 0x02]);
        put_load_field(&mut result, program_addr, 0x08);
        put(&mut result, &[0x4e]);
        put_raise(&mut result, 0x01, &self.source_mapping, path_addr);
        // loop again; store local 2 as the data pointer
        put(&mut result, &[0x0c, 0x00, 0x0b, 0x0b]);
        put_store_pointer(&mut result, program_addr);
        assert(result@ =~= self.emitted(program_addr, path_addr));
        result
    }
}

impl LeftScan {
    pub fn new(source_mapping: SourceMapping) -> (r: Self)
        ensures
            r.source_mapping == source_mapping,
    {
        Self { source_mapping }
    }
}

impl Instruction for LeftScan {
    open spec fn can_execute(&self, s: MachineState) -> bool {
        runnable(s)
    }

    open spec fn result_in(&self, s: MachineState) -> Result<Effect, MemoryFault> {
        match last_zero_upto(s.memory, s.pointer as int) {
            Some(_) => Ok(Effect::Continue),
            None => Err(MemoryFault::Overflow(self.source_mapping)),
        }
    }

    open spec fn state_after(&self, s: MachineState) -> MachineState {
        advance(
            MachineState {
                pointer: last_zero_upto(s.memory, s.pointer as int)->0 as usize,
                ..s
            },
        )
    }

    open spec fn emitted(&self, program_addr: i32, path_addr: i32) -> Seq<u8> {
        scan_code(program_addr, left_scan_step(self.source_mapping, path_addr))
    }

    open spec fn encodable(&self) -> bool {
        mapping_encodable(self.source_mapping)
    }

    fn fault(&self, program: &Program) -> (r: Option<MemoryFault>) {
        let mut p = program.pointer;
        while program.memory[p] != 0
            invariant
                p <= program.pointer < program.memory@.len(),
                last_zero_upto(program.memory@, program.pointer as int) == last_zero_upto(
                    program.memory@,
                    p as int,
                ),
            decreases p,
        {
            if p == 0 {
                proof {
                    lemma_last_zero_upto(program.memory@, 0);
                }
                return Some(MemoryFault::Overflow(self.source_mapping.clone()));
            }
            p -= 1;
        }
        None
    }

    fn execute(&self, program: &mut Program) -> (r: Effect) {
        let mut p = program.pointer;
        while program.memory[p] != 0
            invariant
                p <= program.pointer < program.memory@.len(),
                last_zero_upto(program.memory@, p as int) is Some,
                last_zero_upto(program.memory@, old(program).pointer as int) == last_zero_upto(
                    program.memory@,
                    p as int,
                ),
                program@ == old(program)@,
                program.instructions == old(program).instructions,
            decreases p,
        {
            proof {
                lemma_last_zero_upto(program.memory@, p as int);
            }
            p -= 1;
        }
        program.pointer = p;
        program.counter += 1;
        Effect::Continue
    }

    fn is_encodable(&self) -> (r: bool) {
        mapping_fits(&self.source_mapping)
    }

    fn emit(&self, program_addr: i32, path_addr: i32) -> (r: Vec<u8>) {
        let mut result: Vec<u8> = Vec::new();
        put_scan_head(&mut result, program_addr);
        // an overflow on the first cell (i32.le_s)
        put(&mut result, &[0x20, 0x02, 0x41, 0x00, 0x4c]);
        put_raise(&mut result, 0x01, &self.source_mapping, path_addr);
        // one cell to the left
        put(&mut result, &[0x20, 0x02, 0x41, 0x01, 0x6b, 0x21, 0x02]);
        // loop again; store local 2 as the data pointer
        put(&mut result, &[0x0c, 0x00, 0x0b, 0x0b]);
        put_store_pointer(&mut result, program_addr);
        assert(result@ =~= self.emitted(program_addr, path_addr));
        result
    }
}

impl RightCarry {
    pub fn new(count: usize, source_mapping: SourceMapping) -> (r: Self)
        ensures
            r.count == count,
            r.source_mapping == source_mapping,
    {
        Self { count, source_mapping }
    }
}

impl Instruction for RightCarry {
    open spec fn can_execute(&self, s: MachineState) -> bool {
        runnable(s)
    }

    open spec fn result_in(&self, s: MachineState) -> Result<Effect, MemoryFault> {
        if s.pointer + carry_distance(s, self.count) < s.memory.len() {
            Ok(Effect::Continue)
        } else {
            Err(MemoryFault::Overflow(self.source_mapping))
        }
    }

    open spec fn state_after(&self, s: MachineState) -> MachineState {
        carried(s, s.pointer + carry_distance(s, self.count))
    }

    open spec fn emitted(&self, program_addr: i32, path_addr: i32) -> Seq<u8> {
        load_field(program_addr, 0x00) + seq![0x21u8, 0x02, 0x20, 0x02] + load_field(
            program_addr,
            0x0c,
        ) + seq![0x6au8, 0x21, 0x00, 0x20, 0x00, 0x2d, 0x00, 0x00, 0x45, 0x45] + signed_const(self.count as i32) + seq![0x6cu8, 0x20, 0x02, 0x6a, 0x21, 0x02, 0x20, 0x02] + load_field(program_addr, 0x08)
            + seq![0x4eu8] + raise(0x01, self.source_mapping, path_addr) + carry_tail(program_addr)
    }

    open spec fn encodable(&self) -> bool {
        fits_i32(self.count) && mapping_encodable(self.source_mapping)
    }

    fn fault(&self, program: &Program) -> (r: Option<MemoryFault>) {
        if program.memory[program.pointer] != 0 && self.count >= program.memory.len()
            - program.pointer {
            Some(MemoryFault::Overflow(self.source_mapping.clone()))
        } else {
            None
        }
    }

    fn is_encodable(&self) -> (r: bool) {
        self.count <= 0x7fff_ffff && mapping_fits(&self.source_mapping)
    }

    fn execute(&self, program: &mut Program) -> (r: Effect) {
        // the memory's length is a usize, which bounds the target
        let memory_len = program.memory.len();
        let source = program.pointer;
        let value = program.memory[source];
        let mask = value != 0;
        let distance = if mask {
            self.count
        } else {
            0
        };
        let target = source + distance;
        let sum = program.memory[target].wrapping_add(value);
        program.memory.set(target, sum);
        program.memory.set(source, 0);
        program.counter += 1;
        Effect::Continue
    }

    fn emit(&self, program_addr: i32, path_addr: i32) -> (r: Vec<u8>) {
        let mut result: Vec<u8> = Vec::new();
        // the data pointer, kept in local 2 (the source)
        put_load_field(&mut result, program_addr, 0x00);
        put(&mut result, &[0x21, 0x02, 0x20, 0x02]);
        // the source cell's address, kept in local 0
        put_load_field(&mut result, program_addr, 0x0c);
        put(&mut result, &[0x6a, 0x21, 0x00]);
        // whether the source cell is not zero, times the count
        put(&mut result, &[0x20, 0x00, 0x2d, 0x00, 0x00, 0x45, 0x45]);
        put_signed_const(&mut result, self.count as i32);
        // plus the source: the target, kept in local 2
        put(&mut result, &[0x6c, 0x20, 0x02, 0x6a, 0x21, 0x02, 0x20, 0x02]);
        // compare it with the memory's length (i32.ge_s)
        put_load_field(&mut result, program_addr, 0x08);
        put(&mut result, &[0x4e]);
        // raise an overflow when it is at or past the end
        put_raise(&mut result, 0x01, &self.source_mapping, path_addr);
        put_carry_tail(&mut result, program_addr);
        assert(result@ =~= self.emitted(program_addr, path_addr));
        result
    }
}

impl LeftCarry {
    pub fn new(count: usize, source_mapping: SourceMapping) -> (r: Self)
        ensures
            r.count == count,
            r.source_mapping == source_mapping,
    {
        Self { count, source_mapping }
    }
}

impl Instruction for LeftCarry {
    open spec fn can_execute(&self, s: MachineState) -> bool {
        runnable(s)
    }

    open spec fn result_in(&self, s: MachineState) -> Result<Effect, MemoryFault> {
        if s.pointer >= carry_distance(s, self.count) {
            Ok(Effect::Continue)
        } else {
            Err(MemoryFault::Underflow(self.source_mapping))
        }
    }

    open spec fn state_after(&self, s: MachineState) -> MachineState {
        carried(s, s.pointer - carry_distance(s, self.count))
    }

    open spec fn emitted(&self, program_addr: i32, path_addr: i32) -> Seq<u8> {
        load_field(program_addr, 0x00) + seq![0x21u8, 0x02, 0x20, 0x02] + load_field(
            program_addr,
            0x0c,
        ) + seq![0x6au8, 0x21, 0x00, 0x20, 0x02, 0x20, 0x00, 0x2d, 0x00, 0x00, 0x45, 0x45]
            + signed_const(self.count as i32) + seq![
            0x6cu8,
            0x6b,
            0x21,
            0x02,
            0x20,
            0x02,
            0x41,
            0x00,
            0x48,
        ] + raise(0x01, self.source_mapping, path_addr) + carry_tail(program_addr)
    }

    open spec fn encodable(&self) -> bool {
        fits_i32(self.count) && mapping_encodable(self.source_mapping)
    }

    fn fault(&self, program: &Program) -> (r: Option<MemoryFault>) {
        if program.memory[program.pointer] != 0 && program.pointer < self.count {
            Some(MemoryFault::Underflow(self.source_mapping.clone()))
        } else {
            None
        }
    }

    fn is_encodable(&self) -> (r: bool) {
        self.count <= 0x7fff_ffff && mapping_fits(&self.source_mapping)
    }

    fn execute(&self, program: &mut Program) -> (r: Effect) {
        let source = program.pointer;
        let value = program.memory[source];
        let mask = value != 0;
        let distance = if mask {
            self.count
        } else {
            0
        };
        let target = source - distance;
        let sum = program.memory[target].wrapping_add(value);
        program.memory.set(target, sum);
        program.memory.set(source, 0);
        program.counter += 1;
        Effect::Continue
    }

    fn emit(&self, program_addr: i32, path_addr: i32) -> (r: Vec<u8>) {
        let mut result: Vec<u8> = Vec::new();
        // the data pointer, kept in local 2 (the source)
        put_load_field(&mut result, program_addr, 0x00);
        put(&mut result, &[0x21, 0x02, 0x20, 0x02]);
        // the source cell's address, kept in local 0
        put_load_field(&mut result, program_addr, 0x0c);
        put(&mut result, &[0x6a, 0x21, 0x00]);
        // the source, less whether the source cell is not zero times the count
        put(&mut result, &[0x20, 0x02, 0x20, 0x00, 0x2d, 0x00, 0x00, 0x45, 0x45]);
        put_signed_const(&mut result, self.count as i32);
        // i32.mul, i32.sub: the target, kept in local 2; compare it with 0 (i32.lt_s)
        put(&mut result, &[0x6c, 0x6b, 0x21, 0x02, 0x20, 0x02, 0x41, 0x00, 0x48]);
        // raise an underflow when it is negative
        put_raise(&mut result, 0x01, &self.source_mapping, path_addr);
        put_carry_tail(&mut result, program_addr);
        assert(result@ =~= self.emitted(program_addr, path_addr));
        result
    }
}

impl Instruction for Zero {
    open spec fn can_execute(&self, s: MachineState) -> bool {
        runnable(s)
    }

    open spec fn result_in(&self, s: MachineState) -> Result<Effect, MemoryFault> {
        Ok(Effect::Continue)
    }

    open spec fn state_after(&self, s: MachineState) -> MachineState {
        advance(with_cell(s, 0))
    }

    open spec fn emitted(&self, program_addr: i32, path_addr: i32) -> Seq<u8> {
        cell_address(program_addr) + seq![0x41u8, 0x00, 0x3a, 0x00, 0x00]
    }

    open spec fn encodable(&self) -> bool {
        true
    }

    fn fault(&self, program: &Program) -> (r: Option<MemoryFault>) {
        None
    }

    fn execute(&self, program: &mut Program) -> (r: Effect) {
        program.memory.set(program.pointer, 0);
        program.counter += 1;
        Effect::Continue
    }

    fn is_encodable(&self) -> (r: bool) {
        true
    }

    fn emit(&self, program_addr: i32, path_addr: i32) -> (r: Vec<u8>) {
        let mut result: Vec<u8> = Vec::new();
        // address of the current cell; store 0 in it
        put_cell_address(&mut result, program_addr);
        put(&mut result, &[0x41, 0x00, 0x3a, 0x00, 0x00]);
        assert(result@ =~= self.emitted(program_addr, path_addr));
        result
    }
}

} // verus!
