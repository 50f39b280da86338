//! The instructions that the commands of the source compile to.

use vstd::prelude::*;

use crate::instruction::emit::{
    cell_address, fits_i32, load_field, mapping_encodable, mapping_fits, put, put_cell_address,
    put_load_field, put_raise, put_signed_const, put_store_pointer, raise, signed_const,
    store_pointer,
};
use crate::instruction::{advance, runnable, Effect, Instruction, MemoryFault};
use crate::program::{MachineState, Program};
use crate::tokeniser::SourceMapping;

verus! {

/// `a + b` in a cell, wrapping at 256.
pub open spec fn cell_add(a: u8, b: u8) -> u8 {
    ((a + b) % 256) as u8
}

/// `a - b` in a cell, wrapping at 256.
pub open spec fn cell_sub(a: u8, b: u8) -> u8 {
    ((a - b + 256) % 256) as u8
}

/// The state `s` with the current cell set to `v`.
pub open spec fn with_cell(s: MachineState, v: u8) -> MachineState {
    MachineState { memory: s.memory.update(s.pointer as int, v), ..s }
}

/// `count` calls of the reading import whose bytes are dropped.
pub open spec fn discarded_reads(count: nat) -> Seq<u8>
    decreases count,
{
    if count == 0 {
        Seq::empty()
    } else {
        discarded_reads((count - 1) as nat) + seq![0x10u8, 0x00, 0x1a]
    }
}

/// Moves the data pointer `count` cells to the right.
#[derive(Debug, PartialEq)]
pub struct Right {
    pub count: usize,
    pub source_mapping: SourceMapping,
}

/// Moves the data pointer `count` cells to the left.
#[derive(Debug, PartialEq)]
pub struct Left {
    pub count: usize,
    pub source_mapping: SourceMapping,
}

/// Adds `amount` to the current cell.
#[derive(Debug, PartialEq)]
pub struct Increment {
    pub amount: u8,
}

/// Subtracts `amount` from the current cell.
#[derive(Debug, PartialEq)]
pub struct Decrement {
    pub amount: u8,
}

/// Reads `count` bytes of input; the last of them goes into the current
/// cell.
#[derive(Debug, PartialEq)]
pub struct Input {
    pub count: usize,
}

/// Writes the current cell to the output `count` times.
#[derive(Debug, PartialEq)]
pub struct Output {
    pub count: usize,
}

/// Opens a loop: jumps past the loop's end, at index `end`, when the
/// current cell is zero.
#[derive(Debug, PartialEq)]
pub struct RightJump {
    pub end: usize,
}

/// Closes a loop: jumps back into the loop opened at index `start` when
/// the current cell is not zero.
#[derive(Debug, PartialEq)]
pub struct LeftJump {
    pub start: usize,
}

impl Clone for Right {
    fn clone(&self) -> (r: Self)
        ensures
            r == *self,
    {
        Right { count: self.count, source_mapping: self.source_mapping.clone() }
    }
}

impl Clone for Left {
    fn clone(&self) -> (r: Self)
        ensures
            r == *self,
    {
        Left { count: self.count, source_mapping: self.source_mapping.clone() }
    }
}

impl Increment {
    pub fn new(amount: u8) -> (r: Self)
        ensures
            r.amount == amount,
    {
        Self { amount }
    }
}

impl Instruction for Increment {
    open spec fn can_execute(&self, s: MachineState) -> bool {
        runnable(s)
    }

    open spec fn result_in(&self, s: MachineState) -> Result<Effect, MemoryFault> {
        Ok(Effect::Continue)
    }

    open spec fn state_after(&self, s: MachineState) -> MachineState {
        advance(with_cell(s, cell_add(s.memory[s.pointer as int], self.amount)))
    }

    open spec fn emitted(&self, program_addr: i32, path_addr: i32) -> Seq<u8> {
        cell_address(program_addr) + seq![0x21u8, 0x00, 0x20, 0x00, 0x20, 0x00, 0x2d, 0x00, 0x00]
            + signed_const(self.amount as i32) + seq![0x6au8, 0x3a, 0x00, 0x00]
    }

    open spec fn encodable(&self) -> bool {
        true
    }

    fn fault(&self, program: &Program) -> (r: Option<MemoryFault>) {
        None
    }

    fn is_encodable(&self) -> (r: bool) {
        true
    }

    fn execute(&self, program: &mut Program) -> (r: Effect) {
        let cell = program.memory[program.pointer].wrapping_add(self.amount);
        program.memory.set(program.pointer, cell);
        program.counter += 1;
        Effect::Continue
    }

    fn emit(&self, program_addr: i32, path_addr: i32) -> (r: Vec<u8>) {
        let mut result: Vec<u8> = Vec::new();
        // address of the current cell
        put_cell_address(&mut result, program_addr);
        // keep it in local 0, load the cell
        put(&mut result, &[0x21, 0x00, 0x20, 0x00, 0x20, 0x00, 0x2d, 0x00, 0x00]);
        // the amount
        put_signed_const(&mut result, self.amount as i32);
        // i32.add, i32.store8
        put(&mut result, &[0x6a, 0x3a, 0x00, 0x00]);
        assert(result@ =~= self.emitted(program_addr, path_addr));
        result
    }
}

impl Decrement {
    pub fn new(amount: u8) -> (r: Self)
        ensures
            r.amount == amount,
    {
        Self { amount }
    }
}

impl Instruction for Decrement {
    open spec fn can_execute(&self, s: MachineState) -> bool {
        runnable(s)
    }

    open spec fn result_in(&self, s: MachineState) -> Result<Effect, MemoryFault> {
        Ok(Effect::Continue)
    }

    open spec fn state_after(&self, s: MachineState) -> MachineState {
        advance(with_cell(s, cell_sub(s.memory[s.pointer as int], self.amount)))
    }

    open spec fn emitted(&self, program_addr: i32, path_addr: i32) -> Seq<u8> {
        cell_address(program_addr) + seq![0x21u8, 0x00, 0x20, 0x00, 0x20, 0x00, 0x2d, 0x00, 0x00]
            + signed_const(self.amount as i32) + seq![0x6bu8, 0x3a, 0x00, 0x00]
    }

    open spec fn encodable(&self) -> bool {
        true
    }

    fn fault(&self, program: &Program) -> (r: Option<MemoryFault>) {
        None
    }

    fn is_encodable(&self) -> (r: bool) {
        true
    }

    fn execute(&self, program: &mut Program) -> (r: Effect) {
        let cell = program.memory[program.pointer].wrapping_sub(self.amount);
        program.memory.set(program.pointer, cell);
        program.counter += 1;
        Effect::Continue
    }

    fn emit(&self, program_addr: i32, path_addr: i32) -> (r: Vec<u8>) {
        let mut result: Vec<u8> = Vec::new();
        // address of the current cell
        put_cell_address(&mut result, program_addr);
        // keep it in local 0, load the cell
        put(&mut result, &[0x21, 0x00, 0x20, 0x00, 0x20, 0x00, 0x2d, 0x00, 0x00]);
        // the amount
        put_signed_const(&mut result, self.amount as i32);
        // i32.sub, i32.store8
        put(&mut result, &[0x6b, 0x3a, 0x00, 0x00]);
        assert(result@ =~= self.emitted(program_addr, path_addr));
        result
    }
}

impl Left {
    pub fn new(count: usize, source_mapping: SourceMapping) -> (r: Self)
        ensures
            r.count == count,
            r.source_mapping == source_mapping,
    {
        Self { count, source_mapping }
    }
}

impl Instruction for Left {
    open spec fn can_execute(&self, s: MachineState) -> bool {
        runnable(s)
    }

    open spec fn result_in(&self, s: MachineState) -> Result<Effect, MemoryFault> {
        if s.pointer >= self.count {
            Ok(Effect::Continue)
        } else {
            Err(MemoryFault::Underflow(self.source_mapping))
        }
    }

    open spec fn state_after(&self, s: MachineState) -> MachineState {
        advance(MachineState { pointer: (s.pointer - self.count) as usize, ..s })
    }

    open spec fn emitted(&self, program_addr: i32, path_addr: i32) -> Seq<u8> {
        load_field(program_addr, 0x00) + signed_const(self.count as i32) + seq![
            0x6bu8,
            0x21,
            0x02,
            0x20,
            0x02,
            0x41,
            0x00,
            0x48,
        ] + raise(0x00, self.source_mapping, path_addr) + store_pointer(program_addr)
    }

    open spec fn encodable(&self) -> bool {
        fits_i32(self.count) && mapping_encodable(self.source_mapping)
    }

    fn fault(&self, program: &Program) -> (r: Option<MemoryFault>) {
        if program.pointer < self.count {
            Some(MemoryFault::Underflow(self.source_mapping.clone()))
        } else {
            None
        }
    }

    fn is_encodable(&self) -> (r: bool) {
        self.count <= 0x7fff_ffff && mapping_fits(&self.source_mapping)
    }

    fn execute(&self, program: &mut Program) -> (r: Effect) {
        program.pointer -= self.count;
        program.counter += 1;
        Effect::Continue
    }

    fn emit(&self, program_addr: i32, path_addr: i32) -> (r: Vec<u8>) {
        let mut result: Vec<u8> = Vec::new();
        // load the data pointer
        put_load_field(&mut result, program_addr, 0x00);
        // subtract the count
        put_signed_const(&mut result, self.count as i32);
        // i32.sub, keep it in local 2, compare it with 0 (i32.lt_s)
        put(&mut result, &[0x6b, 0x21, 0x02, 0x20, 0x02, 0x41, 0x00, 0x48]);
        // raise an underflow when it is negative
        put_raise(&mut result, 0x00, &self.source_mapping, path_addr);
        // store local 2 as the data pointer
        put_store_pointer(&mut result, program_addr);
        assert(result@ =~= self.emitted(program_addr, path_addr));
        result
    }
}

impl Right {
    pub fn new(count: usize, source_mapping: SourceMapping) -> (r: Self)
        ensures
            r.count == count,
            r.source_mapping == source_mapping,
    {
        Self { count, source_mapping }
    }
}

impl Instruction for Right {
    open spec fn can_execute(&self, s: MachineState) -> bool {
        runnable(s)
    }

    open spec fn result_in(&self, s: MachineState) -> Result<Effect, MemoryFault> {
        if s.pointer + self.count < s.memory.len() {
            Ok(Effect::Continue)
        } else {
            Err(MemoryFault::Overflow(self.source_mapping))
        }
    }

    open spec fn state_after(&self, s: MachineState) -> MachineState {
        advance(MachineState { pointer: (s.pointer + self.count) as usize, ..s })
    }

    open spec fn emitted(&self, program_addr: i32, path_addr: i32) -> Seq<u8> {
        load_field(program_addr, 0x00) + signed_const(self.count as i32) + seq![
            0x6au8,
            0x21,
            0x02,
            0x20,
            0x02,
        ] + load_field(program_addr, 0x08) + seq![0x4eu8] + raise(
            0x01,
            self.source_mapping,
            path_addr,
        ) + store_pointer(program_addr)
    }

    open spec fn encodable(&self) -> bool {
        fits_i32(self.count) && mapping_encodable(self.source_mapping)
    }

    fn fault(&self, program: &Program) -> (r: Option<MemoryFault>) {
        if self.count >= program.memory.len() - program.pointer {
            Some(MemoryFault::Overflow(self.source_mapping.clone()))
        } else {
            None
        }
    }

    fn is_encodable(&self) -> (r: bool) {
        self.count <= 0x7fff_ffff && mapping_fits(&self.source_mapping)
    }

    fn execute(&self, program: &mut Program) -> (r: Effect) {
        // the memory's length is a usize, which bounds the new data pointer
        let memory_len = program.memory.len();
        program.pointer += self.count;
        program.counter += 1;
        Effect::Continue
    }

    fn emit(&self, program_addr: i32, path_addr: i32) -> (r: Vec<u8>) {
        let mut result: Vec<u8> = Vec::new();
        // load the data pointer
        put_load_field(&mut result, program_addr, 0x00);
        // add the count
        put_signed_const(&mut result, self.count as i32);
        // i32.add, keep it in local 2, push it again
        put(&mut result, &[0x6a, 0x21, 0x02, 0x20, 0x02]);
        // compare it with the memory's length (i32.ge_s)
        put_load_field(&mut result, program_addr, 0x08);
        put(&mut result, &[0x4e]);
        // raise an overflow when it is at or past the end
        put_raise(&mut result, 0x01, &self.source_mapping, path_addr);
        // store local 2 as the data pointer
        put_store_pointer(&mut result, program_addr);
        assert(result@ =~= self.emitted(program_addr, path_addr));
        result
    }
}

impl Input {
    pub fn new(count: usize) -> (r: Self)
        ensures
            r.count == count,
    {
        Self { count }
    }
}

impl Instruction for Input {
    open spec fn can_execute(&self, s: MachineState) -> bool {
        runnable(s)
    }

    open spec fn result_in(&self, s: MachineState) -> Result<Effect, MemoryFault> {
        Ok(Effect::Read(self.count))
    }

    open spec fn state_after(&self, s: MachineState) -> MachineState {
        advance(s)
    }

    open spec fn emitted(&self, program_addr: i32, path_addr: i32) -> Seq<u8> {
        if self.count == 0 {
            Seq::empty()
        } else {
            discarded_reads((self.count - 1) as nat) + cell_address(program_addr) + seq![
                0x10u8,
                0x00,
                0x3a,
                0x00,
                0x00,
            ]
        }
    }

    open spec fn encodable(&self) -> bool {
        true
    }

    fn fault(&self, program: &Program) -> (r: Option<MemoryFault>) {
        None
    }

    fn is_encodable(&self) -> (r: bool) {
        true
    }

    /// Asks the surroundings to read `count` bytes and store the last of
    /// them in the current cell (see `Program::store_input`).
    fn execute(&self, program: &mut Program) -> (r: Effect) {
        program.counter += 1;
        Effect::Read(self.count)
    }

    fn emit(&self, program_addr: i32, path_addr: i32) -> (r: Vec<u8>) {
        let mut result: Vec<u8> = Vec::new();
        if self.count == 0 {
            assert(result@ =~= self.emitted(program_addr, path_addr));
            return result;
        }
        // all reads but the last: call the reading import, drop the byte
        let mut i: usize = 1;
        while i < self.count
            invariant
                1 <= i <= self.count,
                result@ == discarded_reads((i - 1) as nat),
            decreases self.count - i,
        {
            put(&mut result, &[0x10, 0x00, 0x1a]);
            i = i + 1;
        }
        // the last read: address of the current cell, call the reading
        // import, i32.store8
        put_cell_address(&mut result, program_addr);
        put(&mut result, &[0x10, 0x00, 0x3a, 0x00, 0x00]);
        assert(result@ =~= self.emitted(program_addr, path_addr));
        result
    }
}

impl Output {
    pub fn new(count: usize) -> (r: Self)
        ensures
            r.count == count,
    {
        Self { count }
    }
}

impl Instruction for Output {
    open spec fn can_execute(&self, s: MachineState) -> bool {
        runnable(s)
    }

    open spec fn result_in(&self, s: MachineState) -> Result<Effect, MemoryFault> {
        Ok(Effect::Write(s.memory[s.pointer as int], self.count))
    }

    open spec fn state_after(&self, s: MachineState) -> MachineState {
        advance(s)
    }

    open spec fn emitted(&self, program_addr: i32, path_addr: i32) -> Seq<u8> {
        cell_address(program_addr) + seq![0x2du8, 0x00, 0x00] + signed_const(self.count as i32)
            + seq![0x10u8, 0x01]
    }

    open spec fn encodable(&self) -> bool {
        fits_i32(self.count)
    }

    fn fault(&self, program: &Program) -> (r: Option<MemoryFault>) {
        None
    }

    fn is_encodable(&self) -> (r: bool) {
        self.count <= 0x7fff_ffff
    }

    /// Asks the surroundings to write the current cell `count` times.
    fn execute(&self, program: &mut Program) -> (r: Effect) {
        let byte = program.memory[program.pointer];
        program.counter += 1;
        Effect::Write(byte, self.count)
    }

    fn emit(&self, program_addr: i32, path_addr: i32) -> (r: Vec<u8>) {
        let mut result: Vec<u8> = Vec::new();
        // address of the current cell, i32.load8_u
        put_cell_address(&mut result, program_addr);
        put(&mut result, &[0x2d, 0x00, 0x00]);
        // the count
        put_signed_const(&mut result, self.count as i32);
        // call the writing import
        put(&mut result, &[0x10, 0x01]);
        assert(result@ =~= self.emitted(program_addr, path_addr));
        result
    }
}

impl RightJump {
    pub fn new(end: usize) -> (r: Self)
        ensures
            r.end == end,
    {
        Self { end }
    }
}

impl Instruction for RightJump {
    open spec fn can_execute(&self, s: MachineState) -> bool {
        runnable(s) && self.end < usize::MAX
    }

    open spec fn result_in(&self, s: MachineState) -> Result<Effect, MemoryFault> {
        Ok(Effect::Continue)
    }

    open spec fn state_after(&self, s: MachineState) -> MachineState {
        if s.memory[s.pointer as int] == 0 {
            MachineState { counter: (self.end + 1) as usize, ..s }
        } else {
            advance(s)
        }
    }

    open spec fn emitted(&self, program_addr: i32, path_addr: i32) -> Seq<u8> {
        seq![0x03u8, 0x40] + cell_address(program_addr) + seq![0x2du8, 0x00, 0x00, 0x45, 0x0d, 0x01]
    }

    open spec fn encodable(&self) -> bool {
        true
    }

    fn fault(&self, program: &Program) -> (r: Option<MemoryFault>) {
        None
    }

    fn is_encodable(&self) -> (r: bool) {
        true
    }

    fn execute(&self, program: &mut Program) -> (r: Effect) {
        program.counter = if program.memory[program.pointer] == 0 {
            self.end + 1
        } else {
            program.counter + 1
        };
        Effect::Continue
    }

    fn emit(&self, program_addr: i32, path_addr: i32) -> (r: Vec<u8>) {
        let mut result: Vec<u8> = Vec::new();
        // loop
        put(&mut result, &[0x03, 0x40]);
        // load the current cell, break out when it is zero
        put_cell_address(&mut result, program_addr);
        put(&mut result, &[0x2d, 0x00, 0x00, 0x45, 0x0d, 0x01]);
        assert(result@ =~= self.emitted(program_addr, path_addr));
        result
    }
}

impl LeftJump {
    pub fn new(start: usize) -> (r: Self)
        ensures
            r.start == start,
    {
        Self { start }
    }
}

impl Instruction for LeftJump {
    open spec fn can_execute(&self, s: MachineState) -> bool {
        runnable(s) && self.start < usize::MAX
    }

    open spec fn result_in(&self, s: MachineState) -> Result<Effect, MemoryFault> {
        Ok(Effect::Continue)
    }

    open spec fn state_after(&self, s: MachineState) -> MachineState {
        if s.memory[s.pointer as int] != 0 {
            MachineState { counter: (self.start + 1) as usize, ..s }
        } else {
            advance(s)
        }
    }

    open spec fn emitted(&self, program_addr: i32, path_addr: i32) -> Seq<u8> {
        signed_const(self.start as i32) + seq![0x21u8, 0x01, 0x0c, 0x00, 0x0b]
    }

    open spec fn encodable(&self) -> bool {
        fits_i32(self.start)
    }

    fn fault(&self, program: &Program) -> (r: Option<MemoryFault>) {
        None
    }

    fn is_encodable(&self) -> (r: bool) {
        self.start <= 0x7fff_ffff
    }

    fn execute(&self, program: &mut Program) -> (r: Effect) {
        program.counter = if program.memory[program.pointer] != 0 {
            self.start + 1
        } else {
            program.counter + 1
        };
        Effect::Continue
    }

    fn emit(&self, program_addr: i32, path_addr: i32) -> (r: Vec<u8>) {
        let mut result: Vec<u8> = Vec::new();
        // reset the program counter to the start of the loop's body
        put_signed_const(&mut result, self.start as i32);
        // local.set 1, br 0, end of the loop
        put(&mut result, &[0x21, 0x01, 0x0c, 0x00, 0x0b]);
        assert(result@ =~= self.emitted(program_addr, path_addr));
        result
    }
}

} // verus!
