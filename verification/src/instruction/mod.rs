//! The instruction set that the interpreter executes and that the
//! WebAssembly back end emits code for.

use vstd::prelude::*;
use vstd::std_specs::convert::FromSpecImpl;

use crate::program::{MachineState, Program};
use crate::tokeniser::SourceMapping;

pub mod commands;
pub mod behaviour;
pub mod compression;
pub mod emit;
pub mod folding;
pub mod optimisation;
pub mod parse;

use self::commands::{Decrement, Increment, Input, Left, LeftJump, Output, Right, RightJump};
use self::optimisation::{LeftCarry, LeftScan, RightCarry, RightScan, Zero};

verus! {

/// What the surroundings must do after an instruction ran: nothing, read
/// `count` bytes of input into the current cell, or write `byte` to the
/// output `count` times.
#[derive(Debug, Clone, Copy, PartialEq, Eq, Structural)]
pub enum Effect {
    Continue,
    Read(usize),
    Write(u8, usize),
}

/// A run-time error: the data pointer would leave the memory, past its
/// end or below its start, at the given place of the source.
#[derive(Debug, PartialEq)]
pub enum MemoryFault {
    Overflow(SourceMapping),
    Underflow(SourceMapping),
}

/// The state `s` with the next instruction's index advanced by one.
pub open spec fn advance(s: MachineState) -> MachineState {
    MachineState { counter: (s.counter + 1) as usize, ..s }
}

/// The memory is not empty, the data pointer lies in it, and the next
/// instruction's index can be advanced.
pub open spec fn runnable(s: MachineState) -> bool {
    &&& s.pointer < s.memory.len()
    &&& s.counter < usize::MAX
}

/// An instruction: what executing it does to the interpreter's state, and
/// the WebAssembly code emitted for it.
pub trait Instruction {
    /// Whether the instruction can be executed in state `s`.
    spec fn can_execute(&self, s: MachineState) -> bool;

    /// What executing the instruction in state `s` asks of the
    /// surroundings, or the fault it raises.
    spec fn result_in(&self, s: MachineState) -> Result<Effect, MemoryFault>;

    /// The state after executing the instruction in state `s`, where it
    /// raises no fault.
    spec fn state_after(&self, s: MachineState) -> MachineState;

    /// The code emitted for the instruction, for a program at
    /// `program_addr` whose instruction's file path lies at `path_addr`.
    spec fn emitted(&self, program_addr: i32, path_addr: i32) -> Seq<u8>;

    /// Whether every number that the emitted code holds as the literal of
    /// an `i32.const` fits in an `i32`.
    spec fn encodable(&self) -> bool;

    /// The fault that executing the instruction in the program's state
    /// raises, if any.
    fn fault(&self, program: &Program) -> (r: Option<MemoryFault>)
        requires
            self.can_execute(program@),
        ensures
            r is None <==> self.result_in(program@) is Ok,
            r matches Some(e) ==> self.result_in(program@) == Err::<Effect, MemoryFault>(e),
    ;

    /// Executes the instruction, in a state where it raises no fault.
    fn execute(&self, program: &mut Program) -> (r: Effect)
        requires
            self.can_execute(old(program)@),
            self.result_in(old(program)@) is Ok,
        ensures
            self.result_in(old(program)@) == Ok::<Effect, MemoryFault>(r),
            final(program)@ == self.state_after(old(program)@),
            final(program).instructions == old(program).instructions,
    ;

    /// Whether the instruction's code can be emitted.
    fn is_encodable(&self) -> (r: bool)
        ensures
            r == self.encodable(),
    ;

    /// The WebAssembly code of the instruction.
    fn emit(&self, program_addr: i32, path_addr: i32) -> (r: Vec<u8>)
        requires
            self.encodable(),
        ensures
            r@ == self.emitted(program_addr, path_addr),
    ;
}

/// One instruction of a compiled program.
#[derive(Debug, PartialEq)]
pub enum InstructionSet {
    RightScan(RightScan),
    LeftScan(LeftScan),
    LeftCarry(LeftCarry),
    RightCarry(RightCarry),
    Zero(Zero),
    Right(Right),
    Left(Left),
    Increment(Increment),
    Decrement(Decrement),
    Input(Input),
    Output(Output),
    LeftJump(LeftJump),
    RightJump(RightJump),
}

impl Clone for InstructionSet {
    fn clone(&self) -> (r: Self)
        ensures
            r == *self,
    {
        match self {
            InstructionSet::RightScan(i) => InstructionSet::RightScan(i.clone()),
            InstructionSet::LeftScan(i) => InstructionSet::LeftScan(i.clone()),
            InstructionSet::LeftCarry(i) => InstructionSet::LeftCarry(i.clone()),
            InstructionSet::RightCarry(i) => InstructionSet::RightCarry(i.clone()),
            InstructionSet::Zero(_) => InstructionSet::Zero(Zero),
            InstructionSet::Right(i) => InstructionSet::Right(i.clone()),
            InstructionSet::Left(i) => InstructionSet::Left(i.clone()),
            InstructionSet::Increment(i) => InstructionSet::Increment(Increment { amount: i.amount }),
            InstructionSet::Decrement(i) => InstructionSet::Decrement(Decrement { amount: i.amount }),
            InstructionSet::Input(i) => InstructionSet::Input(Input { count: i.count }),
            InstructionSet::Output(i) => InstructionSet::Output(Output { count: i.count }),
            InstructionSet::LeftJump(i) => InstructionSet::LeftJump(LeftJump { start: i.start }),
            InstructionSet::RightJump(i) => InstructionSet::RightJump(RightJump { end: i.end }),
        }
    }
}

// Each instruction is an instruction of the set.
impl From<RightScan> for InstructionSet {
    fn from(i: RightScan) -> (r: Self) {
        InstructionSet::RightScan(i)
    }
}

impl FromSpecImpl<RightScan> for InstructionSet {
    open spec fn obeys_from_spec() -> bool {
        true
    }

    open spec fn from_spec(i: RightScan) -> Self {
        InstructionSet::RightScan(i)
    }
}

impl From<LeftScan> for InstructionSet {
    fn from(i: LeftScan) -> (r: Self) {
        InstructionSet::LeftScan(i)
    }
}

impl FromSpecImpl<LeftScan> for InstructionSet {
    open spec fn obeys_from_spec() -> bool {
        true
    }

    open spec fn from_spec(i: LeftScan) -> Self {
        InstructionSet::LeftScan(i)
    }
}

impl From<LeftCarry> for InstructionSet {
    fn from(i: LeftCarry) -> (r: Self) {
        InstructionSet::LeftCarry(i)
    }
}

impl FromSpecImpl<LeftCarry> for InstructionSet {
    open spec fn obeys_from_spec() -> bool {
        true
    }

    open spec fn from_spec(i: LeftCarry) -> Self {
        InstructionSet::LeftCarry(i)
    }
}

impl From<RightCarry> for InstructionSet {
    fn from(i: RightCarry) -> (r: Self) {
        InstructionSet::RightCarry(i)
    }
}

impl FromSpecImpl<RightCarry> for InstructionSet {
    open spec fn obeys_from_spec() -> bool {
        true
    }

    open spec fn from_spec(i: RightCarry) -> Self {
        InstructionSet::RightCarry(i)
    }
}

impl From<Zero> for InstructionSet {
    fn from(i: Zero) -> (r: Self) {
        InstructionSet::Zero(i)
    }
}

impl FromSpecImpl<Zero> for InstructionSet {
    open spec fn obeys_from_spec() -> bool {
        true
    }

    open spec fn from_spec(i: Zero) -> Self {
        InstructionSet::Zero(i)
    }
}

impl From<Right> for InstructionSet {
    fn from(i: Right) -> (r: Self) {
        InstructionSet::Right(i)
    }
}

impl FromSpecImpl<Right> for InstructionSet {
    open spec fn obeys_from_spec() -> bool {
        true
    }

    open spec fn from_spec(i: Right) -> Self {
        InstructionSet::Right(i)
    }
}

impl From<Left> for InstructionSet {
    fn from(i: Left) -> (r: Self) {
        InstructionSet::Left(i)
    }
}

impl FromSpecImpl<Left> for InstructionSet {
    open spec fn obeys_from_spec() -> bool {
        true
    }

    open spec fn from_spec(i: Left) -> Self {
        InstructionSet::Left(i)
    }
}

impl From<Increment> for InstructionSet {
    fn from(i: Increment) -> (r: Self) {
        InstructionSet::Increment(i)
    }
}

impl FromSpecImpl<Increment> for InstructionSet {
    open spec fn obeys_from_spec() -> bool {
        true
    }

    open spec fn from_spec(i: Increment) -> Self {
        InstructionSet::Increment(i)
    }
}

impl From<Decrement> for InstructionSet {
    fn from(i: Decrement) -> (r: Self) {
        InstructionSet::Decrement(i)
    }
}

impl FromSpecImpl<Decrement> for InstructionSet {
    open spec fn obeys_from_spec() -> bool {
        true
    }

    open spec fn from_spec(i: Decrement) -> Self {
        InstructionSet::Decrement(i)
    }
}

impl From<Input> for InstructionSet {
    fn from(i: Input) -> (r: Self) {
        InstructionSet::Input(i)
    }
}

impl FromSpecImpl<Input> for InstructionSet {
    open spec fn obeys_from_spec() -> bool {
        true
    }

    open spec fn from_spec(i: Input) -> Self {
        InstructionSet::Input(i)
    }
}

impl From<Output> for InstructionSet {
    fn from(i: Output) -> (r: Self) {
        InstructionSet::Output(i)
    }
}

impl FromSpecImpl<Output> for InstructionSet {
    open spec fn obeys_from_spec() -> bool {
        true
    }

    open spec fn from_spec(i: Output) -> Self {
        InstructionSet::Output(i)
    }
}

impl From<LeftJump> for InstructionSet {
    fn from(i: LeftJump) -> (r: Self) {
        InstructionSet::LeftJump(i)
    }
}

impl FromSpecImpl<LeftJump> for InstructionSet {
    open spec fn obeys_from_spec() -> bool {
        true
    }

    open spec fn from_spec(i: LeftJump) -> Self {
        InstructionSet::LeftJump(i)
    }
}

impl From<RightJump> for InstructionSet {
    fn from(i: RightJump) -> (r: Self) {
        InstructionSet::RightJump(i)
    }
}

impl FromSpecImpl<RightJump> for InstructionSet {
    open spec fn obeys_from_spec() -> bool {
        true
    }

    open spec fn from_spec(i: RightJump) -> Self {
        InstructionSet::RightJump(i)
    }
}

impl InstructionSet {
    /// The place in the source of a move, scan or carry.
    pub fn source_mapping(&self) -> (r: Option<&SourceMapping>)
        ensures
            r is None <==> mapping_of(*self) is None,
            r matches Some(m) ==> mapping_of(*self) == Some(*m),
    {
        match self {
            InstructionSet::RightScan(i) => Some(&i.source_mapping),
            InstructionSet::LeftScan(i) => Some(&i.source_mapping),
            InstructionSet::LeftCarry(i) => Some(&i.source_mapping),
            InstructionSet::RightCarry(i) => Some(&i.source_mapping),
            InstructionSet::Right(i) => Some(&i.source_mapping),
            InstructionSet::Left(i) => Some(&i.source_mapping),
            _ => None,
        }
    }
}

/// The place in the source of a move, scan or carry.
pub open spec fn mapping_of(i: InstructionSet) -> Option<SourceMapping> {
    match i {
        InstructionSet::RightScan(i) => Some(i.source_mapping),
        InstructionSet::LeftScan(i) => Some(i.source_mapping),
        InstructionSet::LeftCarry(i) => Some(i.source_mapping),
        InstructionSet::RightCarry(i) => Some(i.source_mapping),
        InstructionSet::Right(i) => Some(i.source_mapping),
        InstructionSet::Left(i) => Some(i.source_mapping),
        _ => None,
    }
}

impl Instruction for InstructionSet {
    open spec fn can_execute(&self, s: MachineState) -> bool {
        match self {
            InstructionSet::RightScan(i) => i.can_execute(s),
            InstructionSet::LeftScan(i) => i.can_execute(s),
            InstructionSet::LeftCarry(i) => i.can_execute(s),
            InstructionSet::RightCarry(i) => i.can_execute(s),
            InstructionSet::Zero(i) => i.can_execute(s),
            InstructionSet::Right(i) => i.can_execute(s),
            InstructionSet::Left(i) => i.can_execute(s),
            InstructionSet::Increment(i) => i.can_execute(s),
            InstructionSet::Decrement(i) => i.can_execute(s),
            InstructionSet::Input(i) => i.can_execute(s),
            InstructionSet::Output(i) => i.can_execute(s),
            InstructionSet::LeftJump(i) => i.can_execute(s),
            InstructionSet::RightJump(i) => i.can_execute(s),
        }
    }

    open spec fn result_in(&self, s: MachineState) -> Result<Effect, MemoryFault> {
        match self {
            InstructionSet::RightScan(i) => i.result_in(s),
            InstructionSet::LeftScan(i) => i.result_in(s),
            InstructionSet::LeftCarry(i) => i.result_in(s),
            InstructionSet::RightCarry(i) => i.result_in(s),
            InstructionSet::Zero(i) => i.result_in(s),
            InstructionSet::Right(i) => i.result_in(s),
            InstructionSet::Left(i) => i.result_in(s),
            InstructionSet::Increment(i) => i.result_in(s),
            InstructionSet::Decrement(i) => i.result_in(s),
            InstructionSet::Input(i) => i.result_in(s),
            InstructionSet::Output(i) => i.result_in(s),
            InstructionSet::LeftJump(i) => i.result_in(s),
            InstructionSet::RightJump(i) => i.result_in(s),
        }
    }

    open spec fn state_after(&self, s: MachineState) -> MachineState {
        match self {
            InstructionSet::RightScan(i) => i.state_after(s),
            InstructionSet::LeftScan(i) => i.state_after(s),
            InstructionSet::LeftCarry(i) => i.state_after(s),
            InstructionSet::RightCarry(i) => i.state_after(s),
            InstructionSet::Zero(i) => i.state_after(s),
            InstructionSet::Right(i) => i.state_after(s),
            InstructionSet::Left(i) => i.state_after(s),
            InstructionSet::Increment(i) => i.state_after(s),
            InstructionSet::Decrement(i) => i.state_after(s),
            InstructionSet::Input(i) => i.state_after(s),
            InstructionSet::Output(i) => i.state_after(s),
            InstructionSet::LeftJump(i) => i.state_after(s),
            InstructionSet::RightJump(i) => i.state_after(s),
        }
    }

    open spec fn emitted(&self, program_addr: i32, path_addr: i32) -> Seq<u8> {
        match self {
            InstructionSet::RightScan(i) => i.emitted(program_addr, path_addr),
            InstructionSet::LeftScan(i) => i.emitted(program_addr, path_addr),
            InstructionSet::LeftCarry(i) => i.emitted(program_addr, path_addr),
            InstructionSet::RightCarry(i) => i.emitted(program_addr, path_addr),
            InstructionSet::Zero(i) => i.emitted(program_addr, path_addr),
            InstructionSet::Right(i) => i.emitted(program_addr, path_addr),
            InstructionSet::Left(i) => i.emitted(program_addr, path_addr),
            InstructionSet::Increment(i) => i.emitted(program_addr, path_addr),
            InstructionSet::Decrement(i) => i.emitted(program_addr, path_addr),
            InstructionSet::Input(i) => i.emitted(program_addr, path_addr),
            InstructionSet::Output(i) => i.emitted(program_addr, path_addr),
            InstructionSet::LeftJump(i) => i.emitted(program_addr, path_addr),
            InstructionSet::RightJump(i) => i.emitted(program_addr, path_addr),
        }
    }

    open spec fn encodable(&self) -> bool {
        match self {
            InstructionSet::RightScan(i) => i.encodable(),
            InstructionSet::LeftScan(i) => i.encodable(),
            InstructionSet::LeftCarry(i) => i.encodable(),
            InstructionSet::RightCarry(i) => i.encodable(),
            InstructionSet::Zero(i) => i.encodable(),
            InstructionSet::Right(i) => i.encodable(),
            InstructionSet::Left(i) => i.encodable(),
            InstructionSet::Increment(i) => i.encodable(),
            InstructionSet::Decrement(i) => i.encodable(),
            InstructionSet::Input(i) => i.encodable(),
            InstructionSet::Output(i) => i.encodable(),
            InstructionSet::LeftJump(i) => i.encodable(),
            InstructionSet::RightJump(i) => i.encodable(),
        }
    }

    fn fault(&self, program: &Program) -> (r: Option<MemoryFault>) {
        match self {
            InstructionSet::RightScan(i) => i.fault(program),
            InstructionSet::LeftScan(i) => i.fault(program),
            InstructionSet::LeftCarry(i) => i.fault(program),
            InstructionSet::RightCarry(i) => i.fault(program),
            InstructionSet::Zero(i) => i.fault(program),
            InstructionSet::Right(i) => i.fault(program),
            InstructionSet::Left(i) => i.fault(program),
            InstructionSet::Increment(i) => i.fault(program),
            InstructionSet::Decrement(i) => i.fault(program),
            InstructionSet::Input(i) => i.fault(program),
            InstructionSet::Output(i) => i.fault(program),
            InstructionSet::LeftJump(i) => i.fault(program),
            InstructionSet::RightJump(i) => i.fault(program),
        }
    }

    fn execute(&self, program: &mut Program) -> (r: Effect) {
        match self {
            InstructionSet::RightScan(i) => i.execute(program),
            InstructionSet::LeftScan(i) => i.execute(program),
            InstructionSet::LeftCarry(i) => i.execute(program),
            InstructionSet::RightCarry(i) => i.execute(program),
            InstructionSet::Zero(i) => i.execute(program),
            InstructionSet::Right(i) => i.execute(program),
            InstructionSet::Left(i) => i.execute(program),
            InstructionSet::Increment(i) => i.execute(program),
            InstructionSet::Decrement(i) => i.execute(program),
            InstructionSet::Input(i) => i.execute(program),
            InstructionSet::Output(i) => i.execute(program),
            InstructionSet::LeftJump(i) => i.execute(program),
            InstructionSet::RightJump(i) => i.execute(program),
        }
    }

    fn is_encodable(&self) -> (r: bool) {
        match self {
            InstructionSet::RightScan(i) => i.is_encodable(),
            InstructionSet::LeftScan(i) => i.is_encodable(),
            InstructionSet::LeftCarry(i) => i.is_encodable(),
            InstructionSet::RightCarry(i) => i.is_encodable(),
            InstructionSet::Zero(i) => i.is_encodable(),
            InstructionSet::Right(i) => i.is_encodable(),
            InstructionSet::Left(i) => i.is_encodable(),
            InstructionSet::Increment(i) => i.is_encodable(),
            InstructionSet::Decrement(i) => i.is_encodable(),
            InstructionSet::Input(i) => i.is_encodable(),
            InstructionSet::Output(i) => i.is_encodable(),
            InstructionSet::LeftJump(i) => i.is_encodable(),
            InstructionSet::RightJump(i) => i.is_encodable(),
        }
    }

    fn emit(&self, program_addr: i32, path_addr: i32) -> (r: Vec<u8>) {
        match self {
            InstructionSet::RightScan(i) => i.emit(program_addr, path_addr),
            InstructionSet::LeftScan(i) => i.emit(program_addr, path_addr),
            InstructionSet::LeftCarry(i) => i.emit(program_addr, path_addr),
            InstructionSet::RightCarry(i) => i.emit(program_addr, path_addr),
            InstructionSet::Zero(i) => i.emit(program_addr, path_addr),
            InstructionSet::Right(i) => i.emit(program_addr, path_addr),
            InstructionSet::Left(i) => i.emit(program_addr, path_addr),
            InstructionSet::Increment(i) => i.emit(program_addr, path_addr),
            InstructionSet::Decrement(i) => i.emit(program_addr, path_addr),
            InstructionSet::Input(i) => i.emit(program_addr, path_addr),
            InstructionSet::Output(i) => i.emit(program_addr, path_addr),
            InstructionSet::LeftJump(i) => i.emit(program_addr, path_addr),
            InstructionSet::RightJump(i) => i.emit(program_addr, path_addr),
        }
    }
}

/// Whether `i` opens a loop whose end is not known yet.
pub open spec fn is_open_jump(i: InstructionSet) -> bool {
    i == InstructionSet::RightJump(RightJump { end: 0 })
}

/// The single instruction that the loop `s` (its opening jump, whose end
/// is not known yet, followed by its body) folds into, if it has one of
/// the shapes `[-]`, `[->+<]`, `[-<+>]`, `[>]` or `[<]`.
pub open spec fn fold_of(s: Seq<InstructionSet>) -> Option<InstructionSet> {
    let decrement_by_one = InstructionSet::Decrement(Decrement { amount: 1 });
    let increment_by_one = InstructionSet::Increment(Increment { amount: 1 });
    if s.len() == 2 && is_open_jump(s[0]) && s[1] == decrement_by_one {
        Some(InstructionSet::Zero(Zero))
    } else if s.len() == 5 && is_open_jump(s[0]) && s[1] == decrement_by_one && s[3]
        == increment_by_one {
        match (s[2], s[4]) {
            (InstructionSet::Right(r), InstructionSet::Left(l)) => if r.count == l.count {
                Some(
                    InstructionSet::RightCarry(
                        RightCarry { count: r.count, source_mapping: r.source_mapping },
                    ),
                )
            } else {
                None
            },
            (InstructionSet::Left(l), InstructionSet::Right(r)) => if r.count == l.count {
                Some(
                    InstructionSet::LeftCarry(
                        LeftCarry { count: l.count, source_mapping: l.source_mapping },
                    ),
                )
            } else {
                None
            },
            _ => None,
        }
    } else if s.len() == 2 && is_open_jump(s[0]) {
        match s[1] {
            InstructionSet::Right(r) => if r.count == 1 {
                Some(InstructionSet::RightScan(RightScan { source_mapping: r.source_mapping }))
            } else {
                None
            },
            InstructionSet::Left(l) => if l.count == 1 {
                Some(InstructionSet::LeftScan(LeftScan { source_mapping: l.source_mapping }))
            } else {
                None
            },
            _ => None,
        }
    } else {
        None
    }
}

/// Folding a loop into a single instruction.
pub trait Optimisation {
    spec fn folded(&self) -> Option<InstructionSet>;

    fn try_fold(&self) -> (r: Option<InstructionSet>)
        ensures
            r == self.folded(),
    ;
}

fn is_open(i: &InstructionSet) -> (r: bool)
    ensures
        r == is_open_jump(*i),
{
    match i {
        InstructionSet::RightJump(j) => j.end == 0,
        _ => false,
    }
}

fn is_decrement_by_one(i: &InstructionSet) -> (r: bool)
    ensures
        r == (*i == InstructionSet::Decrement(Decrement { amount: 1 })),
{
    match i {
        InstructionSet::Decrement(d) => d.amount == 1,
        _ => false,
    }
}

fn is_increment_by_one(i: &InstructionSet) -> (r: bool)
    ensures
        r == (*i == InstructionSet::Increment(Increment { amount: 1 })),
{
    match i {
        InstructionSet::Increment(d) => d.amount == 1,
        _ => false,
    }
}

impl Optimisation for [InstructionSet] {
    open spec fn folded(&self) -> Option<InstructionSet> {
        fold_of(self@)
    }

    fn try_fold(&self) -> (r: Option<InstructionSet>) {
        if self.len() == 2 && is_open(&self[0]) && is_decrement_by_one(&self[1]) {
            // [-]
            Some(InstructionSet::Zero(Zero))
        } else if self.len() == 5 && is_open(&self[0]) && is_decrement_by_one(&self[1])
            && is_increment_by_one(&self[3]) {
            match (&self[2], &self[4]) {
                // [->+<]
                (InstructionSet::Right(right), InstructionSet::Left(left)) => {
                    if right.count == left.count {
                        Some(
                            InstructionSet::RightCarry(
                                RightCarry::new(right.count, right.source_mapping.clone()),
                            ),
                        )
                    } else {
                        None
                    }
                },
                // [-<+>]
                (InstructionSet::Left(left), InstructionSet::Right(right)) => {
                    if right.count == left.count {
                        Some(
                            InstructionSet::LeftCarry(
                                LeftCarry::new(left.count, left.source_mapping.clone()),
                            ),
                        )
                    } else {
                        None
                    }
                },
                _ => None,
            }
        } else if self.len() == 2 && is_open(&self[0]) {
            match &self[1] {
                // [>]
                InstructionSet::Right(right) => {
                    if right.count == 1 {
                        Some(
                            InstructionSet::RightScan(
                                RightScan::new(right.source_mapping.clone()),
                            ),
                        )
                    } else {
                        None
                    }
                },
                // [<]
                InstructionSet::Left(left) => {
                    if left.count == 1 {
                        Some(InstructionSet::LeftScan(LeftScan::new(left.source_mapping.clone())))
                    } else {
                        None
                    }
                },
                _ => None,
            }
        } else {
            None
        }
    }
}

} // verus!
