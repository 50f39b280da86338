use bf_jit::compiler::web::{LEB128, SLEB128};
use bf_jit::instruction::commands::{
    Decrement, Increment, Input, Left, LeftJump, Output, Right, RightJump,
};
use bf_jit::instruction::optimisation::{LeftCarry, LeftScan, RightCarry, RightScan, Zero};
use bf_jit::instruction::parse::{from_tokens, unbalanced_jump};
use bf_jit::instruction::{Effect, Instruction, InstructionSet, MemoryFault, Optimisation};
use bf_jit::program::{Program, MEMORY_SIZE};
use bf_jit::tokeniser::{tokenise, SourceMapping, Token, TokenKind};

fn at(line: usize, column: usize) -> SourceMapping {
    SourceMapping { line, column, file_path: String::from("t.bf") }
}

fn compile(source: &str) -> Vec<InstructionSet> {
    from_tokens(tokenise(source, "t.bf"))
}

/// Runs a program to its end, feeding it `input` and collecting its output.
fn run(source: &str, input: &[u8]) -> (Program, Vec<u8>, Option<MemoryFault>) {
    let mut program = Program::new(tokenise(source, "t.bf"));
    let mut output = Vec::new();
    let mut input = input.iter();
    while program.counter < program.instructions.len() {
        if let Some(fault) = program.next_fault() {
            return (program, output, Some(fault));
        }
        match program.step() {
            Effect::Continue => {}
            Effect::Read(count) => {
                for _ in 0..count {
                    program.store_input(*input.next().unwrap());
                }
            }
            Effect::Write(byte, count) => {
                for _ in 0..count {
                    output.push(byte);
                }
            }
        }
    }
    (program, output, None)
}

#[test]
fn tokenise_keeps_commands_and_positions() {
    let tokens = tokenise("a>+\n [x-]<.,", "t.bf");
    assert_eq!(tokens.len(), 8);
    assert_eq!(tokens[0], Token::Right(at(1, 2)));
    assert!(matches!(&tokens[0], Token::Right(m) if *m == at(1, 2)));
    assert!(matches!(&tokens[1], Token::Increment));
    assert!(matches!(&tokens[2], Token::RightJump(m) if *m == at(2, 2)));
    assert!(matches!(&tokens[3], Token::Decrement));
    assert!(matches!(&tokens[4], Token::LeftJump(m) if *m == at(2, 5)));
    assert!(matches!(&tokens[5], Token::Left(m) if *m == at(2, 6)));
    assert!(matches!(&tokens[6], Token::Output));
    assert!(matches!(&tokens[7], Token::Input));
}

#[test]
fn tokenise_empty_and_comment_only() {
    assert!(tokenise("", "t.bf").is_empty());
    assert!(tokenise("hello world\n", "t.bf").is_empty());
}

#[test]
fn source_mapping_getters() {
    let m = at(3, 7);
    assert_eq!(m.line(), 3);
    assert_eq!(m.column(), 7);
    assert_eq!(m.file_path(), "t.bf");
}

#[test]
fn tokens_are_equal_by_command_only() {
    assert!(Token::Right(at(1, 1)) == Token::Right(at(9, 9)));
    assert!(Token::Right(at(1, 1)) != Token::Left(at(1, 1)));
    assert!(Token::Increment == Token::Increment);
    assert!(Token::Input != Token::Output);
    assert_eq!(TokenKind::Right, TokenKind::Right);
}

#[test]
fn leb128_encodings() {
    assert_eq!(LEB128::from(0).inner, vec![0x00]);
    assert_eq!(LEB128::from(127).inner, vec![0x7f]);
    assert_eq!(LEB128::from(128).inner, vec![0x80, 0x01]);
    assert_eq!(LEB128::from(624485).inner, vec![0xe5, 0x8e, 0x26]);
    assert_eq!(LEB128::from(u32::MAX).inner, vec![0xff, 0xff, 0xff, 0xff, 0x0f]);
}

#[test]
fn sleb128_encodings() {
    assert_eq!(SLEB128::from(0).inner, vec![0x00]);
    assert_eq!(SLEB128::from(-1).inner, vec![0x7f]);
    assert_eq!(SLEB128::from(63).inner, vec![0x3f]);
    assert_eq!(SLEB128::from(64).inner, vec![0xc0, 0x00]);
    assert_eq!(SLEB128::from(-64).inner, vec![0x40]);
    assert_eq!(SLEB128::from(-65).inner, vec![0xbf, 0x7f]);
    assert_eq!(SLEB128::from(-123456).inner, vec![0xc0, 0xbb, 0x78]);
    assert_eq!(SLEB128::from(i32::MIN).inner, vec![0x80, 0x80, 0x80, 0x80, 0x78]);
}

#[test]
fn runs_of_one_command_are_compressed() {
    let program = compile("+++>>--<,,..");
    assert_eq!(
        program,
        vec![
            InstructionSet::Increment(Increment::new(3)),
            InstructionSet::Right(Right::new(2, at(1, 4))),
            InstructionSet::Decrement(Decrement::new(2)),
            InstructionSet::Left(Left::new(1, at(1, 8))),
            InstructionSet::Input(Input::new(2)),
            InstructionSet::Output(Output::new(2)),
        ]
    );
}

#[test]
fn increment_amount_wraps_at_256() {
    let source = "+".repeat(257);
    assert_eq!(compile(&source), vec![InstructionSet::Increment(Increment::new(1))]);
}

#[test]
fn known_loops_are_folded() {
    assert_eq!(compile("[-]"), vec![InstructionSet::Zero(Zero)]);
    assert_eq!(
        compile("[->>+<<]"),
        vec![InstructionSet::RightCarry(RightCarry::new(2, at(1, 3)))]
    );
    assert_eq!(compile("[-<+>]"), vec![InstructionSet::LeftCarry(LeftCarry::new(1, at(1, 3)))]);
    assert_eq!(compile("[>]"), vec![InstructionSet::RightScan(RightScan::new(at(1, 2)))]);
    assert_eq!(compile("[<]"), vec![InstructionSet::LeftScan(LeftScan::new(at(1, 2)))]);
}

#[test]
fn other_loops_get_matched_jumps() {
    assert_eq!(
        compile("+[->>+<]"),
        vec![
            InstructionSet::Increment(Increment::new(1)),
            InstructionSet::RightJump(RightJump::new(6)),
            InstructionSet::Decrement(Decrement::new(1)),
            InstructionSet::Right(Right::new(2, at(1, 4))),
            InstructionSet::Increment(Increment::new(1)),
            InstructionSet::Left(Left::new(1, at(1, 7))),
            InstructionSet::LeftJump(LeftJump::new(1)),
        ]
    );
    assert_eq!(
        compile("[[-]>]"),
        vec![
            InstructionSet::RightJump(RightJump::new(3)),
            InstructionSet::Zero(Zero),
            InstructionSet::Right(Right::new(1, at(1, 5))),
            InstructionSet::LeftJump(LeftJump::new(0)),
        ]
    );
    assert_eq!(
        compile("[>>]"),
        vec![
            InstructionSet::RightJump(RightJump::new(2)),
            InstructionSet::Right(Right::new(2, at(1, 2))),
            InstructionSet::LeftJump(LeftJump::new(0)),
        ]
    );
}

#[test]
fn try_fold_on_slices() {
    let zero = [
        InstructionSet::RightJump(RightJump::new(0)),
        InstructionSet::Decrement(Decrement::new(1)),
    ];
    assert_eq!(zero[..].try_fold(), Some(InstructionSet::Zero(Zero)));
    let closed = [
        InstructionSet::RightJump(RightJump::new(2)),
        InstructionSet::Decrement(Decrement::new(1)),
    ];
    assert_eq!(closed[..].try_fold(), None);
    let by_two = [
        InstructionSet::RightJump(RightJump::new(0)),
        InstructionSet::Decrement(Decrement::new(2)),
    ];
    assert_eq!(by_two[..].try_fold(), None);
}

#[test]
fn unbalanced_jumps_are_found() {
    assert_eq!(unbalanced_jump(&tokenise("[]", "t.bf")), None);
    assert_eq!(unbalanced_jump(&tokenise("+[>[-]<]", "t.bf")), None);
    assert_eq!(unbalanced_jump(&tokenise("]", "t.bf")), Some(0));
    assert_eq!(unbalanced_jump(&tokenise("[]][", "t.bf")), Some(2));
    assert_eq!(unbalanced_jump(&tokenise("[[]", "t.bf")), Some(0));
    assert_eq!(unbalanced_jump(&tokenise("[][[+]", "t.bf")), Some(2));
}

#[test]
fn new_program_starts_on_zeroed_memory() {
    let program = Program::new(tokenise("+>", "t.bf"));
    assert_eq!(program.pointer, 0);
    assert_eq!(program.counter, 0);
    assert_eq!(program.memory.len(), MEMORY_SIZE);
    assert_eq!(MEMORY_SIZE, 1024 * 1024);
    assert!(program.memory.iter().all(|c| *c == 0));
    assert_eq!(program.instructions.len(), 2);
}

#[test]
fn program_writes_a_letter() {
    let (program, output, fault) = run("++++++++[>++++++++<-]>+.", &[]);
    assert!(fault.is_none());
    assert_eq!(output, b"A".to_vec());
    assert_eq!(program.pointer, 1);
    assert_eq!(program.memory[0], 0);
    assert_eq!(program.memory[1], 65);
}

#[test]
fn program_echoes_input() {
    let (_, output, fault) = run(",+.,,.", b"abc");
    assert!(fault.is_none());
    assert_eq!(output, b"bc".to_vec());
}

#[test]
fn output_repeats_the_cell() {
    let (_, output, _) = run("+++...", &[]);
    assert_eq!(output, vec![3, 3, 3]);
}

#[test]
fn carry_and_clear_run_as_their_loops() {
    let (program, _, fault) = run("+++[->+<]>>++++[-<<+>>]<<", &[]);
    assert!(fault.is_none());
    assert_eq!(&program.memory[0..3], &[4, 3, 0]);
    let (program, _, _) = run("-[-]", &[]);
    assert_eq!(program.memory[0], 0);
    let (program, _, _) = run(">>+<+>[<]", &[]);
    assert_eq!(program.pointer, 0);
    let (program, _, _) = run("+>+>+<<[>]", &[]);
    assert_eq!(program.pointer, 3);
}

#[test]
fn cells_wrap() {
    let (program, _, _) = run("-", &[]);
    assert_eq!(program.memory[0], 255);
    let (program, _, _) = run("-+", &[]);
    assert_eq!(program.memory[0], 0);
}

#[test]
fn moving_left_of_the_first_cell_is_an_underflow() {
    let (program, _, fault) = run("><<", &[]);
    assert_eq!(fault, Some(MemoryFault::Underflow(at(1, 2))));
    assert_eq!(program.pointer, 1);
    assert_eq!(program.counter, 1);
}

#[test]
fn moving_past_the_memory_is_an_overflow() {
    let mut program = Program::new(tokenise(">", "t.bf"));
    program.pointer = MEMORY_SIZE - 2;
    assert_eq!(program.next_fault(), None);
    program.pointer = MEMORY_SIZE - 1;
    assert_eq!(program.next_fault(), Some(MemoryFault::Overflow(at(1, 1))));
    assert_eq!(program.pointer, MEMORY_SIZE - 1);
}

#[test]
fn scans_and_carries_fault_at_the_memory_bounds() {
    let (_, _, fault) = run("+[<]", &[]);
    assert_eq!(fault, Some(MemoryFault::Overflow(at(1, 3))));
    let (_, _, fault) = run("+[-<+>]", &[]);
    assert_eq!(fault, Some(MemoryFault::Underflow(at(1, 4))));
    let mut program = Program::new(tokenise("+[->+<]", "t.bf"));
    program.pointer = MEMORY_SIZE - 1;
    assert_eq!(program.next_fault(), None);
    assert_eq!(program.step(), Effect::Continue);
    assert_eq!(program.next_fault(), Some(MemoryFault::Overflow(at(1, 4))));
    let mut program = Program::new(tokenise("[>]", "t.bf"));
    for cell in program.memory.iter_mut() {
        *cell = 1;
    }
    assert_eq!(program.next_fault(), Some(MemoryFault::Overflow(at(1, 2))));
    program.memory[MEMORY_SIZE - 1] = 0;
    assert_eq!(program.next_fault(), None);
    program.step();
    assert_eq!(program.pointer, MEMORY_SIZE - 1);
}

#[test]
fn jumps_move_the_counter() {
    let mut program = Program::new(tokenise("[>>]+", "t.bf"));
    assert_eq!(program.step(), Effect::Continue);
    assert_eq!(program.counter, 3);
    let mut program = Program::new(tokenise("+[>>]", "t.bf"));
    program.step();
    program.step();
    assert_eq!(program.counter, 2);
    program.step();
    assert_eq!(program.counter, 3);
    program.memory[2] = 5;
    program.step();
    assert_eq!(program.counter, 2);
}

#[test]
fn source_mapping_of_instructions() {
    let program = compile("+>");
    assert_eq!(program[0].source_mapping(), None);
    assert_eq!(program[1].source_mapping(), Some(&at(1, 2)));
}

#[test]
fn emit_increment() {
    let code = Increment::new(3).emit(1024, 0);
    assert_eq!(
        code,
        vec![
            0x41, 0x80, 0x08, 0x28, 0x02, 0x00, 0x41, 0x80, 0x08, 0x28, 0x02, 0x0c, 0x6a, 0x21,
            0x00, 0x20, 0x00, 0x20, 0x00, 0x2d, 0x00, 0x00, 0x41, 0x03, 0x6a, 0x3a, 0x00, 0x00,
        ]
    );
    let code = Decrement::new(200).emit(16, 0);
    assert_eq!(
        code,
        vec![
            0x41, 0x10, 0x28, 0x02, 0x00, 0x41, 0x10, 0x28, 0x02, 0x0c, 0x6a, 0x21, 0x00, 0x20,
            0x00, 0x20, 0x00, 0x2d, 0x00, 0x00, 0x41, 0xc8, 0x01, 0x6b, 0x3a, 0x00, 0x00,
        ]
    );
}

#[test]
fn emit_right_with_its_place() {
    let right = Right::new(3, SourceMapping { line: 2, column: 5, file_path: String::from("a.bf") });
    assert_eq!(
        right.emit(16, 300),
        vec![
            0x41, 0x10, 0x28, 0x02, 0x00, 0x41, 0x03, 0x6a, 0x21, 0x02, 0x20, 0x02, 0x41, 0x10,
            0x28, 0x02, 0x08, 0x4e, 0x04, 0x40, 0x41, 0x01, 0x41, 0x02, 0x41, 0x05, 0x41, 0xac,
            0x02, 0x41, 0x04, 0x08, 0x00, 0x0b, 0x41, 0x10, 0x20, 0x02, 0x36, 0x02, 0x00,
        ]
    );
    let left = Left::new(1, SourceMapping { line: 1, column: 1, file_path: String::from("é") });
    assert_eq!(
        left.emit(16, -2),
        vec![
            0x41, 0x10, 0x28, 0x02, 0x00, 0x41, 0x01, 0x6b, 0x21, 0x02, 0x20, 0x02, 0x41, 0x00,
            0x48, 0x04, 0x40, 0x41, 0x00, 0x41, 0x01, 0x41, 0x01, 0x41, 0x7e, 0x41, 0x02, 0x08,
            0x00, 0x0b, 0x41, 0x10, 0x20, 0x02, 0x36, 0x02, 0x00,
        ]
    );
}

#[test]
fn emit_jumps_and_io() {
    assert_eq!(LeftJump::new(130).emit(0, 0), vec![0x41, 0x82, 0x01, 0x21, 0x01, 0x0c, 0x00, 0x0b]);
    assert_eq!(
        RightJump::new(7).emit(1, 0),
        vec![
            0x03, 0x40, 0x41, 0x01, 0x28, 0x02, 0x00, 0x41, 0x01, 0x28, 0x02, 0x0c, 0x6a, 0x2d,
            0x00, 0x00, 0x45, 0x0d, 0x01,
        ]
    );
    assert_eq!(
        Input::new(1).emit(1, 0),
        vec![
            0x41, 0x01, 0x28, 0x02, 0x00, 0x41, 0x01, 0x28, 0x02, 0x0c, 0x6a, 0x10, 0x00, 0x3a,
            0x00, 0x00,
        ]
    );
    assert_eq!(
        Output::new(2).emit(1, 0),
        vec![
            0x41, 0x01, 0x28, 0x02, 0x00, 0x41, 0x01, 0x28, 0x02, 0x0c, 0x6a, 0x2d, 0x00, 0x00,
            0x41, 0x02, 0x10, 0x01,
        ]
    );
    assert_eq!(
        Zero.emit(1, 0),
        vec![
            0x41, 0x01, 0x28, 0x02, 0x00, 0x41, 0x01, 0x28, 0x02, 0x0c, 0x6a, 0x41, 0x00, 0x3a,
            0x00, 0x00,
        ]
    );
}

#[test]
fn emit_scans_and_carries() {
    let scan = RightScan::new(at(1, 1)).emit(1, 0);
    assert_eq!(
        scan,
        vec![
            0x41, 0x01, 0x28, 0x02, 0x00, 0x21, 0x02, 0x02, 0x40, 0x03, 0x40, 0x20, 0x02, 0x41,
            0x01, 0x28, 0x02, 0x0c, 0x6a, 0x2d, 0x00, 0x00, 0x45, 0x0d, 0x01, 0x20, 0x02, 0x41,
            0x01, 0x6a, 0x21, 0x02, 0x20, 0x02, 0x41, 0x01, 0x28, 0x02, 0x08, 0x4e, 0x04, 0x40,
            0x41, 0x01, 0x41, 0x01, 0x41, 0x01, 0x41, 0x00, 0x41, 0x04, 0x08, 0x00, 0x0b, 0x0c,
            0x00, 0x0b, 0x0b, 0x41, 0x01, 0x20, 0x02, 0x36, 0x02, 0x00,
        ]
    );
    let left_scan = LeftScan::new(at(1, 1)).emit(1, 0);
    assert_eq!(
        left_scan,
        vec![
            0x41, 0x01, 0x28, 0x02, 0x00, 0x21, 0x02, 0x02, 0x40, 0x03, 0x40, 0x20, 0x02, 0x41,
            0x01, 0x28, 0x02, 0x0c, 0x6a, 0x2d, 0x00, 0x00, 0x45, 0x0d, 0x01, 0x20, 0x02, 0x41,
            0x00, 0x4c, 0x04, 0x40, 0x41, 0x01, 0x41, 0x01, 0x41, 0x01, 0x41, 0x00, 0x41, 0x04,
            0x08, 0x00, 0x0b, 0x20, 0x02, 0x41, 0x01, 0x6b, 0x21, 0x02, 0x0c, 0x00, 0x0b, 0x0b,
            0x41, 0x01, 0x20, 0x02, 0x36, 0x02, 0x00,
        ]
    );
    let carry = RightCarry::new(1, at(1, 1)).emit(1, 0);
    assert_eq!(carry.len(), 90);
    assert_eq!(&carry[0..7], &[0x41, 0x01, 0x28, 0x02, 0x00, 0x21, 0x02]);
    assert_eq!(&carry[34..40], &[0x41, 0x01, 0x28, 0x02, 0x08, 0x4e]);
    assert_eq!(&carry[carry.len() - 7..], &[0x20, 0x00, 0x41, 0x00, 0x3a, 0x00, 0x00]);
    let left_carry = LeftCarry::new(1, at(1, 1)).emit(1, 0);
    assert_eq!(left_carry.len(), carry.len() - 3);
    assert_eq!(InstructionSet::Zero(Zero).emit(1, 0), Zero.emit(1, 0));
}

#[test]
fn literals_are_signed_leb128() {
    let code = Increment::new(64).emit(0, 0);
    assert_eq!(&code[code.len() - 7..], &[0x41, 0xc0, 0x00, 0x6a, 0x3a, 0x00, 0x00]);
    let code = Decrement::new(255).emit(0, 0);
    assert_eq!(&code[code.len() - 7..], &[0x41, 0xff, 0x01, 0x6b, 0x3a, 0x00, 0x00]);
    let code = Right::new(64, at(100, 70)).emit(0, 0);
    assert_eq!(&code[5..13], &[0x41, 0xc0, 0x00, 0x6a, 0x21, 0x02, 0x20, 0x02]);
    assert_eq!(&code[19..30], &[0x04, 0x40, 0x41, 0x01, 0x41, 0xe4, 0x00, 0x41, 0xc6, 0x00, 0x41]);
    let code = Left::new(127, at(1, 1)).emit(0, 0);
    assert_eq!(&code[5..9], &[0x41, 0xff, 0x00, 0x6b]);
    let code = LeftCarry::new(100, at(1, 1)).emit(0, 0);
    assert_eq!(&code[26..30], &[0x41, 0xe4, 0x00, 0x6c]);
}

#[test]
fn input_reads_every_byte_and_keeps_the_last() {
    assert_eq!(Input::new(0).emit(1, 0), Vec::<u8>::new());
    let last = Input::new(1).emit(1, 0);
    let code = Input::new(3).emit(1, 0);
    let mut expected = vec![0x10, 0x00, 0x1a, 0x10, 0x00, 0x1a];
    expected.extend_from_slice(&last);
    assert_eq!(code, expected);
}

#[test]
fn encodable_literals() {
    assert!(Increment::new(255).is_encodable());
    assert!(Right::new(0x7fff_ffff, at(1, 1)).is_encodable());
    assert!(!Right::new(0x8000_0000, at(1, 1)).is_encodable());
    assert!(!Left::new(1, at(0x8000_0000, 1)).is_encodable());
    assert!(!Output::new(0x8000_0000).is_encodable());
    assert!(!LeftJump::new(0x8000_0000).is_encodable());
    assert!(RightScan::new(at(1, 1)).is_encodable());
    assert!(!InstructionSet::LeftCarry(LeftCarry::new(0x8000_0000, at(1, 1))).is_encodable());
}

#[test]
fn leb128_encodings_are_shortest() {
    for v in [0u32, 1, 127, 128, 300, 16384, u32::MAX] {
        let bytes = LEB128::from(v).inner;
        assert!(bytes.len() == 1 || *bytes.last().unwrap() != 0);
        assert!(bytes.len() <= 5);
    }
    for v in [0i32, 63, 64, -64, -65, 8191, -8193, i32::MAX, i32::MIN] {
        let bytes = SLEB128::from(v).inner;
        let n = bytes.len();
        assert!((1..=5).contains(&n));
        if n > 1 {
            assert!(!(bytes[n - 1] == 0x00 && bytes[n - 2] & 0x40 == 0));
            assert!(!(bytes[n - 1] == 0x7f && bytes[n - 2] & 0x40 != 0));
        }
    }
}

#[test]
fn loops_nest() {
    let program = compile("[>>[>>]<<[<<]]");
    assert_eq!(program[0], InstructionSet::RightJump(RightJump::new(9)));
    assert_eq!(program[2], InstructionSet::RightJump(RightJump::new(4)));
    assert_eq!(program[6], InstructionSet::RightJump(RightJump::new(8)));
    assert_eq!(program[9], InstructionSet::LeftJump(LeftJump::new(0)));
}

#[test]
fn instructions_convert_into_the_set() {
    assert_eq!(InstructionSet::from(Zero), InstructionSet::Zero(Zero));
    let right: InstructionSet = Right::new(2, at(1, 1)).into();
    assert_eq!(right, InstructionSet::Right(Right::new(2, at(1, 1))));
    let jump: InstructionSet = LeftJump::new(4).into();
    assert_eq!(jump, InstructionSet::LeftJump(LeftJump::new(4)));
    assert_eq!(InstructionSet::from(Input::new(3)), InstructionSet::Input(Input::new(3)));
    let leb: LEB128 = 300u32.into();
    assert_eq!(leb.inner, vec![0xac, 0x02]);
    let sleb: SLEB128 = (-2i32).into();
    assert_eq!(sleb.inner, vec![0x7e]);
}
