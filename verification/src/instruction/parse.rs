//! Compiles tokens into instructions: runs of one command become one
//! instruction, loops are matched, and loops of known shapes are folded
//! into single instructions.

use vstd::prelude::*;

use crate::instruction::commands::{
    Decrement, Increment, Input, Left, LeftJump, Output, Right, RightJump,
};
use crate::instruction::{fold_of, is_open_jump, InstructionSet, Optimisation};
use crate::tokeniser::{kind_of, Token, TokenKind};

verus! {

/// How a token changes the nesting depth of loops.
pub open spec fn depth_change(t: Token) -> int {
    match t {
        Token::RightJump(_) => 1,
        Token::LeftJump(_) => -1,
        _ => 0,
    }
}

/// The nesting depth of loops after the first `n` tokens: opened loops
/// less closed ones.
pub open spec fn depth(tokens: Seq<Token>, n: int) -> int
    decreases n,
{
    if n <= 0 {
        0
    } else {
        depth(tokens, n - 1) + depth_change(tokens[n - 1])
    }
}

/// Every loop is closed, and none is closed before it is opened.
pub open spec fn balanced(tokens: Seq<Token>) -> bool {
    &&& forall|n: int| 0 <= n <= tokens.len() ==> #[trigger] depth(tokens, n) >= 0
    &&& depth(tokens, tokens.len() as int) == 0
}

/// The end of the run of tokens of the same command as `tokens[i]` that
/// continues at `j`.
pub open spec fn run_end(tokens: Seq<Token>, i: int, j: int) -> int
    decreases tokens.len() - j,
{
    if 0 <= j < tokens.len() && kind_of(tokens[j]) == kind_of(tokens[i]) {
        run_end(tokens, i, j + 1)
    } else {
        j
    }
}

/// The instruction for a run of `count` tokens like `t`, which is not a jump.
pub open spec fn instruction_for(t: Token, count: usize) -> InstructionSet {
    match t {
        Token::Right(m) => InstructionSet::Right(Right { count, source_mapping: m }),
        Token::Left(m) => InstructionSet::Left(Left { count, source_mapping: m }),
        Token::Increment => InstructionSet::Increment(Increment { amount: count as u8 }),
        Token::Decrement => InstructionSet::Decrement(Decrement { amount: count as u8 }),
        Token::Input => InstructionSet::Input(Input { count }),
        Token::Output => InstructionSet::Output(Output { count }),
        Token::RightJump(_) => InstructionSet::RightJump(RightJump { end: 0 }),
        Token::LeftJump(_) => InstructionSet::LeftJump(LeftJump { start: 0 }),
    }
}

pub proof fn lemma_run_end_bounds(tokens: Seq<Token>, i: int, j: int)
    requires
        0 <= j <= tokens.len(),
    ensures
        j <= run_end(tokens, i, j) <= tokens.len(),
        forall|k: int|
            j <= k < run_end(tokens, i, j) ==> kind_of(#[trigger] tokens[k]) == kind_of(tokens[i]),
        run_end(tokens, i, j) < tokens.len() ==> kind_of(tokens[run_end(tokens, i, j)]) != kind_of(
            tokens[i],
        ),
    decreases tokens.len() - j,
{
    if j < tokens.len() && kind_of(tokens[j]) == kind_of(tokens[i]) {
        lemma_run_end_bounds(tokens, i, j + 1);
    }
}

/// The instructions that the tokens from `i` on compile to, after the
/// tokens before `i` compiled to `instructions` and left the loops opened
/// at the indices of `open` unclosed.
///
/// An opening jump is compiled with an unknown end and its index is
/// remembered; a closing jump closes the last loop opened: the loop folds
/// into one instruction (see `fold_of`) or its jumps are given each
/// other's index; a run of any other command becomes one instruction
/// that counts its tokens.
pub open spec fn compile_from(
    tokens: Seq<Token>,
    i: int,
    instructions: Seq<InstructionSet>,
    open: Seq<usize>,
) -> Seq<InstructionSet>
    decreases tokens.len() - i,
{
    if i < 0 || i >= tokens.len() {
        instructions
    } else {
        match tokens[i] {
            Token::RightJump(_) => compile_from(
                tokens,
                i + 1,
                instructions.push(InstructionSet::RightJump(RightJump { end: 0 })),
                open.push(instructions.len() as usize),
            ),
            Token::LeftJump(_) => if open.len() == 0 {
                instructions
            } else {
                let start = open.last() as int;
                let end = instructions.len() as int;
                match fold_of(instructions.subrange(start, end)) {
                    Some(f) => compile_from(
                        tokens,
                        i + 1,
                        instructions.subrange(0, start).push(f),
                        open.drop_last(),
                    ),
                    None => compile_from(
                        tokens,
                        i + 1,
                        instructions.update(
                            start,
                            InstructionSet::RightJump(RightJump { end: end as usize }),
                        ).push(InstructionSet::LeftJump(LeftJump { start: start as usize })),
                        open.drop_last(),
                    ),
                }
            },
            _ => {
                proof {
                    lemma_run_end_bounds(tokens, i, i + 1);
                }
                let end = run_end(tokens, i, i + 1);
                compile_from(
                    tokens,
                    end,
                    instructions.push(instruction_for(tokens[i], (end - i) as usize)),
                    open,
                )
            },
        }
    }
}

/// The instructions that balanced tokens compile to.
pub open spec fn compiled(tokens: Seq<Token>) -> Seq<InstructionSet> {
    compile_from(tokens, 0, Seq::empty(), Seq::empty())
}

/// The indices of unclosed loops increase and lie inside `instructions`.
pub open spec fn open_ok(instructions: Seq<InstructionSet>, open: Seq<usize>) -> bool {
    &&& forall|a: int, b: int| 0 <= a < b < open.len() ==> open[a] < open[b]
    &&& forall|a: int| 0 <= a < open.len() ==> #[trigger] open[a] < instructions.len()
}

fn instruction_of(token: &Token, count: usize) -> (r: InstructionSet)
    ensures
        r == instruction_for(*token, count),
{
    match token {
        Token::Right(m) => InstructionSet::Right(Right::new(count, m.clone())),
        Token::Left(m) => InstructionSet::Left(Left::new(count, m.clone())),
        Token::Increment => InstructionSet::Increment(Increment::new(count as u8)),
        Token::Decrement => InstructionSet::Decrement(Decrement::new(count as u8)),
        Token::Input => InstructionSet::Input(Input::new(count)),
        Token::Output => InstructionSet::Output(Output::new(count)),
        Token::RightJump(_) => InstructionSet::RightJump(RightJump::new(0)),
        Token::LeftJump(_) => InstructionSet::LeftJump(LeftJump::new(0)),
    }
}

/// Compiles balanced tokens into instructions.
pub fn from_tokens(tokens: Vec<Token>) -> (instructions: Vec<InstructionSet>)
    requires
        balanced(tokens@),
    ensures
        instructions@ == compiled(tokens@),
{
    let ghost t = tokens@;
    let mut instructions: Vec<InstructionSet> = Vec::new();
    let mut stack: Vec<usize> = Vec::new();
    let n = tokens.len();
    let mut i: usize = 0;
    while i < n
        invariant
            t == tokens@,
            n == t.len(),
            balanced(t),
            i <= n,
            stack@.len() == depth(t, i as int),
            open_ok(instructions@, stack@),
            compiled(t) == compile_from(t, i as int, instructions@, stack@),
        decreases n - i,
    {
        let ghost before = instructions@;
        let ghost open_before = stack@;
        assert(depth(t, i + 1) == depth(t, i as int) + depth_change(t[i as int]));
        assert(depth(t, i + 1) >= 0);
        match &tokens[i] {
            Token::RightJump(_) => {
                stack.push(instructions.len());
                instructions.push(InstructionSet::RightJump(RightJump::new(0)));
                i = i + 1;
                assert(open_ok(instructions@, stack@));
            },
            Token::LeftJump(_) => {
                let start = stack.pop().unwrap();
                let end = instructions.len();
                assert(start == open_before.last());
                match instructions.as_slice()[start..end].try_fold() {
                    Some(instruction) => {
                        instructions.truncate(start);
                        instructions.push(instruction);
                    },
                    None => {
                        instructions.set(start, InstructionSet::RightJump(RightJump::new(end)));
                        instructions.push(InstructionSet::LeftJump(LeftJump::new(start)));
                    },
                }
                i = i + 1;
                assert(open_ok(instructions@, stack@));
            },
            token => {
                let mut token_instance_count: usize = 1;
                let mut j: usize = i + 1;
                proof {
                    lemma_run_end_bounds(t, i as int, i + 1);
                }
                while j < n && tokens[j] == tokens[i]
                    invariant
                        t == tokens@,
                        n == t.len(),
                        i < j <= n,
                        token_instance_count == j - i,
                        run_end(t, i as int, i + 1) == run_end(t, i as int, j as int),
                    decreases n - j,
                {
                    j = j + 1;
                    token_instance_count = token_instance_count + 1;
                }
                proof {
                    lemma_run_end_bounds(t, i as int, i + 1);
                    lemma_depth_run(t, i as int, j as int);
                }
                instructions.push(instruction_of(token, token_instance_count));
                i = j;
                assert(open_ok(instructions@, stack@));
            },
        }
    }
    instructions
}

/// Tokens of one command other than a jump leave the depth unchanged.
proof fn lemma_depth_run(tokens: Seq<Token>, i: int, j: int)
    requires
        0 <= i < j <= tokens.len(),
        forall|k: int| i <= k < j ==> kind_of(#[trigger] tokens[k]) == kind_of(tokens[i]),
        kind_of(tokens[i]) != TokenKind::RightJump,
        kind_of(tokens[i]) != TokenKind::LeftJump,
    ensures
        depth(tokens, j) == depth(tokens, i),
    decreases j - i,
{
    if j > i + 1 {
        lemma_depth_run(tokens, i, j - 1);
    }
    assert(kind_of(tokens[j - 1]) == kind_of(tokens[i]));
}

/// The command that an instruction counts a run of, if it counts one.
pub open spec fn run_kind(i: InstructionSet) -> Option<TokenKind> {
    match i {
        InstructionSet::Right(_) => Some(TokenKind::Right),
        InstructionSet::Left(_) => Some(TokenKind::Left),
        InstructionSet::Increment(_) => Some(TokenKind::Increment),
        InstructionSet::Decrement(_) => Some(TokenKind::Decrement),
        InstructionSet::Input(_) => Some(TokenKind::Input),
        InstructionSet::Output(_) => Some(TokenKind::Output),
        _ => None,
    }
}

/// No instruction that counts a run of a command is followed by another
/// one that counts a run of the same command.
pub open spec fn runs_compressed(instructions: Seq<InstructionSet>) -> bool {
    forall|k: int|
        0 <= k < instructions.len() - 1 ==> (#[trigger] run_kind(instructions[k]) is None
            || run_kind(instructions[k]) != run_kind(instructions[k + 1]))
}

/// What holds while compiling: the runs so far are compressed, and the
/// last instruction, if it counts a run, counts one of another command
/// than the next token's.
pub open spec fn compressed_so_far(
    tokens: Seq<Token>,
    i: int,
    instructions: Seq<InstructionSet>,
) -> bool {
    &&& runs_compressed(instructions)
    &&& (instructions.len() > 0 && 0 <= i < tokens.len()) ==> run_kind(
        instructions.last(),
    ) != Some(kind_of(tokens[i]))
}

proof fn lemma_compressed_push(s: Seq<InstructionSet>, x: InstructionSet)
    requires
        runs_compressed(s),
        s.len() > 0 ==> (run_kind(s.last()) is None || run_kind(s.last()) != run_kind(x)),
    ensures
        runs_compressed(s.push(x)),
{
    let next = s.push(x);
    assert forall|k: int| 0 <= k < next.len() - 1 implies (#[trigger] run_kind(next[k]) is None
        || run_kind(next[k]) != run_kind(next[k + 1])) by {
        assert(next[k] == s[k]);
        if k + 1 < s.len() {
            assert(next[k + 1] == s[k + 1]);
            assert(run_kind(s[k]) is None || run_kind(s[k]) != run_kind(s[k + 1]));
        }
    }
}

proof fn lemma_compressed_prefix(s: Seq<InstructionSet>, n: int)
    requires
        runs_compressed(s),
        0 <= n <= s.len(),
    ensures
        runs_compressed(s.subrange(0, n)),
{
    let next = s.subrange(0, n);
    assert forall|k: int| 0 <= k < next.len() - 1 implies (#[trigger] run_kind(next[k]) is None
        || run_kind(next[k]) != run_kind(next[k + 1])) by {
        assert(next[k] == s[k]);
        assert(next[k + 1] == s[k + 1]);
        assert(run_kind(s[k]) is None || run_kind(s[k]) != run_kind(s[k + 1]));
    }
}

proof fn lemma_compressed_update(s: Seq<InstructionSet>, j: int, y: InstructionSet)
    requires
        runs_compressed(s),
        0 <= j < s.len(),
        run_kind(y) is None,
    ensures
        runs_compressed(s.update(j, y)),
{
    let next = s.update(j, y);
    assert forall|k: int| 0 <= k < next.len() - 1 implies (#[trigger] run_kind(next[k]) is None
        || run_kind(next[k]) != run_kind(next[k + 1])) by {
        if k != j && k + 1 != j {
            assert(next[k] == s[k]);
            assert(next[k + 1] == s[k + 1]);
            assert(run_kind(s[k]) is None || run_kind(s[k]) != run_kind(s[k + 1]));
        }
    }
}

proof fn lemma_compile_from_compressed(
    tokens: Seq<Token>,
    i: int,
    instructions: Seq<InstructionSet>,
    open: Seq<usize>,
)
    requires
        compressed_so_far(tokens, i, instructions),
        open_ok(instructions, open),
        0 <= i <= tokens.len() <= usize::MAX,
        instructions.len() <= i,
    ensures
        runs_compressed(compile_from(tokens, i, instructions, open)),
    decreases tokens.len() - i,
{
    if i < tokens.len() {
        match tokens[i] {
            Token::RightJump(_) => {
                let x = InstructionSet::RightJump(RightJump { end: 0 });
                lemma_compressed_push(instructions, x);
                lemma_compile_from_compressed(
                    tokens,
                    i + 1,
                    instructions.push(x),
                    open.push(instructions.len() as usize),
                );
            },
            Token::LeftJump(_) => {
                if open.len() > 0 {
                    let start = open.last() as int;
                    let end = instructions.len() as int;
                    assert(open[open.len() - 1] < instructions.len());
                    assert forall|a: int| 0 <= a < open.drop_last().len() implies #[trigger] open.drop_last()[a] < start by {
                        assert(open.drop_last()[a] == open[a]);
                        assert(open[a] < open[open.len() - 1]);
                    }
                    lemma_fold_is_no_jump(instructions.subrange(start, end));
                    match fold_of(instructions.subrange(start, end)) {
                        Some(f) => {
                            lemma_compressed_prefix(instructions, start);
                            lemma_compressed_push(instructions.subrange(0, start), f);
                            lemma_compile_from_compressed(
                                tokens,
                                i + 1,
                                instructions.subrange(0, start).push(f),
                                open.drop_last(),
                            );
                        },
                        None => {
                            let y = InstructionSet::RightJump(RightJump { end: end as usize });
                            let z = InstructionSet::LeftJump(LeftJump { start: start as usize });
                            lemma_compressed_update(instructions, start, y);
                            lemma_compressed_push(instructions.update(start, y), z);
                            lemma_compile_from_compressed(
                                tokens,
                                i + 1,
                                instructions.update(start, y).push(z),
                                open.drop_last(),
                            );
                        },
                    }
                }
            },
            _ => {
                lemma_run_end_bounds(tokens, i, i + 1);
                let end = run_end(tokens, i, i + 1);
                let x = instruction_for(tokens[i], (end - i) as usize);
                assert(run_kind(x) == Some(kind_of(tokens[i])));
                lemma_compressed_push(instructions, x);
                lemma_compile_from_compressed(tokens, end, instructions.push(x), open);
            },
        }
    }
}

/// The compiled program is compressed: a run of one command compiles to
/// one instruction, so that no instruction that counts a run is followed
/// by one that counts a run of the same command.
pub proof fn lemma_compiled_runs_compressed(tokens: Seq<Token>)
    requires
        tokens.len() <= usize::MAX,
    ensures
        runs_compressed(compiled(tokens)),
{
    lemma_compile_from_compressed(tokens, 0, Seq::empty(), Seq::empty());
}

/// Whether `k` is the index of the jump that makes `tokens` unbalanced:
/// the first closing jump that closes no loop, or, where there is none,
/// the last loop that is opened and not closed.
pub open spec fn is_unbalanced_jump(tokens: Seq<Token>, k: int) -> bool {
    &&& 0 <= k < tokens.len()
    &&& {
        ||| {
            &&& tokens[k] is LeftJump
            &&& depth(tokens, k + 1) < 0
            &&& forall|m: int| 0 <= m <= k ==> #[trigger] depth(tokens, m) >= 0
        }
        ||| {
            &&& tokens[k] is RightJump
            &&& forall|m: int| 0 <= m <= tokens.len() ==> #[trigger] depth(tokens, m) >= 0
            &&& depth(tokens, k) == depth(tokens, tokens.len() as int) - 1
            &&& forall|m: int| k < m <= tokens.len() ==> #[trigger] depth(tokens, m) > depth(tokens, k)
        }
    }
}

/// Finds the jump that makes the tokens unbalanced, if any: the first
/// closing jump that closes no loop, else the last loop left open.
pub fn unbalanced_jump(tokens: &Vec<Token>) -> (r: Option<usize>)
    ensures
        r is None <==> balanced(tokens@),
        r matches Some(k) ==> is_unbalanced_jump(tokens@, k as int),
{
    let ghost t = tokens@;
    let mut stack: Vec<usize> = Vec::new();
    let n = tokens.len();
    let mut i: usize = 0;
    while i < n
        invariant
            t == tokens@,
            n == t.len(),
            i <= n,
            stack@.len() == depth(t, i as int),
            forall|m: int| 0 <= m <= i ==> #[trigger] depth(t, m) >= 0,
            forall|a: int|
                0 <= a < stack@.len() ==> {
                    &&& stack@[a] < i
                    &&& t[stack@[a] as int] is RightJump
                    &&& depth(t, stack@[a] as int) == a
                },
            forall|a: int, m: int|
                0 <= a < stack@.len() && #[trigger] stack@[a] < m <= i ==> #[trigger] depth(t, m)
                    > a,
        decreases n - i,
    {
        assert(depth(t, i + 1) == depth(t, i as int) + depth_change(t[i as int]));
        match &tokens[i] {
            Token::RightJump(_) => {
                stack.push(i);
            },
            Token::LeftJump(_) => {
                if stack.len() == 0 {
                    return Some(i);
                }
                stack.pop();
            },
            _ => {},
        }
        i = i + 1;
    }
    if stack.len() > 0 {
        let k = stack[stack.len() - 1];
        assert(depth(t, n as int) > 0);
        Some(k)
    } else {
        None
    }
}

/// Whether the jump at index `i`, if any, and its partner name each other:
/// an opening jump names a later closing jump that names it back, and
/// the other way round.
pub open spec fn jump_matched_at(instructions: Seq<InstructionSet>, i: int) -> bool {
    match instructions[i] {
        InstructionSet::RightJump(j) => i < j.end < instructions.len() && instructions[j.end as int]
            == InstructionSet::LeftJump(LeftJump { start: i as usize }),
        InstructionSet::LeftJump(j) => j.start < i && instructions[j.start as int]
            == InstructionSet::RightJump(RightJump { end: i as usize }),
        _ => true,
    }
}

/// Every jump of `instructions` is matched with its partner.
pub open spec fn jumps_matched(instructions: Seq<InstructionSet>) -> bool {
    forall|i: int| 0 <= i < instructions.len() ==> #[trigger] jump_matched_at(instructions, i)
}

/// The loops of `instructions` nest: of two loops, the one opened later
/// either starts after the other one's end or ends before it.
pub open spec fn jumps_nested(instructions: Seq<InstructionSet>) -> bool {
    forall|i: int, k: int|
        0 <= i < k < instructions.len() && (#[trigger] instructions[i]) is RightJump && (
        #[trigger] instructions[k]) is RightJump ==> instructions[i]->RightJump_0.end < k
            || instructions[k]->RightJump_0.end < instructions[i]->RightJump_0.end
}

/// Whether an instruction is a jump.
pub open spec fn is_jump(i: InstructionSet) -> bool {
    i is RightJump || i is LeftJump
}

/// What holds of a partly compiled program: unclosed loops are opening
/// jumps with an unknown end, every other jump is matched, no matched
/// loop stretches across an unclosed one, and the matched loops nest.
pub open spec fn partly_compiled(instructions: Seq<InstructionSet>, open: Seq<usize>) -> bool {
    &&& open_ok(instructions, open)
    &&& forall|a: int| 0 <= a < open.len() ==> is_open_jump(#[trigger] instructions[open[a] as int])
    &&& forall|i: int|
        0 <= i < instructions.len() && !open.contains(i as usize) ==> #[trigger] jump_matched_at(
            instructions,
            i,
        )
    &&& forall|i: int, a: int|
        0 <= i < instructions.len() && 0 <= a < open.len() && !open.contains(i as usize)
            && (#[trigger] instructions[i]) is RightJump ==> open[a] < i || instructions[i]->RightJump_0.end
            < #[trigger] open[a]
    &&& forall|i: int, k: int|
        0 <= i < k < instructions.len() && !open.contains(i as usize) && !open.contains(
            k as usize,
        ) && (#[trigger] instructions[i]) is RightJump && (#[trigger] instructions[k]) is RightJump
            ==> instructions[i]->RightJump_0.end < k || instructions[k]->RightJump_0.end
            < instructions[i]->RightJump_0.end
}

/// A folded loop is no jump.
pub proof fn lemma_fold_is_no_jump(s: Seq<InstructionSet>)
    ensures
        fold_of(s) matches Some(f) ==> !is_jump(f),
{
}

proof fn lemma_open_jump(instructions: Seq<InstructionSet>, open: Seq<usize>)
    requires
        partly_compiled(instructions, open),
        instructions.len() < usize::MAX,
    ensures
        partly_compiled(
            instructions.push(InstructionSet::RightJump(RightJump { end: 0 })),
            open.push(instructions.len() as usize),
        ),
{
    let n = instructions.len();
    let ins = instructions.push(InstructionSet::RightJump(RightJump { end: 0 }));
    let op = open.push(n as usize);
    assert forall|a: int| 0 <= a < op.len() implies is_open_jump(#[trigger] ins[op[a] as int]) by {
        if a < open.len() {
            assert(op[a] == open[a]);
            assert(open[a] < n);
            assert(is_open_jump(instructions[open[a] as int]));
        } else {
            assert(op[a] == n);
        }
    }
    assert forall|i: int| 0 <= i < ins.len() && !op.contains(i as usize) implies #[trigger] jump_matched_at(ins, i) by {
        if i == n {
            assert(op[op.len() - 1] == n);
        } else {
            assert(!open.contains(i as usize)) by {
                if open.contains(i as usize) {
                    let a = choose|a: int| 0 <= a < open.len() && open[a] == i as usize;
                    assert(op[a] == i as usize);
                }
            }
            assert(jump_matched_at(instructions, i));
        }
    }
    assert forall|i: int, a: int|
        0 <= i < ins.len() && 0 <= a < op.len() && !op.contains(i as usize)
            && (#[trigger] ins[i]) is RightJump implies op[a] < i || ins[i]->RightJump_0.end
        < #[trigger] op[a] by {
        if i == n {
            assert(op[op.len() - 1] == n);
        } else {
            assert(!open.contains(i as usize)) by {
                if open.contains(i as usize) {
                    let b = choose|b: int| 0 <= b < open.len() && open[b] == i as usize;
                    assert(op[b] == i as usize);
                }
            }
            assert(ins[i] == instructions[i]);
            assert(jump_matched_at(instructions, i));
            if a < open.len() {
                assert(op[a] == open[a]);
                assert(open[a] < i || instructions[i]->RightJump_0.end < open[a]);
            } else {
                assert(op[a] == n);
            }
        }
    }
}

proof fn lemma_push_plain(instructions: Seq<InstructionSet>, open: Seq<usize>, x: InstructionSet)
    requires
        partly_compiled(instructions, open),
        instructions.len() < usize::MAX,
        !is_jump(x),
    ensures
        partly_compiled(instructions.push(x), open),
{
    let n = instructions.len();
    let ins = instructions.push(x);
    assert forall|a: int| 0 <= a < open.len() implies is_open_jump(#[trigger] ins[open[a] as int]) by {
        assert(open[a] < n);
    }
    assert forall|i: int| 0 <= i < ins.len() && !open.contains(i as usize) implies #[trigger] jump_matched_at(ins, i) by {
        if i < n {
            assert(jump_matched_at(instructions, i));
        }
    }
    assert forall|i: int, a: int|
        0 <= i < ins.len() && 0 <= a < open.len() && !open.contains(i as usize)
            && (#[trigger] ins[i]) is RightJump implies open[a] < i || ins[i]->RightJump_0.end
        < #[trigger] open[a] by {
        assert(i < n);
        assert(instructions[i] == ins[i]);
        assert(open[a] < i || instructions[i]->RightJump_0.end < open[a]);
    }
}

proof fn lemma_not_open(open: Seq<usize>, i: int)
    requires
        open.len() > 0,
        0 <= i <= usize::MAX,
        !open.drop_last().contains(i as usize),
        i != open.last(),
    ensures
        !open.contains(i as usize),
{
    if open.contains(i as usize) {
        let a = choose|a: int| 0 <= a < open.len() && open[a] == i as usize;
        assert(a != open.len() - 1);
        assert(open.drop_last()[a] == i as usize);
    }
}

proof fn lemma_fold_loop(instructions: Seq<InstructionSet>, open: Seq<usize>, f: InstructionSet)
    requires
        partly_compiled(instructions, open),
        open.len() > 0,
        !is_jump(f),
        instructions.len() < usize::MAX,
    ensures
        partly_compiled(
            instructions.subrange(0, open.last() as int).push(f),
            open.drop_last(),
        ),
{
    let start = open.last() as int;
    let last = open.len() - 1;
    let ins = instructions.subrange(0, start).push(f);
    let op = open.drop_last();
    assert(open[last] < instructions.len());
    assert forall|a: int| 0 <= a < op.len() implies #[trigger] op[a] < start by {
        assert(op[a] == open[a]);
        assert(open[a] < open[last]);
    }
    assert forall|a: int| 0 <= a < op.len() implies is_open_jump(#[trigger] ins[op[a] as int]) by {
        assert(op[a] < start);
        assert(op[a] == open[a]);
        assert(is_open_jump(instructions[open[a] as int]));
    }
    assert forall|i: int| 0 <= i < ins.len() && !op.contains(i as usize) implies #[trigger] jump_matched_at(ins, i) by {
        if i < start {
            lemma_not_open(open, i);
            assert(ins[i] == instructions[i]);
            assert(jump_matched_at(instructions, i));
            match instructions[i] {
                InstructionSet::RightJump(j) => {
                    assert(open[last] < i || j.end < open[last]);
                    assert(ins[j.end as int] == instructions[j.end as int]);
                },
                InstructionSet::LeftJump(j) => {
                    assert(ins[j.start as int] == instructions[j.start as int]);
                },
                _ => {},
            }
        }
    }
    assert forall|i: int, a: int|
        0 <= i < ins.len() && 0 <= a < op.len() && !op.contains(i as usize)
            && (#[trigger] ins[i]) is RightJump implies op[a] < i || ins[i]->RightJump_0.end
        < #[trigger] op[a] by {
        assert(i < start);
        lemma_not_open(open, i);
        assert(ins[i] == instructions[i]);
        assert(op[a] == open[a]);
        assert(open[a] < i || instructions[i]->RightJump_0.end < open[a]);
    }
}

proof fn lemma_close_loop(instructions: Seq<InstructionSet>, open: Seq<usize>)
    requires
        partly_compiled(instructions, open),
        open.len() > 0,
        instructions.len() < usize::MAX,
    ensures
        partly_compiled(
            instructions.update(
                open.last() as int,
                InstructionSet::RightJump(RightJump { end: instructions.len() as usize }),
            ).push(InstructionSet::LeftJump(LeftJump { start: open.last() })),
            open.drop_last(),
        ),
{
    let start = open.last() as int;
    let last = open.len() - 1;
    let n = instructions.len() as int;
    let ins = instructions.update(
        start,
        InstructionSet::RightJump(RightJump { end: n as usize }),
    ).push(InstructionSet::LeftJump(LeftJump { start: start as usize }));
    let op = open.drop_last();
    assert(open[last] < instructions.len());
    assert(is_open_jump(instructions[open[last] as int]));
    assert forall|a: int| 0 <= a < op.len() implies #[trigger] op[a] < start by {
        assert(op[a] == open[a]);
        assert(open[a] < open[last]);
    }
    assert forall|a: int| 0 <= a < op.len() implies is_open_jump(#[trigger] ins[op[a] as int]) by {
        assert(op[a] < start);
        assert(op[a] == open[a]);
        assert(is_open_jump(instructions[open[a] as int]));
    }
    assert forall|i: int| 0 <= i < ins.len() && !op.contains(i as usize) implies #[trigger] jump_matched_at(ins, i) by {
        if i != start && i != n {
            lemma_not_open(open, i);
            assert(ins[i] == instructions[i]);
            assert(jump_matched_at(instructions, i));
            match instructions[i] {
                InstructionSet::RightJump(j) => {
                    assert(ins[j.end as int] == instructions[j.end as int]);
                },
                InstructionSet::LeftJump(j) => {
                    assert(ins[j.start as int] == instructions[j.start as int]);
                },
                _ => {},
            }
        }
    }
    assert forall|i: int, a: int|
        0 <= i < ins.len() && 0 <= a < op.len() && !op.contains(i as usize)
            && (#[trigger] ins[i]) is RightJump implies op[a] < i || ins[i]->RightJump_0.end
        < #[trigger] op[a] by {
        assert(op[a] < start);
        if i != start {
            assert(i != n);
            lemma_not_open(open, i);
            assert(ins[i] == instructions[i]);
            assert(op[a] == open[a]);
            assert(open[a] < i || instructions[i]->RightJump_0.end < open[a]);
        }
    }
    assert forall|i: int, k: int|
        0 <= i < k < ins.len() && !op.contains(i as usize) && !op.contains(k as usize) && (
        #[trigger] ins[i]) is RightJump && (#[trigger] ins[k]) is RightJump implies ins[i]->RightJump_0.end
        < k || ins[k]->RightJump_0.end < ins[i]->RightJump_0.end by {
        assert(k != n);
        if i == start {
            lemma_not_open(open, k);
            assert(ins[k] == instructions[k]);
            assert(jump_matched_at(instructions, k));
        } else if k == start {
            lemma_not_open(open, i);
            assert(ins[i] == instructions[i]);
            assert(open[last] < i || instructions[i]->RightJump_0.end < open[last]);
        } else {
            lemma_not_open(open, i);
            lemma_not_open(open, k);
            assert(ins[i] == instructions[i]);
            assert(ins[k] == instructions[k]);
        }
    }
}

proof fn lemma_compile_from_jumps(
    tokens: Seq<Token>,
    i: int,
    instructions: Seq<InstructionSet>,
    open: Seq<usize>,
)
    requires
        balanced(tokens),
        tokens.len() <= usize::MAX,
        0 <= i <= tokens.len(),
        instructions.len() <= i,
        open.len() == depth(tokens, i),
        partly_compiled(instructions, open),
    ensures
        jumps_matched(compile_from(tokens, i, instructions, open)),
        jumps_nested(compile_from(tokens, i, instructions, open)),
    decreases tokens.len() - i,
{
    if i >= tokens.len() {
        assert(open.len() == 0);
        assert forall|k: int| 0 <= k < instructions.len() implies #[trigger] jump_matched_at(
            instructions,
            k,
        ) by {
            assert(!open.contains(k as usize));
        }
        assert forall|i: int, k: int|
            0 <= i < k < instructions.len() && (#[trigger] instructions[i]) is RightJump && (
            #[trigger] instructions[k]) is RightJump implies instructions[i]->RightJump_0.end < k
            || instructions[k]->RightJump_0.end < instructions[i]->RightJump_0.end by {
            assert(!open.contains(i as usize));
            assert(!open.contains(k as usize));
        }
    } else {
        assert(depth(tokens, i + 1) == depth(tokens, i) + depth_change(tokens[i]));
        assert(depth(tokens, i + 1) >= 0);
        match tokens[i] {
            Token::RightJump(_) => {
                lemma_open_jump(instructions, open);
                lemma_compile_from_jumps(
                    tokens,
                    i + 1,
                    instructions.push(InstructionSet::RightJump(RightJump { end: 0 })),
                    open.push(instructions.len() as usize),
                );
            },
            Token::LeftJump(_) => {
                let start = open.last() as int;
                let end = instructions.len() as int;
                assert(open[open.len() - 1] < instructions.len());
                lemma_fold_is_no_jump(instructions.subrange(start, end));
                match fold_of(instructions.subrange(start, end)) {
                    Some(f) => {
                        lemma_fold_loop(instructions, open, f);
                        lemma_compile_from_jumps(
                            tokens,
                            i + 1,
                            instructions.subrange(0, start).push(f),
                            open.drop_last(),
                        );
                    },
                    None => {
                        lemma_close_loop(instructions, open);
                        lemma_compile_from_jumps(
                            tokens,
                            i + 1,
                            instructions.update(
                                start,
                                InstructionSet::RightJump(RightJump { end: end as usize }),
                            ).push(InstructionSet::LeftJump(LeftJump { start: start as usize })),
                            open.drop_last(),
                        );
                    },
                }
            },
            _ => {
                lemma_run_end_bounds(tokens, i, i + 1);
                let end = run_end(tokens, i, i + 1);
                lemma_depth_run(tokens, i, end);
                lemma_push_plain(instructions, open, instruction_for(tokens[i], (end - i) as usize));
                lemma_compile_from_jumps(
                    tokens,
                    end,
                    instructions.push(instruction_for(tokens[i], (end - i) as usize)),
                    open,
                );
            },
        }
    }
}

/// The jumps of the program that balanced tokens compile to are matched:
/// every loop's opening and closing jumps name each other.
pub proof fn lemma_compiled_jumps_matched(tokens: Seq<Token>)
    requires
        balanced(tokens),
        tokens.len() <= usize::MAX,
    ensures
        jumps_matched(compiled(tokens)),
{
    lemma_compile_from_jumps(tokens, 0, Seq::empty(), Seq::empty());
}

/// The loops of the program that balanced tokens compile to nest: no two
/// of them cross.
pub proof fn lemma_compiled_jumps_nested(tokens: Seq<Token>)
    requires
        balanced(tokens),
        tokens.len() <= usize::MAX,
    ensures
        jumps_nested(compiled(tokens)),
{
    lemma_compile_from_jumps(tokens, 0, Seq::empty(), Seq::empty());
}

} // verus!
