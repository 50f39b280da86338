//! Turns source text into tokens, each command character becoming one token.

use vstd::prelude::*;
use vstd::string::StringSliceAdditionalSpecFns;

verus! {

/// The position of a token in its source file: a line (counted from 1),
/// a column (counted from 1) and the path of the file.
#[derive(Debug, PartialEq)]
pub struct SourceMapping {
    pub line: usize,
    pub column: usize,
    pub file_path: String,
}

impl Clone for SourceMapping {
    fn clone(&self) -> (r: Self)
        ensures
            r == *self,
    {
        SourceMapping { line: self.line, column: self.column, file_path: self.file_path.clone() }
    }
}

impl SourceMapping {
    pub fn line(&self) -> (r: usize)
        ensures
            r == self.line,
    {
        self.line
    }

    pub fn column(&self) -> (r: usize)
        ensures
            r == self.column,
    {
        self.column
    }

    pub fn file_path(&self) -> (r: &str)
        ensures
            r@ == self.file_path@,
    {
        self.file_path.as_str()
    }
}

/// The eight commands of the language, without their positions.
#[derive(Debug, Clone, Copy, PartialEq, Eq, Structural)]
pub enum TokenKind {
    Right,
    Left,
    Increment,
    Decrement,
    Input,
    Output,
    RightJump,
    LeftJump,
}

/// One command of the source. Moves and jumps remember where they stand,
/// so that errors about them can name the place.
#[derive(Debug)]
pub enum Token {
    Right(SourceMapping),
    Left(SourceMapping),
    Increment,
    Decrement,
    Input,
    Output,
    RightJump(SourceMapping),
    LeftJump(SourceMapping),
}

impl Clone for Token {
    fn clone(&self) -> (r: Self)
        ensures
            r == *self,
    {
        match self {
            Token::Right(m) => Token::Right(m.clone()),
            Token::Left(m) => Token::Left(m.clone()),
            Token::Increment => Token::Increment,
            Token::Decrement => Token::Decrement,
            Token::Input => Token::Input,
            Token::Output => Token::Output,
            Token::RightJump(m) => Token::RightJump(m.clone()),
            Token::LeftJump(m) => Token::LeftJump(m.clone()),
        }
    }
}

/// The command that a token stands for.
pub open spec fn kind_of(t: Token) -> TokenKind {
    match t {
        Token::Right(_) => TokenKind::Right,
        Token::Left(_) => TokenKind::Left,
        Token::Increment => TokenKind::Increment,
        Token::Decrement => TokenKind::Decrement,
        Token::Input => TokenKind::Input,
        Token::Output => TokenKind::Output,
        Token::RightJump(_) => TokenKind::RightJump,
        Token::LeftJump(_) => TokenKind::LeftJump,
    }
}

/// Two tokens are equal when they stand for the same command, wherever they stand.
impl PartialEq for Token {
    fn eq(&self, other: &Self) -> (r: bool) {
        match (self, other) {
            (Token::Right(_), Token::Right(_)) => true,
            (Token::Left(_), Token::Left(_)) => true,
            (Token::RightJump(_), Token::RightJump(_)) => true,
            (Token::LeftJump(_), Token::LeftJump(_)) => true,
            (Token::Increment, Token::Increment) => true,
            (Token::Decrement, Token::Decrement) => true,
            (Token::Input, Token::Input) => true,
            (Token::Output, Token::Output) => true,
            _ => false,
        }
    }
}

impl vstd::std_specs::cmp::PartialEqSpecImpl for Token {
    open spec fn obeys_eq_spec() -> bool {
        true
    }

    open spec fn eq_spec(&self, other: &Self) -> bool {
        kind_of(*self) == kind_of(*other)
    }
}

/// What a token says, as plain values: its command and, for moves and
/// jumps, its line, column and file path.
pub struct TokenModel {
    pub kind: TokenKind,
    pub place: Option<(nat, nat, Seq<char>)>,
}

pub open spec fn model_of(t: Token) -> TokenModel {
    match t {
        Token::Right(m) | Token::Left(m) | Token::RightJump(m) | Token::LeftJump(m) => TokenModel {
            kind: kind_of(t),
            place: Some((m.line as nat, m.column as nat, m.file_path@)),
        },
        _ => TokenModel { kind: kind_of(t), place: None },
    }
}

/// The command that a byte of the source stands for, if any.
pub open spec fn command_of(b: u8) -> Option<TokenKind> {
    if b == 62 {
        Some(TokenKind::Right)
    } else if b == 60 {
        Some(TokenKind::Left)
    } else if b == 43 {
        Some(TokenKind::Increment)
    } else if b == 45 {
        Some(TokenKind::Decrement)
    } else if b == 46 {
        Some(TokenKind::Output)
    } else if b == 44 {
        Some(TokenKind::Input)
    } else if b == 91 {
        Some(TokenKind::RightJump)
    } else if b == 93 {
        Some(TokenKind::LeftJump)
    } else {
        None
    }
}

/// Whether tokens of this command carry their position.
pub open spec fn is_mapped(k: TokenKind) -> bool {
    k == TokenKind::Right || k == TokenKind::Left || k == TokenKind::RightJump || k
        == TokenKind::LeftJump
}

/// The line on which the `n`-th byte stands (its index being `n - 1`):
/// one more than the number of line feeds among the first `n` bytes.
pub open spec fn line_after(bytes: Seq<u8>, n: nat) -> nat
    decreases n,
{
    if n == 0 {
        1
    } else {
        line_after(bytes, (n - 1) as nat) + if bytes[n - 1] == 10 {
            1nat
        } else {
            0nat
        }
    }
}

/// The column of the `n`-th byte: the number of bytes since the last
/// line feed among the first `n` bytes (zero on a line feed).
pub open spec fn column_after(bytes: Seq<u8>, n: nat) -> nat
    decreases n,
{
    if n == 0 {
        0
    } else if bytes[n - 1] == 10 {
        0
    } else {
        column_after(bytes, (n - 1) as nat) + 1
    }
}

/// The tokens of the first `n` bytes of a source whose path is `path`,
/// in the order of the bytes, one for each command byte.
pub open spec fn tokens_of(bytes: Seq<u8>, n: nat, path: Seq<char>) -> Seq<TokenModel>
    decreases n,
{
    if n == 0 {
        Seq::empty()
    } else {
        let before = tokens_of(bytes, (n - 1) as nat, path);
        match command_of(bytes[n - 1]) {
            Some(k) => before.push(
                TokenModel {
                    kind: k,
                    place: if is_mapped(k) {
                        Some((line_after(bytes, n), column_after(bytes, n), path))
                    } else {
                        None
                    },
                },
            ),
            None => before,
        }
    }
}

proof fn lemma_position_bounds(bytes: Seq<u8>, n: nat)
    requires
        n <= bytes.len(),
    ensures
        line_after(bytes, n) <= n + 1,
        column_after(bytes, n) <= n,
    decreases n,
{
    if n > 0 {
        lemma_position_bounds(bytes, (n - 1) as nat);
    }
}

fn mapping(line: usize, column: usize, path: &str) -> (r: SourceMapping)
    ensures
        r.line == line,
        r.column == column,
        r.file_path@ == path@,
{
    SourceMapping { column, line, file_path: path.to_owned() }
}

/// Splits a source into tokens, keeping for moves and jumps the line and
/// column on which they stand; every byte that is not a command is skipped.
pub fn tokenise(source: &str, path: &str) -> (tokens: Vec<Token>)
    requires
        source.spec_bytes().len() < usize::MAX,
    ensures
        tokens@.map_values(|t: Token| model_of(t)) == tokens_of(
            source.spec_bytes(),
            source.spec_bytes().len(),
            path@,
        ),
{
    let bytes = source.as_bytes();
    let ghost b = bytes@;
    let mut tokens: Vec<Token> = Vec::new();
    let mut line: usize = 1;
    let mut column: usize = 0;
    let n = bytes.len();
    let mut i: usize = 0;
    while i < n
        invariant
            n == b.len(),
            b == bytes@,
            b == source.spec_bytes(),
            n < usize::MAX,
            i <= n,
            line == line_after(b, i as nat),
            column == column_after(b, i as nat),
            tokens@.map_values(|t: Token| model_of(t)) == tokens_of(b, i as nat, path@),
        decreases n - i,
    {
        proof {
            lemma_position_bounds(b, i as nat);
        }
        let c = bytes[i];
        if c == 10u8 {
            line = line + 1;
            column = 0;
        } else {
            column = column + 1;
        }
        let token: Option<Token> = if c == 62u8 {
            Some(Token::Right(mapping(line, column, path)))
        } else if c == 60u8 {
            Some(Token::Left(mapping(line, column, path)))
        } else if c == 43u8 {
            Some(Token::Increment)
        } else if c == 45u8 {
            Some(Token::Decrement)
        } else if c == 46u8 {
            Some(Token::Output)
        } else if c == 44u8 {
            Some(Token::Input)
        } else if c == 91u8 {
            Some(Token::RightJump(mapping(line, column, path)))
        } else if c == 93u8 {
            Some(Token::LeftJump(mapping(line, column, path)))
        } else {
            None
        };
        let ghost old_tokens = tokens@;
        match token {
            Some(t) => {
                tokens.push(t);
                assert(tokens@.map_values(|t: Token| model_of(t)) =~= old_tokens.map_values(
                    |t: Token| model_of(t),
                ).push(model_of(t)));
            },
            None => {},
        }
        i = i + 1;
    }
    tokens
}

} // verus!
