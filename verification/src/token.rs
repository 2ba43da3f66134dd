//! The instruction set.

use vstd::prelude::*;

verus! {

/// One instruction. An instruction is its kind and nothing else.
#[derive(Clone, Copy, Debug, PartialEq, Eq, Structural)]
pub enum Token {
    /// `>`: move the data pointer one cell to the right.
    IncDP,
    /// `<`: move the data pointer one cell to the left.
    DecDP,
    /// `+`: add one to the current cell.
    IncMemory,
    /// `-`: subtract one from the current cell.
    DecMemory,
    /// `.`: emit the current cell.
    Put,
    /// `,`: read into the current cell.
    Read,
    /// `[`: open a loop.
    While,
    /// `]`: close a loop.
    EndWhile,
}

/// The instruction that a character stands for, if it stands for one.
pub open spec fn token_of(c: char) -> Option<Token> {
    if c == '>' {
        Some(Token::IncDP)
    } else if c == '<' {
        Some(Token::DecDP)
    } else if c == '+' {
        Some(Token::IncMemory)
    } else if c == '-' {
        Some(Token::DecMemory)
    } else if c == '.' {
        Some(Token::Put)
    } else if c == ',' {
        Some(Token::Read)
    } else if c == '[' {
        Some(Token::While)
    } else if c == ']' {
        Some(Token::EndWhile)
    } else {
        None
    }
}

impl Token {
    /// Reads one character: the instruction it stands for, or `None` for
    /// any other character.
    pub fn from_char(c: char) -> (token: Option<Token>)
        ensures
            token == token_of(c),
    {
        match c {
            '>' => Some(Token::IncDP),
            '<' => Some(Token::DecDP),
            '+' => Some(Token::IncMemory),
            '-' => Some(Token::DecMemory),
            '.' => Some(Token::Put),
            ',' => Some(Token::Read),
            '[' => Some(Token::While),
            ']' => Some(Token::EndWhile),
            _ => None,
        }
    }
}

} // verus!
