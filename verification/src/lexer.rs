//! From program text to instructions.

use vstd::prelude::*;
use crate::token::{token_of, Token};

verus! {

/// The instructions of a text: its recognized characters, each as the
/// instruction it stands for, in the order of the text. Every other
/// character is dropped.
pub open spec fn lex(text: Seq<char>) -> Seq<Token> {
    text.filter_map(|c: char| token_of(c))
}

/// Whether a character stands for an instruction.
pub open spec fn recognized(c: char) -> bool {
    token_of(c) is Some
}

/// The text with every unrecognized character taken out.
pub open spec fn recognized_part(text: Seq<char>) -> Seq<char> {
    text.filter(|c: char| recognized(c))
}

/// Lexing goes character by character: a recognized character adds its
/// instruction at the end, any other character adds nothing.
pub proof fn lemma_lex_push(text: Seq<char>, c: char)
    ensures
        lex(text.push(c)) == match token_of(c) {
            Some(token) => lex(text).push(token),
            None => lex(text),
        },
{
    assert(text.push(c).drop_last() == text);
}

/// The instructions of a text are its recognized characters, one
/// instruction for each, in the same order, and nothing else.
pub proof fn lemma_lex_recognized(text: Seq<char>)
    ensures
        lex(text).len() == recognized_part(text).len(),
        forall|k: int|
            0 <= k < lex(text).len() ==> token_of(#[trigger] recognized_part(text)[k]) == Some(
                lex(text)[k],
            ),
    decreases text.len(),
{
    reveal(Seq::filter);
    if text.len() > 0 {
        lemma_lex_recognized(text.drop_last());
    }
}

/// A text without a recognized character has no instructions.
pub proof fn lemma_lex_unrecognized(text: Seq<char>)
    requires
        forall|i: int| 0 <= i < text.len() ==> !recognized(#[trigger] text[i]),
    ensures
        lex(text) == Seq::<Token>::empty(),
    decreases text.len(),
{
    if text.len() > 0 {
        lemma_lex_unrecognized(text.drop_last());
    }
}

/// Reduces a program text to its instructions. Characters that stand for no
/// instruction are skipped; no text is refused.
pub fn parse(input: &str) -> (program: Vec<Token>)
    ensures
        program@ == lex(input@),
{
    broadcast use vstd::string::group_string_axioms;
    let mut program: Vec<Token> = Vec::new();
    for c in it: input.chars()
        invariant
            it.seq() == input@,
            program@ == lex(input@.take(it.index())),
    {
        proof {
            input@.lemma_filter_map_take_succ(|c: char| token_of(c), it.index());
        }
        match Token::from_char(c) {
            Some(token) => program.push(token),
            None => (),
        }
    }
    proof {
        assert(input@.take(input@.len() as int) == input@);
    }
    program
}

} // verus!
