//! Loops: which bracket belongs to which, and the table that records it.

use vstd::prelude::*;
use crate::error::InterpError;
use crate::token::Token;

verus! {

/// What one instruction adds to the nesting depth.
pub open spec fn nesting_change(token: Token) -> int {
    match token {
        Token::While => 1,
        Token::EndWhile => -1,
        _ => 0,
    }
}

/// The loops opened less the loops closed by the instructions from `lo` up
/// to, not including, `hi`.
pub open spec fn nesting(program: Seq<Token>, lo: int, hi: int) -> int
    decreases hi - lo,
{
    if hi <= lo {
        0
    } else {
        nesting(program, lo, hi - 1) + nesting_change(program[hi - 1])
    }
}

/// The loop opened at `open` is closed at `close`: `close` is the first
/// place after `open` at which the nesting depth, counted from `open`, is
/// back to zero.
pub open spec fn is_pair(program: Seq<Token>, open: int, close: int) -> bool {
    &&& 0 <= open < close < program.len()
    &&& program[open] == Token::While
    &&& program[close] == Token::EndWhile
    &&& nesting(program, open, close + 1) == 0
    &&& forall|k: int| open < k <= close ==> #[trigger] nesting(program, open, k) > 0
}

/// The loop opened at `open` is still open at the end of the program.
pub open spec fn unmatched(program: Seq<Token>, open: int) -> bool {
    &&& 0 <= open < program.len()
    &&& program[open] == Token::While
    &&& forall|k: int| open < k <= program.len() ==> #[trigger] nesting(program, open, k) > 0
}

/// `open` is the first loop of the program that is never closed.
pub open spec fn first_unmatched(program: Seq<Token>, open: int) -> bool {
    &&& unmatched(program, open)
    &&& forall|i: int| 0 <= i < open ==> !#[trigger] unmatched(program, i)
}

/// Every loop that the program opens, it closes.
pub open spec fn every_loop_closed(program: Seq<Token>) -> bool {
    forall|i: int|
        0 <= i < program.len() && #[trigger] program[i] == Token::While ==> exists|j: int|
            is_pair(program, i, j)
}

/// The bracket at `i` has a partner.
pub open spec fn has_partner(program: Seq<Token>, i: int) -> bool {
    exists|j: int| is_pair(program, i, j) || is_pair(program, j, i)
}

/// Every bracket of the program has a partner: each loop that is opened is
/// closed, and nothing is closed that was not opened.
pub open spec fn well_formed(program: Seq<Token>) -> bool {
    forall|i: int|
        0 <= i < program.len() && (#[trigger] program[i] == Token::While || program[i]
            == Token::EndWhile) ==> has_partner(program, i)
}

/// Where the instruction at `i` jumps to: for a bracket with a partner the
/// partner's index, for everything else zero.
pub open spec fn jump_target(program: Seq<Token>, i: int) -> int {
    if program[i] == Token::While && exists|j: int| is_pair(program, i, j) {
        choose|j: int| is_pair(program, i, j)
    } else if program[i] == Token::EndWhile && exists|o: int| is_pair(program, o, i) {
        choose|o: int| is_pair(program, o, i)
    } else {
        0
    }
}

/// The jump table of a program: one entry for each instruction, its
/// [`jump_target`].
pub open spec fn jump_table(program: Seq<Token>) -> Seq<usize> {
    Seq::new(program.len(), |i: int| jump_target(program, i) as usize)
}

/// Depths add up: counting from `lo` to `hi` is counting to `mid` and on
/// from there.
pub proof fn lemma_nesting_split(program: Seq<Token>, lo: int, mid: int, hi: int)
    requires
        lo <= mid <= hi,
    ensures
        nesting(program, lo, hi) == nesting(program, lo, mid) + nesting(program, mid, hi),
    decreases hi - mid,
{
    if mid < hi {
        lemma_nesting_split(program, lo, mid, hi - 1);
    }
}

/// A loop is closed in one place only.
pub proof fn lemma_close_unique(program: Seq<Token>, open: int, c1: int, c2: int)
    requires
        is_pair(program, open, c1),
        is_pair(program, open, c2),
    ensures
        c1 == c2,
{
    if c1 < c2 {
        assert(nesting(program, open, c1 + 1) > 0);
    } else if c2 < c1 {
        assert(nesting(program, open, c2 + 1) > 0);
    }
}

/// A closing bracket closes one loop only.
pub proof fn lemma_open_unique(program: Seq<Token>, o1: int, o2: int, close: int)
    requires
        is_pair(program, o1, close),
        is_pair(program, o2, close),
    ensures
        o1 == o2,
{
    if o1 < o2 {
        lemma_nesting_split(program, o1, o2, close + 1);
        assert(nesting(program, o1, o2) > 0);
    } else if o2 < o1 {
        lemma_nesting_split(program, o2, o1, close + 1);
        assert(nesting(program, o2, o1) > 0);
    }
}

/// A loop that is closed somewhere is not open at the end.
pub proof fn lemma_pair_not_unmatched(program: Seq<Token>, open: int, close: int)
    requires
        is_pair(program, open, close),
    ensures
        !unmatched(program, open),
{
    assert(nesting(program, open, close + 1) == 0);
}

/// Finds where a loop is closed, given a place `end` by which its depth is
/// back to zero or below and a place `from` before which it is not.
proof fn lemma_find_close(program: Seq<Token>, open: int, from: int, end: int) -> (close: int)
    requires
        0 <= open < from <= end <= program.len(),
        program[open] == Token::While,
        nesting(program, open, end) <= 0,
        forall|k: int| open < k < from ==> #[trigger] nesting(program, open, k) > 0,
    ensures
        is_pair(program, open, close),
    decreases end - from,
{
    reveal_with_fuel(nesting, 2);
    if nesting(program, open, from) <= 0 {
        assert(from > open + 1);
        assert(nesting(program, open, from - 1) > 0);
        from - 1
    } else {
        lemma_find_close(program, open, from + 1, end)
    }
}

/// A loop is open at the end of the program exactly if it is closed
/// nowhere.
pub proof fn lemma_unmatched_iff_no_pair(program: Seq<Token>, open: int)
    requires
        0 <= open < program.len(),
        program[open] == Token::While,
    ensures
        unmatched(program, open) <==> !exists|close: int| is_pair(program, open, close),
{
    if exists|close: int| is_pair(program, open, close) {
        let close = choose|close: int| is_pair(program, open, close);
        lemma_pair_not_unmatched(program, open, close);
    }
    if !unmatched(program, open) {
        let end = choose|k: int| open < k <= program.len() && nesting(program, open, k) <= 0;
        let close = lemma_find_close(program, open, open + 1, end);
    }
}

/// Every entry of a jump table is an index into its program.
pub proof fn lemma_jump_table_in_bounds(program: Seq<Token>, i: int)
    requires
        0 <= i < program.len() <= usize::MAX,
    ensures
        0 <= jump_target(program, i) < program.len(),
        jump_table(program)[i] == jump_target(program, i),
{
}

/// The jump table is symmetric: where every bracket of a program has a
/// partner, the table leads from each bracket to its partner, and from the
/// partner back to the bracket.
pub proof fn lemma_jump_table_symmetric(program: Seq<Token>, i: int)
    requires
        program.len() <= usize::MAX,
        well_formed(program),
        0 <= i < program.len(),
        program[i] == Token::While || program[i] == Token::EndWhile,
    ensures
        0 <= jump_table(program)[i] < program.len(),
        jump_table(program)[jump_table(program)[i] as int] == i,
        program[i] == Token::While ==> is_pair(program, i, jump_table(program)[i] as int),
        program[i] == Token::EndWhile ==> is_pair(program, jump_table(program)[i] as int, i),
{
    assert(has_partner(program, i));
    let j = jump_target(program, i);
    lemma_jump_table_in_bounds(program, i);
    lemma_jump_table_in_bounds(program, j);
    let back = jump_target(program, j);
    if program[i] == Token::While {
        assert(is_pair(program, i, j));
        lemma_open_unique(program, i, back, j);
    } else {
        assert(is_pair(program, j, i));
        lemma_close_unique(program, j, i, back);
    }
}

/// Loops nest: where every bracket of a program has a partner, a bracket
/// that lies strictly inside a loop has its partner strictly inside that
/// loop too.
pub proof fn lemma_jump_table_nested(program: Seq<Token>, open: int, k: int)
    requires
        program.len() <= usize::MAX,
        well_formed(program),
        0 <= open < program.len(),
        program[open] == Token::While,
        open < k < jump_table(program)[open],
        program[k] == Token::While || program[k] == Token::EndWhile,
    ensures
        open < jump_table(program)[k] < jump_table(program)[open],
{
    lemma_jump_table_symmetric(program, open);
    let close = jump_table(program)[open] as int;
    lemma_jump_table_symmetric(program, k);
    let m = jump_table(program)[k] as int;
    assert(nesting(program, open, k) > 0);
    if program[k] == Token::While {
        if m == close {
            lemma_open_unique(program, open, k, close);
        } else if m > close {
            assert(nesting(program, k, close + 1) > 0);
            lemma_nesting_split(program, open, k, close + 1);
        }
    } else {
        if m == open {
            lemma_close_unique(program, open, k, close);
        } else if m < open {
            assert(nesting(program, open, k + 1) > 0);
            assert(nesting(program, m, open) > 0);
            lemma_nesting_split(program, m, open, k + 1);
        }
    }
}

/// What the table under construction holds at `i` once the instructions
/// before `done` have been handled.
spec fn entry_ok(program: Seq<Token>, table: Seq<usize>, i: int, done: int) -> bool {
    if program[i] == Token::While {
        if i < done {
            is_pair(program, i, table[i] as int)
        } else {
            table[i] == 0
        }
    } else if program[i] == Token::EndWhile {
        ||| (table[i] < done && is_pair(program, table[i] as int, i))
        ||| (table[i] == 0 && forall|o: int| 0 <= o < done ==> !is_pair(program, o, i))
    } else {
        table[i] == 0
    }
}

proof fn lemma_entries_are_targets(program: Seq<Token>, table: Seq<usize>)
    requires
        table.len() == program.len(),
        forall|i: int| 0 <= i < program.len() ==> #[trigger] entry_ok(program, table, i, program.len() as int),
    ensures
        table == jump_table(program),
        every_loop_closed(program),
{
    assert forall|i: int| 0 <= i < program.len() implies table[i] == #[trigger] jump_table(
        program,
    )[i] by {
        assert(entry_ok(program, table, i, program.len() as int));
        let target = jump_target(program, i);
        if program[i] == Token::While {
            assert(is_pair(program, i, table[i] as int));
            lemma_close_unique(program, i, table[i] as int, target);
        } else if program[i] == Token::EndWhile {
            if is_pair(program, table[i] as int, i) {
                lemma_open_unique(program, table[i] as int, target, i);
            } else {
                assert(forall|o: int| !is_pair(program, o, i));
            }
        }
    }
    assert(table =~= jump_table(program));
    assert forall|i: int|
        0 <= i < program.len() && #[trigger] program[i] == Token::While implies exists|j: int|
        is_pair(program, i, j) by {
        assert(entry_ok(program, table, i, program.len() as int));
        assert(is_pair(program, i, table[i] as int));
    }
}

/// Builds the jump table of a program: for each bracket the index of its
/// partner, for every other instruction zero.
///
/// Fails on the first loop that is opened and never closed, and names it. A
/// closing bracket that closes nothing is no error: its entry is zero.
pub fn calculate_jumptable(program: &Vec<Token>) -> (result: Result<Vec<usize>, InterpError>)
    ensures
        result is Ok <==> every_loop_closed(program@),
        match result {
            Ok(table) => {
                &&& table@ == jump_table(program@)
                &&& table@.len() == program@.len()
                &&& forall|i: int| 0 <= i < table@.len() ==> #[trigger] table@[i] < program@.len()
            },
            Err(error) => error matches InterpError::UnmatchedBracket { index }
                && first_unmatched(program@, index as int),
        },
{
    let n: usize = program.len();
    let mut jumptable: Vec<usize> = Vec::new();
    while jumptable.len() < n
        invariant
            jumptable.len() <= n,
            forall|i: int| 0 <= i < jumptable.len() ==> jumptable[i] == 0,
        decreases n - jumptable.len(),
    {
        jumptable.push(0);
    }
    let mut pc: usize = 0;
    while pc < n
        invariant
            n == program.len(),
            pc <= n,
            jumptable.len() == n,
            forall|i: int| 0 <= i < n ==> #[trigger] entry_ok(program@, jumptable@, i, pc as int),
        decreases n - pc,
    {
        let ghost before = jumptable@;
        if program[pc] == Token::While {
            let mut depth: usize = 1;
            let mut seek: usize = pc;
            proof {
                reveal_with_fuel(nesting, 2);
            }
            while depth > 0 && seek < n - 1
                invariant
                    n == program.len(),
                    pc <= seek < n,
                    depth == nesting(program@, pc as int, seek + 1),
                    depth <= seek - pc + 1,
                    forall|k: int| pc < k <= seek ==> #[trigger] nesting(program@, pc as int, k) > 0,
                decreases n - seek,
            {
                seek += 1;
                if program[seek] == Token::EndWhile {
                    depth -= 1;
                } else if program[seek] == Token::While {
                    depth += 1;
                }
            }
            if depth > 0 {
                proof {
                    assert(unmatched(program@, pc as int));
                    assert forall|i: int| 0 <= i < pc implies !#[trigger] unmatched(
                        program@,
                        i,
                    ) by {
                        assert(entry_ok(program@, jumptable@, i, pc as int));
                        if program[i] == Token::While {
                            lemma_pair_not_unmatched(program@, i, jumptable[i] as int);
                        }
                    }
                    if every_loop_closed(program@) {
                        let j = choose|j: int| is_pair(program@, pc as int, j);
                        lemma_pair_not_unmatched(program@, pc as int, j);
                    }
                }
                return Err(InterpError::UnmatchedBracket { index: pc });
            }
            proof {
                assert(seek > pc);
                assert(nesting(program@, pc as int, seek as int) > 0);
                assert(program[seek as int] == Token::EndWhile);
                assert(is_pair(program@, pc as int, seek as int));
            }
            jumptable.set(pc, seek);
            jumptable.set(seek, pc);
            proof {
                assert forall|i: int| 0 <= i < n implies #[trigger] entry_ok(
                    program@,
                    jumptable@,
                    i,
                    pc + 1,
                ) by {
                    assert(entry_ok(program@, before, i, pc as int));
                    if program[i] == Token::EndWhile && i != seek {
                        if is_pair(program@, pc as int, i) {
                            lemma_close_unique(program@, pc as int, i, seek as int);
                        }
                    }
                }
            }
        } else {
            proof {
                assert forall|i: int| 0 <= i < n implies #[trigger] entry_ok(
                    program@,
                    jumptable@,
                    i,
                    pc + 1,
                ) by {
                    assert(entry_ok(program@, before, i, pc as int));
                }
            }
        }
        pc += 1;
    }
    proof {
        lemma_entries_are_targets(program@, jumptable@);
        assert forall|i: int| 0 <= i < jumptable@.len() implies #[trigger] jumptable@[i]
            < program@.len() by {
            lemma_jump_table_in_bounds(program@, i);
        }
    }
    Ok(jumptable)
}

} // verus!
