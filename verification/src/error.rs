//! The ways in which a program can fail.

use vstd::prelude::*;

verus! {

/// Why a program was refused or stopped.
#[derive(Clone, Copy, Debug, PartialEq, Eq, Structural)]
pub enum InterpError {
    /// The loop opened by the instruction at `index` is never closed.
    UnmatchedBracket { index: usize },
    /// The instruction at `index` reads input, which no machine supplies.
    UnimplementedInput { index: usize },
}

} // verus!
