//! An interpreter for an eight-instruction language that works on a tape of
//! byte cells.
//!
//! A program text is reduced to its instructions by [`parse`], its loops are
//! resolved by [`calculate_jumptable`], and a [`Machine`] executes it one
//! instruction at a time. [`simpleinterp`] does all of that for a bounded
//! number of steps.

pub mod error;
pub mod interp;
pub mod jumptable;
pub mod lexer;
pub mod machine;
pub mod token;

pub use error::InterpError;
pub use interp::{interpret, run, simpleinterp, Execution, Outcome};
pub use jumptable::calculate_jumptable;
pub use lexer::parse;
pub use machine::{Machine, State, MEMORY_SIZE};
pub use token::Token;
