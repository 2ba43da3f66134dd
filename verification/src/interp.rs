//! Whole runs: a program executed from the initial state, for a bounded
//! number of steps.

use vstd::prelude::*;
use crate::error::InterpError;
use crate::jumptable::{
    calculate_jumptable, every_loop_closed, first_unmatched, jump_table,
    lemma_unmatched_iff_no_pair, unmatched,
};
use crate::lexer::{lemma_lex_unrecognized, lex, parse, recognized};
use crate::machine::{
    awaits_input, emitted, halted, lemma_next_state_wf, next_state, table_fits, Machine, State,
};
use crate::token::Token;

verus! {

/// How a run ended.
#[derive(Clone, Copy, Debug, PartialEq, Eq, Structural)]
pub enum Outcome {
    /// The instruction pointer ran past the end of the program.
    Finished,
    /// The allowed number of steps was used up before the program ended.
    OutOfSteps,
    /// The program was refused, or stopped at an instruction that cannot be
    /// executed.
    Failed(InterpError),
}

/// A run: how it ended, what it emitted, and the machine it left behind.
#[derive(Debug)]
pub struct Execution {
    /// How the run ended.
    pub outcome: Outcome,
    /// The bytes emitted, in the order in which they were emitted.
    pub output: Vec<u8>,
    /// The machine after the last step.
    pub machine: Machine,
}

/// The state after `steps` steps from the initial state.
pub open spec fn run_state(program: Seq<Token>, table: Seq<usize>, steps: nat) -> State
    decreases steps,
{
    if steps == 0 {
        State::initial()
    } else {
        next_state(program, table, run_state(program, table, (steps - 1) as nat))
    }
}

/// The bytes emitted by the first `steps` steps from the initial state, in
/// the order of the steps.
pub open spec fn run_output(program: Seq<Token>, table: Seq<usize>, steps: nat) -> Seq<u8>
    decreases steps,
{
    if steps == 0 {
        Seq::empty()
    } else {
        let before = run_output(program, table, (steps - 1) as nat);
        match emitted(program, run_state(program, table, (steps - 1) as nat)) {
            Some(byte) => before.push(byte),
            None => before,
        }
    }
}

/// How a run that has reached `state` has ended.
pub open spec fn outcome_at(program: Seq<Token>, state: State) -> Outcome {
    if halted(program, state) {
        Outcome::Finished
    } else if awaits_input(program, state) {
        Outcome::Failed(InterpError::UnimplementedInput { index: state.pc as usize })
    } else {
        Outcome::OutOfSteps
    }
}

/// Every state of a run is well formed, with the instruction pointer at
/// most one past the program's end.
pub proof fn lemma_run_state_wf(program: Seq<Token>, table: Seq<usize>, steps: nat)
    requires
        table_fits(program, table),
    ensures
        run_state(program, table, steps).wf(),
        run_state(program, table, steps).pc <= program.len(),
    decreases steps,
{
    if steps > 0 {
        lemma_run_state_wf(program, table, (steps - 1) as nat);
        lemma_next_state_wf(program, table, run_state(program, table, (steps - 1) as nat));
    }
}

/// A run that has halted, or that has reached an input instruction, stays
/// where it is: further steps change neither the state nor the output, so
/// what was emitted before stands.
pub proof fn lemma_run_stays(program: Seq<Token>, table: Seq<usize>, reached: nat, steps: nat)
    requires
        reached <= steps,
        halted(program, run_state(program, table, reached)) || awaits_input(
            program,
            run_state(program, table, reached),
        ),
    ensures
        run_state(program, table, steps) == run_state(program, table, reached),
        run_output(program, table, steps) == run_output(program, table, reached),
    decreases steps,
{
    if reached < steps {
        lemma_run_stays(program, table, reached, (steps - 1) as nat);
    }
}

/// A program without instructions has every loop closed, and its run ends
/// at once, in the initial state and without output.
pub proof fn lemma_empty_program(program: Seq<Token>, table: Seq<usize>, steps: nat)
    requires
        program.len() == 0,
    ensures
        every_loop_closed(program),
        run_state(program, table, steps) == State::initial(),
        run_output(program, table, steps) == Seq::<u8>::empty(),
        outcome_at(program, run_state(program, table, steps)) == Outcome::Finished,
{
    lemma_run_stays(program, table, 0, steps);
}

/// Runs a program from the initial state with the given jump table, for at
/// most `max_steps` steps.
///
/// The run ends early where the program ends or an input instruction is
/// reached; the output emitted until then is returned with the outcome.
pub fn run(program: &Vec<Token>, table: &Vec<usize>, max_steps: u64) -> (execution: Execution)
    requires
        table_fits(program@, table@),
    ensures
        execution.machine@ == run_state(program@, table@, max_steps as nat),
        execution.output@ == run_output(program@, table@, max_steps as nat),
        execution.outcome == outcome_at(program@, execution.machine@),
{
    let mut machine = Machine::new();
    let mut output: Vec<u8> = Vec::new();
    let mut steps: u64 = 0;
    while steps < max_steps && !machine.halted(program) && !machine.awaits_input(program)
        invariant
            steps <= max_steps,
            table_fits(program@, table@),
            machine@ == run_state(program@, table@, steps as nat),
            output@ == run_output(program@, table@, steps as nat),
        decreases max_steps - steps,
    {
        if let Ok(Some(byte)) = machine.step(program, table) {
            output.push(byte);
        }
        steps += 1;
    }
    proof {
        if steps < max_steps {
            lemma_run_stays(program@, table@, steps as nat, max_steps as nat);
        }
    }
    let outcome = if machine.halted(program) {
        Outcome::Finished
    } else if machine.awaits_input(program) {
        Outcome::Failed(InterpError::UnimplementedInput { index: machine.pc() })
    } else {
        Outcome::OutOfSteps
    };
    Execution { outcome, output, machine }
}

/// What [`simpleinterp`] returns for a program and a number of steps.
///
/// A program with a loop that is never closed is refused before anything
/// is executed: the machine is in its initial state and nothing was
/// emitted. Every other program is run with its jump table.
pub open spec fn interpreted(program: Seq<Token>, max_steps: nat, execution: Execution) -> bool {
    if every_loop_closed(program) {
        &&& execution.machine@ == run_state(program, jump_table(program), max_steps)
        &&& execution.output@ == run_output(program, jump_table(program), max_steps)
        &&& execution.outcome == outcome_at(program, execution.machine@)
    } else {
        &&& execution.machine@ == State::initial()
        &&& execution.output@ == Seq::<u8>::empty()
        &&& execution.outcome matches Outcome::Failed(InterpError::UnmatchedBracket { index })
        &&& first_unmatched(program, index as int)
    }
}

/// A text without a recognized character is interpreted at once: the run
/// is finished, in the initial state, and nothing was emitted.
pub proof fn lemma_interpreted_blank(text: Seq<char>, max_steps: nat, execution: Execution)
    requires
        forall|i: int| 0 <= i < text.len() ==> !recognized(#[trigger] text[i]),
        interpreted(lex(text), max_steps, execution),
    ensures
        execution.outcome == Outcome::Finished,
        execution.output@ == Seq::<u8>::empty(),
        execution.machine@ == State::initial(),
{
    lemma_lex_unrecognized(text);
    lemma_empty_program(lex(text), jump_table(lex(text)), max_steps);
}

/// A program with a loop that is never closed is not executed at all:
/// interpreting it fails with the first such loop, in the initial state and
/// without output, whatever the number of steps.
pub proof fn lemma_interpreted_unclosed(
    program: Seq<Token>,
    open: int,
    max_steps: nat,
    execution: Execution,
)
    requires
        unmatched(program, open),
        interpreted(program, max_steps, execution),
    ensures
        execution.outcome matches Outcome::Failed(InterpError::UnmatchedBracket { index })
            && first_unmatched(program, index as int),
        execution.output@ == Seq::<u8>::empty(),
        execution.machine@ == State::initial(),
{
    lemma_unmatched_iff_no_pair(program, open);
}

/// A run that has reached an input instruction fails there, whatever the
/// number of further steps, and its output is what was emitted until then.
pub proof fn lemma_input_fails(program: Seq<Token>, table: Seq<usize>, reached: nat, steps: nat)
    requires
        reached <= steps,
        program.len() <= usize::MAX,
        awaits_input(program, run_state(program, table, reached)),
    ensures
        outcome_at(program, run_state(program, table, steps)) == Outcome::Failed(
            InterpError::UnimplementedInput {
                index: run_state(program, table, reached).pc as usize,
            },
        ),
        run_output(program, table, steps) == run_output(program, table, reached),
{
    lemma_run_stays(program, table, reached, steps);
}

/// Interprets a program: resolves its loops, then runs it from the initial
/// state for at most `max_steps` steps.
pub fn simpleinterp(program: &Vec<Token>, max_steps: u64) -> (execution: Execution)
    ensures
        interpreted(program@, max_steps as nat, execution),
{
    match calculate_jumptable(program) {
        Ok(jumptable) => run(program, &jumptable, max_steps),
        Err(error) => Execution {
            outcome: Outcome::Failed(error),
            output: Vec::new(),
            machine: Machine::new(),
        },
    }
}

/// Interprets a program text: reduces it to its instructions and
/// interprets those.
pub fn interpret(input: &str, max_steps: u64) -> (execution: Execution)
    ensures
        interpreted(lex(input@), max_steps as nat, execution),
{
    let program = parse(input);
    simpleinterp(&program, max_steps)
}

} // verus!
