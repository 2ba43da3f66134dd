use tape_interp::{
    calculate_jumptable, interpret, parse, run, simpleinterp, InterpError, Outcome, MEMORY_SIZE,
};

const PLENTY: u64 = 1_000_000;

#[test]
fn increment_then_clear_loop_leaves_zero() {
    let execution = simpleinterp(&parse("+[-]"), PLENTY);
    assert_eq!(execution.outcome, Outcome::Finished);
    assert_eq!(execution.machine.cell(), 0);
    assert_eq!(execution.machine.dataptr(), 0);
    assert_eq!(execution.machine.pc(), 4);
    assert_eq!(execution.output, Vec::<u8>::new());
}

#[test]
fn output_comes_in_execution_order() {
    let execution = simpleinterp(&parse("++.+."), PLENTY);
    assert_eq!(execution.outcome, Outcome::Finished);
    assert_eq!(execution.output, vec![2, 3]);
}

#[test]
fn text_without_instructions_finishes_at_once() {
    let execution = interpret("no instructions here", PLENTY);
    assert_eq!(execution.outcome, Outcome::Finished);
    assert_eq!(execution.output, Vec::<u8>::new());
    assert_eq!(execution.machine.pc(), 0);
    let execution = interpret("", 0);
    assert_eq!(execution.outcome, Outcome::Finished);
    assert_eq!(execution.output, Vec::<u8>::new());
}

#[test]
fn input_instruction_fails_where_it_is_reached() {
    let execution = simpleinterp(&parse("+.+.,+."), PLENTY);
    assert_eq!(
        execution.outcome,
        Outcome::Failed(InterpError::UnimplementedInput { index: 4 })
    );
    assert_eq!(execution.output, vec![1, 2]);
    assert_eq!(execution.machine.pc(), 4);
    assert_eq!(execution.machine.cell(), 2);
}

#[test]
fn input_instruction_that_is_skipped_does_not_fail() {
    let execution = simpleinterp(&parse("[,]+."), PLENTY);
    assert_eq!(execution.outcome, Outcome::Finished);
    assert_eq!(execution.output, vec![1]);
}

#[test]
fn unclosed_loop_fails_before_anything_runs() {
    let execution = simpleinterp(&parse("+.+.["), PLENTY);
    assert_eq!(
        execution.outcome,
        Outcome::Failed(InterpError::UnmatchedBracket { index: 4 })
    );
    assert_eq!(execution.output, Vec::<u8>::new());
    assert_eq!(execution.machine.pc(), 0);
    assert_eq!(execution.machine.cell(), 0);
}

#[test]
fn unclosed_loop_is_found_before_input_instruction() {
    let execution = simpleinterp(&parse(",["), PLENTY);
    assert_eq!(
        execution.outcome,
        Outcome::Failed(InterpError::UnmatchedBracket { index: 1 })
    );
}

#[test]
fn cell_wraps_around_upwards() {
    let text = "+".repeat(256);
    let execution = interpret(&text, PLENTY);
    assert_eq!(execution.outcome, Outcome::Finished);
    assert_eq!(execution.machine.cell(), 0);
    let execution = interpret(&text[..255], PLENTY);
    assert_eq!(execution.machine.cell(), 255);
}

#[test]
fn cell_wraps_around_downwards() {
    let execution = interpret("-.", PLENTY);
    assert_eq!(execution.output, vec![255]);
    assert_eq!(execution.machine.cell(), 255);
}

#[test]
fn pointer_wraps_around_to_the_left() {
    let execution = interpret("<", PLENTY);
    assert_eq!(execution.outcome, Outcome::Finished);
    assert_eq!(execution.machine.dataptr(), MEMORY_SIZE - 1);
}

#[test]
fn pointer_wraps_around_to_the_right() {
    let text = ">".repeat(MEMORY_SIZE);
    let execution = interpret(&text, PLENTY);
    assert_eq!(execution.outcome, Outcome::Finished);
    assert_eq!(execution.machine.dataptr(), 0);
    let execution = interpret(&text[..MEMORY_SIZE - 1], PLENTY);
    assert_eq!(execution.machine.dataptr(), MEMORY_SIZE - 1);
}

#[test]
fn loop_on_zero_is_skipped() {
    let execution = interpret("[.+]", PLENTY);
    assert_eq!(execution.outcome, Outcome::Finished);
    assert_eq!(execution.output, Vec::<u8>::new());
    assert_eq!(execution.machine.cell(), 0);
    assert_eq!(execution.machine.pc(), 4);
}

#[test]
fn loop_multiplies() {
    let execution = interpret("++[>+++<-]>.", PLENTY);
    assert_eq!(execution.outcome, Outcome::Finished);
    assert_eq!(execution.output, vec![6]);
    assert_eq!(execution.machine.dataptr(), 1);
    assert_eq!(execution.machine.memory()[0], 0);
}

#[test]
fn nested_loops_run() {
    let execution = interpret("++[>++[>++<-]<-]>>.", PLENTY);
    assert_eq!(execution.outcome, Outcome::Finished);
    assert_eq!(execution.output, vec![8]);
}

#[test]
fn greeting_program_prints_its_greeting() {
    let text = "++++++++[>++++[>++>+++>+++>+<<<<-]>+>+>->>+[<]<-]>>.>---.+++++++..+++.>>.<-.<.+++.------.--------.>>+.>++.";
    let execution = interpret(text, PLENTY);
    assert_eq!(execution.outcome, Outcome::Finished);
    assert_eq!(execution.output, b"Hello World!\n".to_vec());
}

#[test]
fn endless_loop_runs_out_of_steps() {
    let execution = interpret("+[]", 1000);
    assert_eq!(execution.outcome, Outcome::OutOfSteps);
    assert_eq!(execution.machine.cell(), 1);
    assert_eq!(execution.output, Vec::<u8>::new());
}

#[test]
fn endless_loop_keeps_its_output() {
    let execution = interpret("+[.]", 7);
    assert_eq!(execution.outcome, Outcome::OutOfSteps);
    assert_eq!(execution.output, vec![1, 1, 1]);
}

#[test]
fn step_limit_counts_instructions() {
    let execution = interpret("+++", 3);
    assert_eq!(execution.outcome, Outcome::Finished);
    assert_eq!(execution.machine.cell(), 3);
    let execution = interpret("+++", 2);
    assert_eq!(execution.outcome, Outcome::OutOfSteps);
    assert_eq!(execution.machine.cell(), 2);
    assert_eq!(execution.machine.pc(), 2);
    let execution = interpret("+++", 0);
    assert_eq!(execution.outcome, Outcome::OutOfSteps);
    assert_eq!(execution.machine.cell(), 0);
}

#[test]
fn input_instruction_reached_with_the_last_step_fails() {
    let execution = interpret("+,", 1);
    assert_eq!(
        execution.outcome,
        Outcome::Failed(InterpError::UnimplementedInput { index: 1 })
    );
    let execution = interpret("+,", 0);
    assert_eq!(execution.outcome, Outcome::OutOfSteps);
}

#[test]
fn closing_bracket_alone_falls_through_on_zero() {
    let execution = interpret("]+.", PLENTY);
    assert_eq!(execution.outcome, Outcome::Finished);
    assert_eq!(execution.output, vec![1]);
}

#[test]
fn closing_bracket_alone_jumps_to_the_start_on_nonzero() {
    let execution = interpret("+.]", 5);
    assert_eq!(execution.outcome, Outcome::OutOfSteps);
    assert_eq!(execution.output, vec![1, 1]);
    assert_eq!(execution.machine.cell(), 1);
}

#[test]
fn run_takes_a_program_and_its_table() {
    let program = parse("+++[>++<-]>.");
    let table = calculate_jumptable(&program).unwrap();
    let execution = run(&program, &table, PLENTY);
    assert_eq!(execution.outcome, Outcome::Finished);
    assert_eq!(execution.output, vec![6]);
}

#[test]
fn interpret_is_parse_then_simpleinterp() {
    let text = "say ++ then . and + then .";
    let direct = interpret(text, PLENTY);
    let staged = simpleinterp(&parse(text), PLENTY);
    assert_eq!(direct.outcome, staged.outcome);
    assert_eq!(direct.output, staged.output);
    assert_eq!(direct.output, vec![2, 3]);
}
