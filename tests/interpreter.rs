use derstand::{CompileError, DerstandInterpreter, Instruction, MEMORY_SIZE, Progress};

/// Runs the compiled program to its end; the input queue must hold enough bytes.
fn run_to_end(it: &mut DerstandInterpreter) -> Vec<u8> {
    it.start();
    let mut pc: usize = 0;
    loop {
        match it.run(pc, 1_000_000) {
            Ok(Progress::Running(next)) => pc = next,
            Ok(Progress::Halted) => break,
            Ok(Progress::NeedsInput(at)) => panic!("input needed at {}", at),
            Err(e) => panic!("runtime error {:?}", e),
        }
    }
    it.output().clone()
}

fn compiled(source: &str) -> DerstandInterpreter {
    let mut it = DerstandInterpreter::new();
    assert_eq!(it.compile(source), Ok(()));
    it
}

#[test]
fn lone_close_bracket_is_unmatched_at_zero() {
    let mut it = DerstandInterpreter::new();
    assert_eq!(it.compile("]"), Err(CompileError::UnmatchedCloseBracket(0)));
}

#[test]
fn lone_open_bracket_is_unmatched_at_zero() {
    let mut it = DerstandInterpreter::new();
    assert_eq!(it.compile("["), Err(CompileError::UnmatchedOpenBracket(0)));
}

#[test]
fn error_positions_count_instructions_not_characters() {
    let mut it = DerstandInterpreter::new();
    assert_eq!(it.compile("a + b ]"), Err(CompileError::UnmatchedCloseBracket(1)));
    assert_eq!(it.compile("x[[ ]"), Err(CompileError::UnmatchedOpenBracket(0)));
}

#[test]
fn earliest_unclosed_open_is_reported() {
    let mut it = DerstandInterpreter::new();
    assert_eq!(it.compile("[][+["), Err(CompileError::UnmatchedOpenBracket(2)));
    assert_eq!(it.compile("[[]"), Err(CompileError::UnmatchedOpenBracket(0)));
    assert_eq!(it.compile("[]]["), Err(CompileError::UnmatchedCloseBracket(2)));
}

#[test]
fn failed_compile_leaves_no_program() {
    let mut it = compiled("+++");
    assert!(it.compile("+]").is_err());
    assert!(it.instructions().is_empty());
    assert_eq!(run_to_end(&mut it), Vec::<u8>::new());
    assert_eq!(it.cell(0), Some(0));
}

#[test]
fn compile_keeps_only_instruction_symbols() {
    let it = compiled("> <+-. ,[]#$%& hello");
    assert_eq!(
        it.instructions().clone(),
        vec![
            Instruction::Right,
            Instruction::Left,
            Instruction::Increment,
            Instruction::Decrement,
            Instruction::Output,
            Instruction::Input,
            Instruction::JumpIfZero,
            Instruction::JumpIfNotZero,
            Instruction::Zero,
            Instruction::Copy,
            Instruction::MoveHigh,
            Instruction::MoveLow,
        ]
    );
}

#[test]
fn jump_table_pairs_nested_brackets() {
    let it = compiled("+ [ > [ - ] < - ] [ ]");
    assert_eq!(it.jump_target(0), None);
    assert_eq!(it.jump_target(1), Some(8));
    assert_eq!(it.jump_target(8), Some(1));
    assert_eq!(it.jump_target(3), Some(5));
    assert_eq!(it.jump_target(5), Some(3));
    assert_eq!(it.jump_target(9), Some(10));
    assert_eq!(it.jump_target(10), Some(9));
    assert_eq!(it.jump_target(2), None);
    assert_eq!(it.jump_target(11), None);
}

#[test]
fn increment_wraps_after_256() {
    let mut it = compiled(&"+".repeat(256));
    assert_eq!(run_to_end(&mut it), Vec::<u8>::new());
    assert_eq!(it.cell(0), Some(0));
    let mut it = compiled(&"+".repeat(255));
    run_to_end(&mut it);
    assert_eq!(it.cell(0), Some(255));
}

#[test]
fn decrement_wraps_below_zero() {
    let mut it = compiled("-.");
    assert_eq!(run_to_end(&mut it), vec![255]);
}

#[test]
fn move_left_at_start_stays_at_zero() {
    let mut it = compiled("<");
    run_to_end(&mut it);
    assert_eq!(it.pointer(), 0);
}

#[test]
fn move_right_stops_at_last_cell() {
    let mut it = compiled("%>>+");
    run_to_end(&mut it);
    assert_eq!(it.pointer(), MEMORY_SIZE - 1);
    assert_eq!(it.cell(MEMORY_SIZE - 1), Some(1));
    assert_eq!(it.cell(MEMORY_SIZE), None);
}

#[test]
fn seek_low_returns_to_cell_zero() {
    let mut it = compiled(">>>+&++.");
    assert_eq!(run_to_end(&mut it), vec![2]);
    assert_eq!(it.cell(3), Some(1));
}

#[test]
fn two_increments_then_output() {
    let mut it = compiled("++.");
    assert_eq!(run_to_end(&mut it), vec![2]);
}

#[test]
fn zero_loop_clears_cell() {
    let mut it = compiled("+[-]");
    assert_eq!(run_to_end(&mut it), Vec::<u8>::new());
    assert_eq!(it.cell(0), Some(0));
}

#[test]
fn loop_skipped_when_cell_is_zero() {
    let mut it = compiled("[+.]++.");
    assert_eq!(run_to_end(&mut it), vec![2]);
}

#[test]
fn counting_loop_outputs_each_value() {
    let mut it = compiled("+++[.-]");
    assert_eq!(run_to_end(&mut it), vec![3, 2, 1]);
}

#[test]
fn copy_to_next_cell() {
    let mut it = compiled("+$>.");
    assert_eq!(run_to_end(&mut it), vec![1]);
}

#[test]
fn copy_at_last_cell_is_ignored() {
    let mut it = compiled("%+$");
    run_to_end(&mut it);
    assert_eq!(it.cell(MEMORY_SIZE - 1), Some(1));
    assert_eq!(it.cell(MEMORY_SIZE - 2), Some(0));
}

#[test]
fn zero_instruction_clears_cell() {
    let mut it = compiled("+++#.");
    assert_eq!(run_to_end(&mut it), vec![0]);
}

#[test]
fn second_run_keeps_tape_and_resets_pointer_and_output() {
    let mut it = compiled("+>.<.");
    assert_eq!(run_to_end(&mut it), vec![0, 1]);
    assert_eq!(it.pointer(), 0);
    assert_eq!(run_to_end(&mut it), vec![0, 2]);
    assert_eq!(it.cell(0), Some(2));
}

#[test]
fn tape_survives_recompile() {
    let mut it = compiled(">+++");
    run_to_end(&mut it);
    assert_eq!(it.compile(">."), Ok(()));
    assert_eq!(run_to_end(&mut it), vec![3]);
}

#[test]
fn queued_input_is_last_in_first_out() {
    let mut it = compiled(",.,.");
    it.queue_input(1);
    it.queue_input(2);
    assert_eq!(run_to_end(&mut it), vec![2, 1]);
}

#[test]
fn input_with_empty_queue_asks_for_a_byte() {
    let mut it = compiled("+,.");
    it.start();
    assert_eq!(it.run(0, 100), Ok(Progress::NeedsInput(1)));
    assert_eq!(it.cell(0), Some(1));
    it.queue_input(7);
    assert_eq!(it.run(1, 100), Ok(Progress::Halted));
    assert_eq!(it.output().clone(), vec![7]);
}

#[test]
fn single_steps_follow_the_jump_table() {
    let mut it = compiled("[+]-");
    it.start();
    assert_eq!(it.step(0), Ok(Progress::Running(3)));
    assert_eq!(it.step(3), Ok(Progress::Running(4)));
    assert_eq!(it.step(4), Ok(Progress::Halted));
    assert_eq!(it.cell(0), Some(255));
}

#[test]
fn fuel_bounds_an_endless_loop() {
    let mut it = compiled("+[]");
    it.start();
    match it.run(0, 1000) {
        Ok(Progress::Running(pc)) => assert!(pc <= 3),
        other => panic!("unexpected {:?}", other),
    }
}

#[test]
fn fresh_interpreter_is_blank() {
    let it = DerstandInterpreter::new();
    assert_eq!(it.pointer(), 0);
    assert!(it.instructions().is_empty());
    assert!(it.output().is_empty());
    assert_eq!(it.cell(12345), Some(0));
}
