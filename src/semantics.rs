use vstd::prelude::*;

use crate::instruction::Instruction;
use crate::brackets::{is_pair, resolves};
use crate::interpreter::{MEMORY_SIZE, MachineState, state_ok};

verus! {

/// How a run stands after some steps.
#[derive(Debug, Clone, Copy, PartialEq, Eq, Structural)]
pub enum Progress {
    /// The run goes on at this program counter.
    Running(usize),
    /// The `Input` instruction at this program counter found the input queue
    /// empty: queue a byte and resume here.
    NeedsInput(usize),
    /// The program counter has left the program: the run is over.
    Halted,
}

/// A failure during a run.
#[derive(Debug, PartialEq, Eq)]
pub enum RuntimeError {
    /// Reading from the live input source failed.
    InputReadFailure(String),
    /// A jump at this program counter found no entry in the jump table.
    JumpTableOutOfBounds(usize),
}

/// The value of the current cell.
pub open spec fn current(s: MachineState) -> u8 {
    s.tape[s.pointer]
}

/// `s` with the current cell set to `v`.
pub open spec fn with_current(s: MachineState, v: u8) -> MachineState {
    MachineState { tape: s.tape.update(s.pointer, v), ..s }
}

/// `s` with the data pointer at `p`.
pub open spec fn with_pointer(s: MachineState, p: int) -> MachineState {
    MachineState { pointer: p, ..s }
}

/// Executes the instruction at `pc`: the next state and how the run stands.
pub open spec fn spec_step(s: MachineState, pc: usize) -> (MachineState, Result<
    Progress,
    RuntimeError,
>) {
    if pc >= s.program.len() {
        (s, Ok(Progress::Halted))
    } else {
        let cell = current(s);
        let next: Result<Progress, RuntimeError> = Ok(Progress::Running((pc + 1) as usize));
        match s.program[pc as int] {
            Instruction::Right => (
                with_pointer(
                    s,
                    if s.pointer < MEMORY_SIZE - 1 {
                        s.pointer + 1
                    } else {
                        s.pointer
                    },
                ),
                next,
            ),
            Instruction::Left => (
                with_pointer(
                    s,
                    if s.pointer > 0 {
                        s.pointer - 1
                    } else {
                        s.pointer
                    },
                ),
                next,
            ),
            Instruction::Increment => (with_current(s, ((cell + 1) % 256) as u8), next),
            Instruction::Decrement => (with_current(s, ((cell + 255) % 256) as u8), next),
            Instruction::Output => (MachineState { output: s.output.push(cell), ..s }, next),
            Instruction::Input => if s.input.len() > 0 {
                (
                    MachineState { input: s.input.drop_last(), ..with_current(s, s.input.last()) },
                    next,
                )
            } else {
                (s, Ok(Progress::NeedsInput(pc)))
            },
            Instruction::JumpIfZero => if cell != 0 {
                (s, next)
            } else if pc < s.to_close.len() {
                (s, Ok(Progress::Running((s.to_close[pc as int] + 1) as usize)))
            } else {
                (s, Err(RuntimeError::JumpTableOutOfBounds(pc)))
            },
            Instruction::JumpIfNotZero => if cell == 0 {
                (s, next)
            } else if pc < s.to_open.len() {
                (s, Ok(Progress::Running((s.to_open[pc as int] + 1) as usize)))
            } else {
                (s, Err(RuntimeError::JumpTableOutOfBounds(pc)))
            },
            Instruction::Zero => (with_current(s, 0), next),
            Instruction::Copy => if s.pointer < MEMORY_SIZE - 1 {
                (MachineState { tape: s.tape.update(s.pointer + 1, cell), ..s }, next)
            } else {
                (s, next)
            },
            Instruction::MoveHigh => (with_pointer(s, MEMORY_SIZE - 1), next),
            Instruction::MoveLow => (with_pointer(s, 0), next),
        }
    }
}

/// Runs from `pc` for at most `fuel` steps, stopping early when the program
/// halts, waits for input or fails.
pub open spec fn spec_run(s: MachineState, pc: usize, fuel: nat) -> (MachineState, Result<
    Progress,
    RuntimeError,
>)
    decreases fuel,
{
    if fuel == 0 {
        (s, Ok(Progress::Running(pc)))
    } else {
        let (t, r) = spec_step(s, pc);
        match r {
            Ok(Progress::Running(next)) => spec_run(t, next, (fuel - 1) as nat),
            _ => (t, r),
        }
    }
}

/// A step from a well-formed state never fails, keeps the state well formed,
/// and resumes, if at all, at a counter no greater than the program length.
pub proof fn lemma_step_ok(s: MachineState, pc: usize)
    requires
        state_ok(s),
    ensures
        spec_step(s, pc).1 is Ok,
        state_ok(spec_step(s, pc).0),
        spec_step(s, pc).0.program == s.program,
        spec_step(s, pc).0.to_close == s.to_close,
        spec_step(s, pc).0.to_open == s.to_open,
        spec_step(s, pc).1 matches Ok(Progress::Running(n)) ==> n <= s.program.len(),
{
    if pc < s.program.len() {
        let i = pc as int;
        if s.program[i] == Instruction::JumpIfZero {
            assert(is_pair(s.program, i, s.to_close[i] as int));
        } else if s.program[i] == Instruction::JumpIfNotZero {
            assert(is_pair(s.program, s.to_open[i] as int, i));
        }
    }
}

} // verus!
