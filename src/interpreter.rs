use vstd::prelude::*;

use crate::brackets::{
    delta, depth, first_unmatched_close, first_unmatched_open, is_pair, is_prefix,
    lemma_program_prefix, lemma_program_step, open_so_far, resolves, well_bracketed,
};
use crate::instruction::{Instruction, decode, spec_program};
use crate::semantics::{Progress, RuntimeError, lemma_step_ok, spec_run, spec_step};

verus! {

/// Number of cells on the tape.
pub const MEMORY_SIZE: usize = 30000;

/// Why a source text does not compile. Positions count instructions, not
/// characters: comment characters are not counted.
#[derive(Debug, Clone, Copy, PartialEq, Eq, Structural)]
pub enum CompileError {
    /// A `]` with no open `[` before it.
    UnmatchedCloseBracket(usize),
    /// The earliest `[` that is never closed.
    UnmatchedOpenBracket(usize),
}

/// Jump targets of the bracket instructions, indexed by instruction position.
struct JumpTable {
    to_close: Vec<usize>,
    to_open: Vec<usize>,
}

/// The interpreter: a fixed tape of byte cells, a data pointer, the compiled
/// program with its jump table, a queue of pending input bytes and the output
/// of the current run.
pub struct DerstandInterpreter {
    memory: Vec<u8>,
    pointer: usize,
    instructions: Vec<Instruction>,
    jump_table: JumpTable,
    input_buffer: Vec<u8>,
    output_buffer: Vec<u8>,
}

/// What an interpreter holds, as mathematical values.
pub ghost struct MachineState {
    pub tape: Seq<u8>,
    pub pointer: int,
    pub program: Seq<Instruction>,
    pub to_close: Seq<usize>,
    pub to_open: Seq<usize>,
    /// Pending input; the last element is consumed first.
    pub input: Seq<u8>,
    pub output: Seq<u8>,
}

/// The state invariant: the tape has its fixed size, the pointer is on it,
/// and the jump table resolves every bracket of the program.
pub open spec fn state_ok(s: MachineState) -> bool {
    &&& s.tape.len() == MEMORY_SIZE
    &&& 0 <= s.pointer < MEMORY_SIZE
    &&& well_bracketed(s.program)
    &&& resolves(s.program, s.to_close, s.to_open)
}

impl View for DerstandInterpreter {
    type V = MachineState;

    closed spec fn view(&self) -> MachineState {
        MachineState {
            tape: self.memory@,
            pointer: self.pointer as int,
            program: self.instructions@,
            to_close: self.jump_table.to_close@,
            to_open: self.jump_table.to_open@,
            input: self.input_buffer@,
            output: self.output_buffer@,
        }
    }
}

/// Makes `v[pos]` a valid index, padding with zeros; existing entries stay.
fn ensure_slot(v: &mut Vec<usize>, pos: usize)
    ensures
        final(v)@.len() > pos,
        final(v)@.len() >= old(v)@.len(),
        forall|i: int| 0 <= i < old(v)@.len() ==> #[trigger] final(v)@[i] == old(v)@[i],
{
    while v.len() <= pos
        invariant
            v@.len() >= old(v)@.len(),
            forall|i: int| 0 <= i < old(v)@.len() ==> #[trigger] v@[i] == old(v)@[i],
        decreases pos + 1 - v.len(),
    {
        v.push(0);
    }
}

impl DerstandInterpreter {
    /// The state invariant, kept by every operation.
    pub open spec fn wf(&self) -> bool {
        state_ok(self@)
    }

    /// A fresh interpreter: all cells zero, pointer at 0, no program, no
    /// pending input, no output.
    pub fn new() -> (r: Self)
        ensures
            r.wf(),
            r@ == (MachineState {
                tape: Seq::new(MEMORY_SIZE as nat, |i: int| 0u8),
                pointer: 0,
                program: Seq::empty(),
                to_close: Seq::empty(),
                to_open: Seq::empty(),
                input: Seq::empty(),
                output: Seq::empty(),
            }),
    {
        let r = DerstandInterpreter {
            memory: vec![0u8; MEMORY_SIZE],
            pointer: 0,
            instructions: Vec::new(),
            jump_table: JumpTable { to_close: Vec::new(), to_open: Vec::new() },
            input_buffer: Vec::new(),
            output_buffer: Vec::new(),
        };
        assert(r@.tape =~= Seq::new(MEMORY_SIZE as nat, |i: int| 0u8));
        assert(r@.program =~= Seq::empty());
        assert(r@.to_close =~= Seq::empty());
        assert(r@.to_open =~= Seq::empty());
        assert(r@.input =~= Seq::empty());
        assert(r@.output =~= Seq::empty());
        r
    }

    /// Compiles `source`, replacing the previous program and jump table.
    /// Characters other than the twelve instruction symbols are ignored. On
    /// success the program is exactly the recognised instructions and the jump
    /// table pairs every bracket with its partner; on failure the program and
    /// jump table are left empty. Tape, pointer, input and output are untouched.
    pub fn compile(&mut self, source: &str) -> (r: Result<(), CompileError>)
        requires
            old(self).wf(),
        ensures
            final(self).wf(),
            final(self)@.tape == old(self)@.tape,
            final(self)@.pointer == old(self)@.pointer,
            final(self)@.input == old(self)@.input,
            final(self)@.output == old(self)@.output,
            r is Ok <==> well_bracketed(spec_program(source@)),
            r is Err ==> final(self)@.to_close.len() == 0 && final(self)@.to_open.len() == 0,
            r is Ok ==> resolves(final(self)@.program, final(self)@.to_close, final(self)@.to_open),
            match r {
                Ok(()) => final(self)@.program == spec_program(source@),
                Err(CompileError::UnmatchedCloseBracket(j)) => {
                    &&& first_unmatched_close(spec_program(source@), j as int)
                    &&& final(self)@.program.len() == 0
                },
                Err(CompileError::UnmatchedOpenBracket(i)) => {
                    &&& first_unmatched_open(spec_program(source@), i as int)
                    &&& final(self)@.program.len() == 0
                },
            },
    {
        self.instructions.clear();
        self.jump_table.to_close.clear();
        self.jump_table.to_open.clear();
        let ghost full = spec_program(source@);
        let mut bracket_stack: Vec<usize> = Vec::new();
        let ghost mut idx: int = 0;
        proof {
            assert(source@.take(0) =~= Seq::<char>::empty());
        }
        for c in it: source.chars()
            invariant
                it.seq() == source@,
                idx == it.index(),
                full == spec_program(source@),
                self.memory@ == old(self)@.tape,
                self.memory@.len() == MEMORY_SIZE,
                self.pointer < MEMORY_SIZE,
                self.pointer == old(self)@.pointer,
                self.input_buffer@ == old(self)@.input,
                self.output_buffer@ == old(self)@.output,
                self.instructions@ == spec_program(source@.take(idx)),
                is_prefix(self.instructions@, full),
                forall|k: int| 0 <= k <= self.instructions@.len() ==> #[trigger] depth(full, k) >= 0,
                bracket_stack@.len() == depth(full, self.instructions@.len() as int),
                forall|d: int|
                    #![trigger bracket_stack@[d]]
                    0 <= d < bracket_stack@.len() ==> {
                        &&& bracket_stack@[d] < self.instructions@.len()
                        &&& full[bracket_stack@[d] as int] == Instruction::JumpIfZero
                        &&& depth(full, bracket_stack@[d] as int) == d
                        &&& forall|k: int|
                            bracket_stack@[d] < k <= self.instructions@.len() ==> #[trigger] depth(
                                full,
                                k,
                            ) > d
                    },
                forall|j: int|
                    #![trigger full[j]]
                    0 <= j < self.instructions@.len() && full[j] == Instruction::JumpIfNotZero ==> j
                        < self.jump_table.to_open@.len() && is_pair(
                        full,
                        self.jump_table.to_open@[j] as int,
                        j,
                    ),
                forall|i: int|
                    #![trigger full[i]]
                    0 <= i < self.instructions@.len() && full[i] == Instruction::JumpIfZero ==> (i
                        < self.jump_table.to_close@.len() && is_pair(
                        full,
                        i,
                        self.jump_table.to_close@[i] as int,
                    )) || open_so_far(full, i, self.instructions@.len() as int),
        {
            proof {
                lemma_program_step(source@, idx);
                lemma_program_prefix(source@, idx + 1);
            }
            let ghost n = self.instructions@.len() as int;
            match decode(c) {
                Some(ins) => {
                    self.instructions.push(ins);
                    let pos = self.instructions.len() - 1;
                    assert(self.instructions@ == full.subrange(0, n + 1));
                    assert(full[n] == self.instructions@[n]);
                    assert(depth(full, n + 1) == depth(full, n) + delta(ins));
                    if ins == Instruction::JumpIfZero {
                        bracket_stack.push(pos);
                    } else if ins == Instruction::JumpIfNotZero {
                        let ghost old_stack = bracket_stack@;
                        match bracket_stack.pop() {
                            Some(open_pos) => {
                                ensure_slot(&mut self.jump_table.to_close, open_pos);
                                ensure_slot(&mut self.jump_table.to_open, pos);
                                self.jump_table.to_close.set(open_pos, pos);
                                self.jump_table.to_open.set(pos, open_pos);
                                proof {
                                    let d = bracket_stack@.len() as int;
                                    assert(old_stack[d] == open_pos);
                                    assert(is_pair(full, open_pos as int, n));
                                    assert forall|i: int|
                                        #![trigger full[i]]
                                        0 <= i < n + 1 && full[i] == Instruction::JumpIfZero
                                            && i != open_pos && open_so_far(
                                            full,
                                            i,
                                            n,
                                        ) implies open_so_far(full, i, n + 1) by {
                                        if depth(full, i) == d {
                                            if i < open_pos {
                                                assert(depth(full, open_pos as int) > depth(
                                                    full,
                                                    i,
                                                ));
                                            } else {
                                                assert(depth(full, i) > d);
                                            }
                                        }
                                        assert(depth(full, n) > depth(full, i));
                                    }
                                }
                            },
                            None => {
                                self.instructions.clear();
                                self.jump_table.to_close.clear();
                                self.jump_table.to_open.clear();
                                assert(depth(self.instructions@, 0) == 0);
                                return Err(CompileError::UnmatchedCloseBracket(pos));
                            },
                        }
                    }
                },
                None => {},
            }
            proof {
                idx = idx + 1;
            }
        }
        proof {
            assert(source@.take(idx) =~= source@);
        }
        if bracket_stack.len() > 0 {
            let first = bracket_stack[0];
            self.instructions.clear();
            self.jump_table.to_close.clear();
            self.jump_table.to_open.clear();
            return Err(CompileError::UnmatchedOpenBracket(first));
        }
        Ok(())
    }

    /// Begins a run: the data pointer goes back to 0 and the output is
    /// cleared. Tape, program and pending input are kept.
    pub fn start(&mut self)
        requires
            old(self).wf(),
        ensures
            final(self).wf(),
            final(self)@ == (MachineState { pointer: 0, output: Seq::empty(), ..old(self)@ }),
    {
        self.pointer = 0;
        self.output_buffer.clear();
    }

    /// Queues one input byte. The queue is last in, first out: the byte
    /// queued last is the one the next `Input` instruction takes.
    pub fn queue_input(&mut self, byte: u8)
        requires
            old(self).wf(),
        ensures
            final(self).wf(),
            final(self)@ == (MachineState { input: old(self)@.input.push(byte), ..old(self)@ }),
    {
        self.input_buffer.push(byte);
    }

    /// Executes the instruction at `pc`. A compiled program never meets a
    /// missing jump-table entry, so the result is always `Ok`.
    pub fn step(&mut self, pc: usize) -> (r: Result<Progress, RuntimeError>)
        requires
            old(self).wf(),
        ensures
            final(self).wf(),
            (final(self)@, r) == spec_step(old(self)@, pc),
            r is Ok,
    {
        proof {
            lemma_step_ok(self@, pc);
        }
        if pc >= self.instructions.len() {
            return Ok(Progress::Halted);
        }
        let p = self.pointer;
        let cell = self.memory[p];
        match self.instructions[pc] {
            Instruction::Right => {
                if p < MEMORY_SIZE - 1 {
                    self.pointer = p + 1;
                }
            },
            Instruction::Left => {
                if p > 0 {
                    self.pointer = p - 1;
                }
            },
            Instruction::Increment => {
                self.memory.set(p, cell.wrapping_add(1));
            },
            Instruction::Decrement => {
                self.memory.set(p, cell.wrapping_sub(1));
            },
            Instruction::Output => {
                self.output_buffer.push(cell);
            },
            Instruction::Input => {
                match self.input_buffer.pop() {
                    Some(b) => {
                        self.memory.set(p, b);
                    },
                    None => {
                        return Ok(Progress::NeedsInput(pc));
                    },
                }
            },
            Instruction::JumpIfZero => {
                if cell == 0 {
                    if pc < self.jump_table.to_close.len() {
                        return Ok(Progress::Running(self.jump_table.to_close[pc] + 1));
                    } else {
                        return Err(RuntimeError::JumpTableOutOfBounds(pc));
                    }
                }
            },
            Instruction::JumpIfNotZero => {
                if cell != 0 {
                    if pc < self.jump_table.to_open.len() {
                        return Ok(Progress::Running(self.jump_table.to_open[pc] + 1));
                    } else {
                        return Err(RuntimeError::JumpTableOutOfBounds(pc));
                    }
                }
            },
            Instruction::Zero => {
                self.memory.set(p, 0);
            },
            Instruction::Copy => {
                if p < MEMORY_SIZE - 1 {
                    self.memory.set(p + 1, cell);
                }
            },
            Instruction::MoveHigh => {
                self.pointer = MEMORY_SIZE - 1;
            },
            Instruction::MoveLow => {
                self.pointer = 0;
            },
        }
        proof {
            assert(self@ == spec_step(old(self)@, pc).0);
        }
        Ok(Progress::Running(pc + 1))
    }

    /// Runs from `pc` for at most `fuel` steps. Stops early when the program
    /// halts or waits for input; otherwise returns `Running` with the counter
    /// to resume at.
    pub fn run(&mut self, pc_in: usize, fuel_in: u64) -> (r: Result<Progress, RuntimeError>)
        requires
            old(self).wf(),
        ensures
            final(self).wf(),
            (final(self)@, r) == spec_run(old(self)@, pc_in, fuel_in as nat),
            r is Ok,
    {
        let mut pc = pc_in;
        let mut fuel = fuel_in;
        while fuel > 0
            invariant
                self.wf(),
                spec_run(self@, pc, fuel as nat) == spec_run(old(self)@, pc_in, fuel_in as nat),
            decreases fuel,
        {
            let r = self.step(pc);
            match r {
                Ok(Progress::Running(next)) => {
                    pc = next;
                    fuel = fuel - 1;
                },
                _ => {
                    return r;
                },
            }
        }
        Ok(Progress::Running(pc))
    }

    /// The data pointer.
    pub fn pointer(&self) -> (r: usize)
        ensures
            r == self@.pointer,
    {
        self.pointer
    }

    /// The cell at `index`, if the tape has one there.
    pub fn cell(&self, index: usize) -> (r: Option<u8>)
        ensures
            r == (if index < self@.tape.len() {
                Some(self@.tape[index as int])
            } else {
                None
            }),
    {
        if index < self.memory.len() {
            Some(self.memory[index])
        } else {
            None
        }
    }

    /// The bytes output by the current run.
    pub fn output(&self) -> (r: &Vec<u8>)
        ensures
            r@ == self@.output,
    {
        &self.output_buffer
    }

    /// The compiled program.
    pub fn instructions(&self) -> (r: &Vec<Instruction>)
        ensures
            r@ == self@.program,
    {
        &self.instructions
    }

    /// The partner of the bracket instruction at `pc`; `None` where `pc` holds
    /// no bracket.
    pub fn jump_target(&self, pc: usize) -> (r: Option<usize>)
        requires
            self.wf(),
        ensures
            r == (if pc < self@.program.len() && self@.program[pc as int]
                == Instruction::JumpIfZero {
                Some(self@.to_close[pc as int])
            } else if pc < self@.program.len() && self@.program[pc as int]
                == Instruction::JumpIfNotZero {
                Some(self@.to_open[pc as int])
            } else {
                None
            }),
    {
        if pc >= self.instructions.len() {
            return None;
        }
        match self.instructions[pc] {
            Instruction::JumpIfZero => {
                assert(is_pair(self@.program, pc as int, self@.to_close[pc as int] as int));
                Some(self.jump_table.to_close[pc])
            },
            Instruction::JumpIfNotZero => {
                assert(is_pair(self@.program, self@.to_open[pc as int] as int, pc as int));
                Some(self.jump_table.to_open[pc])
            },
            _ => None,
        }
    }
}

} // verus!
