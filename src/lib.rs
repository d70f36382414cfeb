//! A compiler and interpreter for a small tape language: the eight classic
//! symbols plus four shortcuts (`#` zero, `$` copy right, `%` seek high end,
//! `&` seek low end).
pub mod instruction;
pub mod brackets;
pub mod interpreter;
pub mod semantics;

pub use instruction::Instruction;
pub use interpreter::{CompileError, DerstandInterpreter, MEMORY_SIZE};
pub use semantics::{Progress, RuntimeError};
