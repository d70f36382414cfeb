use vstd::prelude::*;

verus! {

/// One operation of a compiled program. Jump targets are not stored here:
/// they live in the interpreter's jump table, indexed by position.
#[derive(Debug, Clone, Copy, PartialEq, Eq, Structural)]
pub enum Instruction {
    /// `>`: move the data pointer one cell right, stopping at the last cell.
    Right,
    /// `<`: move the data pointer one cell left, stopping at cell 0.
    Left,
    /// `+`: add one to the current cell, wrapping at 256.
    Increment,
    /// `-`: subtract one from the current cell, wrapping at 0.
    Decrement,
    /// `.`: append the current cell to the output.
    Output,
    /// `,`: store one input byte into the current cell.
    Input,
    /// `[`: skip past the matching `]` when the current cell is zero.
    JumpIfZero,
    /// `]`: go back past the matching `[` when the current cell is not zero.
    JumpIfNotZero,
    /// `#`: set the current cell to zero.
    Zero,
    /// `$`: copy the current cell into the next one, if there is a next one.
    Copy,
    /// `%`: move the data pointer to the last cell.
    MoveHigh,
    /// `&`: move the data pointer to cell 0.
    MoveLow,
}

/// The instruction that a source character stands for, if any.
pub open spec fn spec_decode(c: char) -> Option<Instruction> {
    if c == '>' {
        Some(Instruction::Right)
    } else if c == '<' {
        Some(Instruction::Left)
    } else if c == '+' {
        Some(Instruction::Increment)
    } else if c == '-' {
        Some(Instruction::Decrement)
    } else if c == '.' {
        Some(Instruction::Output)
    } else if c == ',' {
        Some(Instruction::Input)
    } else if c == '[' {
        Some(Instruction::JumpIfZero)
    } else if c == ']' {
        Some(Instruction::JumpIfNotZero)
    } else if c == '#' {
        Some(Instruction::Zero)
    } else if c == '$' {
        Some(Instruction::Copy)
    } else if c == '%' {
        Some(Instruction::MoveHigh)
    } else if c == '&' {
        Some(Instruction::MoveLow)
    } else {
        None
    }
}

/// The program that a source text compiles to: its recognised characters, in
/// order, each as its instruction; every other character is a comment.
pub open spec fn spec_program(s: Seq<char>) -> Seq<Instruction>
    decreases s.len(),
{
    if s.len() == 0 {
        Seq::empty()
    } else {
        let rest = spec_program(s.drop_last());
        match spec_decode(s.last()) {
            Some(i) => rest.push(i),
            None => rest,
        }
    }
}

/// Decodes one source character.
pub fn decode(c: char) -> (r: Option<Instruction>)
    ensures
        r == spec_decode(c),
{
    match c {
        '>' => Some(Instruction::Right),
        '<' => Some(Instruction::Left),
        '+' => Some(Instruction::Increment),
        '-' => Some(Instruction::Decrement),
        '.' => Some(Instruction::Output),
        ',' => Some(Instruction::Input),
        '[' => Some(Instruction::JumpIfZero),
        ']' => Some(Instruction::JumpIfNotZero),
        '#' => Some(Instruction::Zero),
        '$' => Some(Instruction::Copy),
        '%' => Some(Instruction::MoveHigh),
        '&' => Some(Instruction::MoveLow),
        _ => None,
    }
}

} // verus!
