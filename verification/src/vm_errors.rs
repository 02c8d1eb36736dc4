//! Errors that terminate a run of the virtual machine.

use vstd::prelude::*;

verus! {

/// The specific failure behind a `VMError::RuntimeError`.
#[derive(Clone, Copy, PartialEq, Eq, Debug, Structural)]
pub enum RuntimeFault {
    /// A `DIV` or `MOD` instruction met a zero divisor.
    DivisionByZero,
    /// A `set_pixel` or `get_pixel` host call named an index at or past the
    /// strip's length.
    PixelIndexOutOfRange,
    /// A `random_int` host call asked for a number below zero entries.
    RandomRangeEmpty,
    /// An instruction's operand bytes run past the end of the code buffer.
    CodeOverrun,
}

/// Why a run of the virtual machine stopped short of its program's end.
#[derive(Clone, Copy, PartialEq, Eq, Debug, Structural)]
pub enum VMError {
    /// The total instruction budget was exhausted: (count, limit).
    GlobalInstructionLimitReached(usize, usize),
    /// The per-run instruction budget was exhausted: (count, limit).
    LocalInstructionLimitReached(usize, usize),
    /// The postfix (or opcode byte) does not name an instruction.
    UnknownInstruction(u8),
    /// The instruction is recognized but has no implementation.
    UnimplementedInstruction(u8),
    /// An instruction needed more values than the stack holds.
    StackUnderflow,
    /// A runtime fault such as division by zero.
    RuntimeError(RuntimeFault),
}

impl VMError {
    /// A short description, suitable for a host's diagnostics.
    pub fn describe(&self) -> (r: &'static str)
        ensures
            r@.len() > 0,
    {
        let s: &'static str = match self {
            VMError::GlobalInstructionLimitReached(_, _) => "global instruction limit reached",
            VMError::LocalInstructionLimitReached(_, _) => "local instruction limit reached",
            VMError::UnknownInstruction(_) => "unknown instruction",
            VMError::UnimplementedInstruction(_) => "unimplemented instruction",
            VMError::StackUnderflow => "stack underflow",
            VMError::RuntimeError(RuntimeFault::DivisionByZero) => "runtime error: division by zero",
            VMError::RuntimeError(RuntimeFault::PixelIndexOutOfRange) => "runtime error: pixel index out of range",
            VMError::RuntimeError(RuntimeFault::RandomRangeEmpty) => "runtime error: empty random range",
            VMError::RuntimeError(RuntimeFault::CodeOverrun) => "runtime error: operand overruns code",
        };
        proof {
            reveal_strlit("global instruction limit reached");
            reveal_strlit("local instruction limit reached");
            reveal_strlit("unknown instruction");
            reveal_strlit("unimplemented instruction");
            reveal_strlit("stack underflow");
            reveal_strlit("runtime error: division by zero");
            reveal_strlit("runtime error: pixel index out of range");
            reveal_strlit("runtime error: empty random range");
            reveal_strlit("runtime error: operand overruns code");
        }
        s
    }
}

} // verus!
