//! The program builder: an append-only byte buffer holding bytecode, a
//! static stack-depth counter, and an offset base used when assembling
//! nested fragments so that absolute jump targets can be computed.
//!
//! Jump targets are absolute 16-bit byte addresses, so a program (and every
//! fragment measured from its offset base) is capped at `CODE_MAX` bytes;
//! an emit that would grow past the cap fails with
//! `SyntaxError::ProgramTooLarge` instead of truncating an address.

use vstd::prelude::*;

verus! {

use vstd::assert_seqs_equal;

use crate::instructions::{Binary, Prefix, Special, Unary, UserCommand};

/// The largest value the low nibble of an instruction byte can carry.
pub const POSTFIX_MAX: u8 = 15;

/// The largest address a 16-bit jump target can name, and so the largest
/// size of a program's code buffer.
pub const CODE_MAX: usize = 0xFFFF;

/// A compile-time failure.
#[derive(Debug, Clone, PartialEq, Eq)]
pub enum SyntaxError {
    /// A variable was declared twice in the same scope.
    RedifinedVariable(String),
    /// A variable was read or assigned before being declared.
    UndefinedVariable(String),
    /// A scope teardown was asked of the root scope.
    ConnotUnnest,
    /// An emitted count or depth exceeds `POSTFIX_MAX`; carries the name of
    /// the operation and the offending value (saturated to fit a byte).
    PostfixLimit(&'static str, u8),
    /// A structured emitter's body fragment left a net change to the static
    /// stack size; carries the name of the structured form.
    FragmentCannotModifyStackSize(&'static str),
    /// Parsing succeeded on a prefix of the source only; carries the rest.
    CouldNotParseRamainder(String),
    /// Parsing failed outright.
    ParseError(String),
    /// An emit would grow the code past `CODE_MAX`.
    ProgramTooLarge,
    /// A stack-size adjustment fell outside the range any code of legal
    /// size could produce.
    StackSizeOutOfRange,
}

impl SyntaxError {
    /// A short description, suitable for a host's diagnostics.
    pub fn describe(&self) -> (r: &'static str)
        ensures
            r@.len() > 0,
    {
        let s: &'static str = match self {
            SyntaxError::RedifinedVariable(_) => "variable already defined",
            SyntaxError::UndefinedVariable(_) => "variable was not defined",
            SyntaxError::ConnotUnnest => "cannot unnest scope without parent",
            SyntaxError::PostfixLimit(_, _) => "postfix greater than limit",
            SyntaxError::FragmentCannotModifyStackSize(_) => "fragment cannot modify stack size",
            SyntaxError::CouldNotParseRamainder(_) => "could not parse remainder",
            SyntaxError::ParseError(_) => "parse error",
            SyntaxError::ProgramTooLarge => "program larger than the jump address space",
            SyntaxError::StackSizeOutOfRange => "stack size adjustment out of range",
        };
        proof {
            reveal_strlit("variable already defined");
            reveal_strlit("variable was not defined");
            reveal_strlit("cannot unnest scope without parent");
            reveal_strlit("postfix greater than limit");
            reveal_strlit("fragment cannot modify stack size");
            reveal_strlit("could not parse remainder");
            reveal_strlit("parse error");
            reveal_strlit("program larger than the jump address space");
            reveal_strlit("stack size adjustment out of range");
        }
        s
    }
}

/// The mathematical content of a `Program`: its code bytes, its static
/// stack-depth counter, and the address its first byte will have once the
/// buffer is placed (zero for a whole program, further in for a fragment).
pub struct ProgramView {
    pub code: Seq<u8>,
    pub stack_size: int,
    pub offset: int,
}

/// A bytecode program under construction.
pub struct Program {
    code: Vec<u8>,
    stack_size: i64,
    offset: usize,
}

impl View for Program {
    type V = ProgramView;

    closed spec fn view(&self) -> ProgramView {
        ProgramView {
            code: self.code@,
            stack_size: self.stack_size as int,
            offset: self.offset as int,
        }
    }
}

/// The two little-endian bytes of a 16-bit address.
pub open spec fn spec_addr_bytes(addr: int) -> Seq<u8>
    recommends
        0 <= addr <= CODE_MAX,
{
    seq![(addr % 256) as u8, (addr / 256) as u8]
}

/// The shortest encoding chosen by `push`: `PUSHB 0` for zero, `PUSHB 1`
/// plus one byte for values up to 0xFF, else `PUSHI 1` plus four
/// little-endian bytes.
pub open spec fn spec_push_encoding(b: u32) -> Seq<u8> {
    if b == 0 {
        seq![0x10u8]
    } else if b <= 0xFF {
        seq![0x11u8, b as u8]
    } else {
        seq![
            0x31u8,
            (b % 256) as u8,
            ((b / 256) % 256) as u8,
            ((b / 65536) % 256) as u8,
            ((b / 16777216) % 256) as u8,
        ]
    }
}

impl Program {
    /// Well-formedness: the code fits the 16-bit address space measured
    /// from its offset base, and the static stack counter never strays
    /// beyond what the emitted bytes could account for (each byte moves
    /// the stack by at most `POSTFIX_MAX` words).
    pub open spec fn wf(self) -> bool {
        &&& self@.offset + self@.code.len() <= CODE_MAX
        &&& -(POSTFIX_MAX as int) * (self@.offset + self@.code.len()) <= self@.stack_size
        &&& self@.stack_size <= (POSTFIX_MAX as int) * (self@.offset + self@.code.len())
        &&& self@.offset >= 0
    }

    /// The address right past the code built so far: where the next
    /// emitted byte will land.
    pub open spec fn spec_current_pc(self) -> int {
        self@.offset + self@.code.len()
    }

    /// An empty program based at address zero.
    pub fn new() -> (r: Program)
        ensures
            r@.code == Seq::<u8>::empty(),
            r@.stack_size == 0,
            r@.offset == 0,
            r.wf(),
    {
        Program { code: Vec::new(), stack_size: 0, offset: 0 }
    }

    /// Wrap raw bytecode, as read back from storage, for execution. The
    /// result is well formed as a build target only when the data fits the
    /// jump address space.
    pub fn from_binary(data: Vec<u8>) -> (r: Program)
        ensures
            r@.code == data@,
            r@.stack_size == 0,
            r@.offset == 0,
            data@.len() <= CODE_MAX ==> r.wf(),
    {
        Program { code: data, stack_size: 0, offset: 0 }
    }

    /// The code built so far.
    pub fn code(&self) -> (r: &Vec<u8>)
        ensures
            r@ == self@.code,
    {
        &self.code
    }

    /// The static stack-depth counter.
    pub fn stack_size(&self) -> (r: i64)
        ensures
            r == self@.stack_size,
    {
        self.stack_size
    }

    /// The address base of this buffer.
    pub fn offset(&self) -> (r: usize)
        ensures
            r == self@.offset,
    {
        self.offset
    }

    /// The address right past the code built so far.
    pub fn current_pc(&self) -> (r: usize)
        requires
            self.wf(),
        ensures
            r == self.spec_current_pc(),
    {
        self.offset + self.code.len()
    }

    /// Append raw bytes, failing when they would not fit the address space.
    fn write(&mut self, buffer: &[u8]) -> (r: Result<(), SyntaxError>)
        requires
            old(self)@.offset + old(self)@.code.len() <= CODE_MAX,
        ensures
            final(self)@.stack_size == old(self)@.stack_size,
            final(self)@.offset == old(self)@.offset,
            match r {
                Ok(()) => {
                    &&& old(self).spec_current_pc() + buffer@.len() <= CODE_MAX
                    &&& final(self)@.code == old(self)@.code + buffer@
                },
                Err(e) => {
                    &&& e == SyntaxError::ProgramTooLarge
                    &&& old(self).spec_current_pc() + buffer@.len() > CODE_MAX
                    &&& final(self)@ == old(self)@
                },
            },
    {
        if buffer.len() > CODE_MAX - (self.offset + self.code.len()) {
            return Err(SyntaxError::ProgramTooLarge);
        }
        self.code.extend_from_slice(buffer);
        Ok(())
    }

    /// Emit `POP 0`: a one-byte instruction with no effect.
    pub fn nop(&mut self) -> (r: Result<(), SyntaxError>)
        requires
            old(self).wf(),
        ensures
            final(self).wf(),
            final(self)@.stack_size == old(self)@.stack_size,
            final(self)@.offset == old(self)@.offset,
            match r {
                Ok(()) => final(self)@.code == old(self)@.code + seq![0x00u8],
                Err(e) => {
                    &&& e == SyntaxError::ProgramTooLarge
                    &&& old(self).spec_current_pc() + 1 > CODE_MAX
                    &&& final(self)@ == old(self)@
                },
            },
    {
        self.write(&[0x00u8])
    }

    /// Emit `POP n`: discard the `n` top stack values. Fails with the
    /// postfix-limit error exactly when `n` exceeds `POSTFIX_MAX`.
    pub fn pop(&mut self, n: u8) -> (r: Result<(), SyntaxError>)
        requires
            old(self).wf(),
        ensures
            final(self).wf(),
            final(self)@.offset == old(self)@.offset,
            match r {
                Ok(()) => {
                    &&& n <= POSTFIX_MAX
                    &&& final(self)@.code == old(self)@.code + seq![((0x00u8 + n) as u8)]
                    &&& final(self)@.stack_size == old(self)@.stack_size - n
                },
                Err(e) => {
                    &&& final(self)@ == old(self)@
                    &&& (n > POSTFIX_MAX <==> (e matches SyntaxError::PostfixLimit(
                        s,
                        m,
                    ) && s@ == "pop"@ && m == n))
                    &&& (n > POSTFIX_MAX || e == SyntaxError::ProgramTooLarge)
                    &&& (n <= POSTFIX_MAX ==> old(self).spec_current_pc() + 1 > CODE_MAX)
                },
            },
    {
        if n > POSTFIX_MAX {
            return Err(SyntaxError::PostfixLimit("pop", n));
        }
        self.write(&[0x00u8 + n])?;
        self.stack_size = self.stack_size - n as i64;
        Ok(())
    }

    /// Emit `PEEK n`: push a copy of the stack element at depth `n`. Fails
    /// with the postfix-limit error exactly when `n` exceeds `POSTFIX_MAX`.
    pub fn peek(&mut self, n: u8) -> (r: Result<(), SyntaxError>)
        requires
            old(self).wf(),
        ensures
            final(self).wf(),
            final(self)@.offset == old(self)@.offset,
            match r {
                Ok(()) => {
                    &&& n <= POSTFIX_MAX
                    &&& final(self)@.code == old(self)@.code + seq![((0x20u8 + n) as u8)]
                    &&& final(self)@.stack_size == old(self)@.stack_size + 1
                },
                Err(e) => {
                    &&& final(self)@ == old(self)@
                    &&& (n > POSTFIX_MAX <==> (e matches SyntaxError::PostfixLimit(
                        s,
                        m,
                    ) && s@ == "peek"@ && m == n))
                    &&& (n > POSTFIX_MAX || e == SyntaxError::ProgramTooLarge)
                    &&& (n <= POSTFIX_MAX ==> old(self).spec_current_pc() + 1 > CODE_MAX)
                },
            },
    {
        if n > POSTFIX_MAX {
            return Err(SyntaxError::PostfixLimit("peek", n));
        }
        self.write(&[0x20u8 + n])?;
        self.stack_size = self.stack_size + 1;
        Ok(())
    }

    /// Emit `SWAP n`: exchange the stack top with the element at depth `n`.
    /// Fails with the postfix-limit error exactly when `n` exceeds
    /// `POSTFIX_MAX`.
    pub fn swap(&mut self, n: u8) -> (r: Result<(), SyntaxError>)
        requires
            old(self).wf(),
        ensures
            final(self).wf(),
            final(self)@.offset == old(self)@.offset,
            final(self)@.stack_size == old(self)@.stack_size,
            match r {
                Ok(()) => {
                    &&& n <= POSTFIX_MAX
                    &&& final(self)@.code == old(self)@.code + seq![((0x90u8 + n) as u8)]
                },
                Err(e) => {
                    &&& final(self)@ == old(self)@
                    &&& (n > POSTFIX_MAX <==> (e matches SyntaxError::PostfixLimit(
                        s,
                        m,
                    ) && s@ == "swap"@ && m == n))
                    &&& (n > POSTFIX_MAX || e == SyntaxError::ProgramTooLarge)
                    &&& (n <= POSTFIX_MAX ==> old(self).spec_current_pc() + 1 > CODE_MAX)
                },
            },
    {
        if n > POSTFIX_MAX {
            return Err(SyntaxError::PostfixLimit("swap", n));
        }
        self.write(&[0x90u8 + n])
    }

    /// Adjust the static stack counter without emitting code. This lets a
    /// fragment (a branch arm) declare that it intentionally leaves `n`
    /// fewer values than its instructions account for. Fails when the
    /// adjusted counter would fall outside what any code of legal size
    /// could produce.
    pub fn leave_on_stack(&mut self, n: i32) -> (r: Result<(), SyntaxError>)
        requires
            old(self).wf(),
        ensures
            final(self).wf(),
            final(self)@.offset == old(self)@.offset,
            final(self)@.code == old(self)@.code,
            match r {
                Ok(()) => {
                    &&& final(self)@.stack_size == old(self)@.stack_size - n
                    &&& -(POSTFIX_MAX as int) * old(self).spec_current_pc() <= old(
                        self,
                    )@.stack_size - n <= (POSTFIX_MAX as int) * old(self).spec_current_pc()
                },
                Err(e) => {
                    &&& e == SyntaxError::StackSizeOutOfRange
                    &&& final(self)@ == old(self)@
                    &&& !(-(POSTFIX_MAX as int) * old(self).spec_current_pc() <= old(
                        self,
                    )@.stack_size - n <= (POSTFIX_MAX as int) * old(self).spec_current_pc())
                },
            },
    {
        let bound: i64 = (POSTFIX_MAX as i64) * ((self.offset + self.code.len()) as i64);
        let adjusted: i64 = self.stack_size - (n as i64);
        if adjusted < -bound || adjusted > bound {
            return Err(SyntaxError::StackSizeOutOfRange);
        }
        self.stack_size = adjusted;
        Ok(())
    }

    /// Emit `UNARY u`: pop one word, apply the operation, push the result.
    pub fn unary(&mut self, u: Unary) -> (r: Result<(), SyntaxError>)
        requires
            old(self).wf(),
        ensures
            final(self).wf(),
            final(self)@.offset == old(self)@.offset,
            final(self)@.stack_size == old(self)@.stack_size,
            match r {
                Ok(()) => final(self)@.code == old(self)@.code + seq![
                    ((0x70u8 + u.spec_code()) as u8),
                ],
                Err(e) => {
                    &&& e == SyntaxError::ProgramTooLarge
                    &&& old(self).spec_current_pc() + 1 > CODE_MAX
                    &&& final(self)@ == old(self)@
                },
            },
    {
        let b: u8 = 0x70u8 + u.code();
        self.write(&[b])
    }

    /// Emit `BINARY u`: pop two words, apply the operation, push the result.
    pub fn binary(&mut self, u: Binary) -> (r: Result<(), SyntaxError>)
        requires
            old(self).wf(),
        ensures
            final(self).wf(),
            final(self)@.offset == old(self)@.offset,
            match r {
                Ok(()) => {
                    &&& final(self)@.code == old(self)@.code + seq![((0x80u8 + u.spec_code()) as u8)]
                    &&& final(self)@.stack_size == old(self)@.stack_size - 1
                },
                Err(e) => {
                    &&& e == SyntaxError::ProgramTooLarge
                    &&& old(self).spec_current_pc() + 1 > CODE_MAX
                    &&& final(self)@ == old(self)@
                },
            },
    {
        let b: u8 = 0x80u8 + u.code();
        self.write(&[b])?;
        self.stack_size = self.stack_size - 1;
        Ok(())
    }

    /// Emit `SPECIAL u`. `DUMP` asks the host to print the stack and leaves
    /// it unchanged; `TWOBYTE` is reserved and fails when executed.
    pub fn special(&mut self, u: Special) -> (r: Result<(), SyntaxError>)
        requires
            old(self).wf(),
        ensures
            final(self).wf(),
            final(self)@.offset == old(self)@.offset,
            final(self)@.stack_size == old(self)@.stack_size,
            match r {
                Ok(()) => final(self)@.code == old(self)@.code + seq![
                    ((0xF0u8 + u.spec_code()) as u8),
                ],
                Err(e) => {
                    &&& e == SyntaxError::ProgramTooLarge
                    &&& old(self).spec_current_pc() + 1 > CODE_MAX
                    &&& final(self)@ == old(self)@
                },
            },
    {
        let b: u8 = 0xF0u8 + u.code();
        self.write(&[b])
    }

    /// Emit `USER u`: a host call; the stack counter moves by the call's
    /// fixed delta.
    pub fn user(&mut self, u: UserCommand) -> (r: Result<(), SyntaxError>)
        requires
            old(self).wf(),
        ensures
            final(self).wf(),
            final(self)@.offset == old(self)@.offset,
            match r {
                Ok(()) => {
                    &&& final(self)@.code == old(self)@.code + seq![((0xE0u8 + u.spec_code()) as u8)]
                    &&& final(self)@.stack_size == old(self)@.stack_size + u.spec_stack_delta()
                },
                Err(e) => {
                    &&& e == SyntaxError::ProgramTooLarge
                    &&& old(self).spec_current_pc() + 1 > CODE_MAX
                    &&& final(self)@ == old(self)@
                },
            },
    {
        let delta: i64 = match u {
            UserCommand::GET_LENGTH => 1,
            UserCommand::GET_PRECISE_TIME => 1,
            UserCommand::GET_WALL_TIME => 1,
            UserCommand::BLIT => 0,
            UserCommand::SET_PIXEL => -1,
            UserCommand::RANDOM_INT => 0,
            UserCommand::GET_PIXEL => 0,
        };
        let b: u8 = 0xE0u8 + u.code();
        self.write(&[b])?;
        self.stack_size = self.stack_size + delta;
        Ok(())
    }

    /// Emit the shortest push of a constant word (see `spec_push_encoding`).
    pub fn push(&mut self, b: u32) -> (r: Result<(), SyntaxError>)
        requires
            old(self).wf(),
        ensures
            final(self).wf(),
            final(self)@.offset == old(self)@.offset,
            match r {
                Ok(()) => {
                    &&& final(self)@.code == old(self)@.code + spec_push_encoding(b)
                    &&& final(self)@.stack_size == old(self)@.stack_size + 1
                },
                Err(e) => {
                    &&& e == SyntaxError::ProgramTooLarge
                    &&& old(self).spec_current_pc() + spec_push_encoding(b).len() > CODE_MAX
                    &&& final(self)@ == old(self)@
                },
            },
    {
        if b == 0 {
            self.write(&[0x10u8])?;
        } else if b <= 0xFF {
            self.write(&[0x11u8, b as u8])?;
        } else {
            self.write(
                &[
                    0x31u8,
                    (b % 256) as u8,
                    ((b / 256) % 256) as u8,
                    ((b / 65536) % 256) as u8,
                    ((b / 16777216) % 256) as u8,
                ],
            )?;
        }
        self.stack_size = self.stack_size + 1;
        Ok(())
    }

    /// Emit `UNARY INC`.
    pub fn inc(&mut self) -> (r: Result<(), SyntaxError>)
        requires
            old(self).wf(),
        ensures
            final(self).wf(),
            final(self)@.offset == old(self)@.offset,
            final(self)@.stack_size == old(self)@.stack_size,
            match r {
                Ok(()) => final(self)@.code == old(self)@.code + seq![0x70u8],
                Err(e) => e == SyntaxError::ProgramTooLarge && final(self)@ == old(self)@
                    && old(self).spec_current_pc() + 1 > CODE_MAX,
            },
    {
        self.unary(Unary::INC)
    }

    /// Emit `UNARY DEC`.
    pub fn dec(&mut self) -> (r: Result<(), SyntaxError>)
        requires
            old(self).wf(),
        ensures
            final(self).wf(),
            final(self)@.offset == old(self)@.offset,
            final(self)@.stack_size == old(self)@.stack_size,
            match r {
                Ok(()) => final(self)@.code == old(self)@.code + seq![0x71u8],
                Err(e) => e == SyntaxError::ProgramTooLarge && final(self)@ == old(self)@
                    && old(self).spec_current_pc() + 1 > CODE_MAX,
            },
    {
        self.unary(Unary::DEC)
    }

    /// Emit `UNARY NOT`.
    pub fn not(&mut self) -> (r: Result<(), SyntaxError>)
        requires
            old(self).wf(),
        ensures
            final(self).wf(),
            final(self)@.offset == old(self)@.offset,
            final(self)@.stack_size == old(self)@.stack_size,
            match r {
                Ok(()) => final(self)@.code == old(self)@.code + seq![0x72u8],
                Err(e) => e == SyntaxError::ProgramTooLarge && final(self)@ == old(self)@
                    && old(self).spec_current_pc() + 1 > CODE_MAX,
            },
    {
        self.unary(Unary::NOT)
    }

    /// Emit `UNARY NEG`.
    pub fn neg(&mut self) -> (r: Result<(), SyntaxError>)
        requires
            old(self).wf(),
        ensures
            final(self).wf(),
            final(self)@.offset == old(self)@.offset,
            final(self)@.stack_size == old(self)@.stack_size,
            match r {
                Ok(()) => final(self)@.code == old(self)@.code + seq![0x73u8],
                Err(e) => e == SyntaxError::ProgramTooLarge && final(self)@ == old(self)@
                    && old(self).spec_current_pc() + 1 > CODE_MAX,
            },
    {
        self.unary(Unary::NEG)
    }

    /// Emit `BINARY ADD`.
    pub fn add(&mut self) -> (r: Result<(), SyntaxError>)
        requires
            old(self).wf(),
        ensures
            final(self).wf(),
            final(self)@.offset == old(self)@.offset,
            match r {
                Ok(()) => final(self)@.code == old(self)@.code + seq![0x80u8] && final(self)@.stack_size == old(self)@.stack_size - 1,
                Err(e) => e == SyntaxError::ProgramTooLarge && final(self)@ == old(self)@
                    && old(self).spec_current_pc() + 1 > CODE_MAX,
            },
    {
        self.binary(Binary::ADD)
    }

    /// Emit `BINARY AND`.
    pub fn and(&mut self) -> (r: Result<(), SyntaxError>)
        requires
            old(self).wf(),
        ensures
            final(self).wf(),
            final(self)@.offset == old(self)@.offset,
            match r {
                Ok(()) => final(self)@.code == old(self)@.code + seq![0x85u8] && final(self)@.stack_size == old(self)@.stack_size - 1,
                Err(e) => e == SyntaxError::ProgramTooLarge && final(self)@ == old(self)@
                    && old(self).spec_current_pc() + 1 > CODE_MAX,
            },
    {
        self.binary(Binary::AND)
    }

    /// Emit `BINARY DIV`.
    pub fn div(&mut self) -> (r: Result<(), SyntaxError>)
        requires
            old(self).wf(),
        ensures
            final(self).wf(),
            final(self)@.offset == old(self)@.offset,
            match r {
                Ok(()) => final(self)@.code == old(self)@.code + seq![0x82u8] && final(self)@.stack_size == old(self)@.stack_size - 1,
                Err(e) => e == SyntaxError::ProgramTooLarge && final(self)@ == old(self)@
                    && old(self).spec_current_pc() + 1 > CODE_MAX,
            },
    {
        self.binary(Binary::DIV)
    }

    /// Emit `BINARY GT`.
    pub fn gt(&mut self) -> (r: Result<(), SyntaxError>)
        requires
            old(self).wf(),
        ensures
            final(self).wf(),
            final(self)@.offset == old(self)@.offset,
            match r {
                Ok(()) => final(self)@.code == old(self)@.code + seq![0x88u8] && final(self)@.stack_size == old(self)@.stack_size - 1,
                Err(e) => e == SyntaxError::ProgramTooLarge && final(self)@ == old(self)@
                    && old(self).spec_current_pc() + 1 > CODE_MAX,
            },
    {
        self.binary(Binary::GT)
    }

    /// Emit `BINARY GTE`.
    pub fn gte(&mut self) -> (r: Result<(), SyntaxError>)
        requires
            old(self).wf(),
        ensures
            final(self).wf(),
            final(self)@.offset == old(self)@.offset,
            match r {
                Ok(()) => final(self)@.code == old(self)@.code + seq![0x89u8] && final(self)@.stack_size == old(self)@.stack_size - 1,
                Err(e) => e == SyntaxError::ProgramTooLarge && final(self)@ == old(self)@
                    && old(self).spec_current_pc() + 1 > CODE_MAX,
            },
    {
        self.binary(Binary::GTE)
    }

    /// Emit `BINARY LT`.
    pub fn lt(&mut self) -> (r: Result<(), SyntaxError>)
        requires
            old(self).wf(),
        ensures
            final(self).wf(),
            final(self)@.offset == old(self)@.offset,
            match r {
                Ok(()) => final(self)@.code == old(self)@.code + seq![0x8Au8] && final(self)@.stack_size == old(self)@.stack_size - 1,
                Err(e) => e == SyntaxError::ProgramTooLarge && final(self)@ == old(self)@
                    && old(self).spec_current_pc() + 1 > CODE_MAX,
            },
    {
        self.binary(Binary::LT)
    }

    /// Emit `BINARY LTE`.
    pub fn lte(&mut self) -> (r: Result<(), SyntaxError>)
        requires
            old(self).wf(),
        ensures
            final(self).wf(),
            final(self)@.offset == old(self)@.offset,
            match r {
                Ok(()) => final(self)@.code == old(self)@.code + seq![0x8Bu8] && final(self)@.stack_size == old(self)@.stack_size - 1,
                Err(e) => e == SyntaxError::ProgramTooLarge && final(self)@ == old(self)@
                    && old(self).spec_current_pc() + 1 > CODE_MAX,
            },
    {
        self.binary(Binary::LTE)
    }

    /// Emit `BINARY MOD`.
    pub fn modulo(&mut self) -> (r: Result<(), SyntaxError>)
        requires
            old(self).wf(),
        ensures
            final(self).wf(),
            final(self)@.offset == old(self)@.offset,
            match r {
                Ok(()) => final(self)@.code == old(self)@.code + seq![0x84u8] && final(self)@.stack_size == old(self)@.stack_size - 1,
                Err(e) => e == SyntaxError::ProgramTooLarge && final(self)@ == old(self)@
                    && old(self).spec_current_pc() + 1 > CODE_MAX,
            },
    {
        self.binary(Binary::MOD)
    }

    /// Emit `BINARY MUL`.
    pub fn mul(&mut self) -> (r: Result<(), SyntaxError>)
        requires
            old(self).wf(),
        ensures
            final(self).wf(),
            final(self)@.offset == old(self)@.offset,
            match r {
                Ok(()) => final(self)@.code == old(self)@.code + seq![0x83u8] && final(self)@.stack_size == old(self)@.stack_size - 1,
                Err(e) => e == SyntaxError::ProgramTooLarge && final(self)@ == old(self)@
                    && old(self).spec_current_pc() + 1 > CODE_MAX,
            },
    {
        self.binary(Binary::MUL)
    }

    /// Emit `BINARY OR`.
    pub fn or(&mut self) -> (r: Result<(), SyntaxError>)
        requires
            old(self).wf(),
        ensures
            final(self).wf(),
            final(self)@.offset == old(self)@.offset,
            match r {
                Ok(()) => final(self)@.code == old(self)@.code + seq![0x86u8] && final(self)@.stack_size == old(self)@.stack_size - 1,
                Err(e) => e == SyntaxError::ProgramTooLarge && final(self)@ == old(self)@
                    && old(self).spec_current_pc() + 1 > CODE_MAX,
            },
    {
        self.binary(Binary::OR)
    }

    /// Emit `BINARY SUB`.
    pub fn sub(&mut self) -> (r: Result<(), SyntaxError>)
        requires
            old(self).wf(),
        ensures
            final(self).wf(),
            final(self)@.offset == old(self)@.offset,
            match r {
                Ok(()) => final(self)@.code == old(self)@.code + seq![0x81u8] && final(self)@.stack_size == old(self)@.stack_size - 1,
                Err(e) => e == SyntaxError::ProgramTooLarge && final(self)@ == old(self)@
                    && old(self).spec_current_pc() + 1 > CODE_MAX,
            },
    {
        self.binary(Binary::SUB)
    }

    /// Emit `BINARY XOR`.
    pub fn xor(&mut self) -> (r: Result<(), SyntaxError>)
        requires
            old(self).wf(),
        ensures
            final(self).wf(),
            final(self)@.offset == old(self)@.offset,
            match r {
                Ok(()) => final(self)@.code == old(self)@.code + seq![0x87u8] && final(self)@.stack_size == old(self)@.stack_size - 1,
                Err(e) => e == SyntaxError::ProgramTooLarge && final(self)@ == old(self)@
                    && old(self).spec_current_pc() + 1 > CODE_MAX,
            },
    {
        self.binary(Binary::XOR)
    }

    /// Emit `SPECIAL DUMP`: ask the host to print the stack.
    pub fn dump(&mut self) -> (r: Result<(), SyntaxError>)
        requires
            old(self).wf(),
        ensures
            final(self).wf(),
            final(self)@.offset == old(self)@.offset,
            final(self)@.stack_size == old(self)@.stack_size,
            match r {
                Ok(()) => final(self)@.code == old(self)@.code + seq![0xF1u8],
                Err(e) => e == SyntaxError::ProgramTooLarge && final(self)@ == old(self)@
                    && old(self).spec_current_pc() + 1 > CODE_MAX,
            },
    {
        self.special(Special::DUMP)
    }

    /// Emit `PEEK 0`: duplicate the stack top.
    pub fn dup(&mut self) -> (r: Result<(), SyntaxError>)
        requires
            old(self).wf(),
        ensures
            final(self).wf(),
            final(self)@.offset == old(self)@.offset,
            match r {
                Ok(()) => final(self)@.code == old(self)@.code + seq![0x20u8] && final(self)@.stack_size == old(self)@.stack_size + 1,
                Err(e) => e == SyntaxError::ProgramTooLarge && final(self)@ == old(self)@
                    && old(self).spec_current_pc() + 1 > CODE_MAX,
            },
    {
        self.peek(0)
    }

    /// Emit `USER set_pixel`.
    pub fn set_pixel(&mut self) -> (r: Result<(), SyntaxError>)
        requires
            old(self).wf(),
        ensures
            final(self).wf(),
            final(self)@.offset == old(self)@.offset,
            match r {
                Ok(()) => final(self)@.code == old(self)@.code + seq![0xE3u8] && final(self)@.stack_size == old(self)@.stack_size - 1,
                Err(e) => e == SyntaxError::ProgramTooLarge && final(self)@ == old(self)@
                    && old(self).spec_current_pc() + 1 > CODE_MAX,
            },
    {
        self.user(UserCommand::SET_PIXEL)
    }

    /// Emit `USER blit`.
    pub fn blit(&mut self) -> (r: Result<(), SyntaxError>)
        requires
            old(self).wf(),
        ensures
            final(self).wf(),
            final(self)@.offset == old(self)@.offset,
            final(self)@.stack_size == old(self)@.stack_size,
            match r {
                Ok(()) => final(self)@.code == old(self)@.code + seq![0xE4u8],
                Err(e) => e == SyntaxError::ProgramTooLarge && final(self)@ == old(self)@
                    && old(self).spec_current_pc() + 1 > CODE_MAX,
            },
    {
        self.user(UserCommand::BLIT)
    }

    /// Emit `USER get_length`.
    pub fn get_length(&mut self) -> (r: Result<(), SyntaxError>)
        requires
            old(self).wf(),
        ensures
            final(self).wf(),
            final(self)@.offset == old(self)@.offset,
            match r {
                Ok(()) => final(self)@.code == old(self)@.code + seq![0xE0u8] && final(self)@.stack_size == old(self)@.stack_size + 1,
                Err(e) => e == SyntaxError::ProgramTooLarge && final(self)@ == old(self)@
                    && old(self).spec_current_pc() + 1 > CODE_MAX,
            },
    {
        self.user(UserCommand::GET_LENGTH)
    }

    /// Emit `USER get_precise_time`.
    pub fn get_precise_time(&mut self) -> (r: Result<(), SyntaxError>)
        requires
            old(self).wf(),
        ensures
            final(self).wf(),
            final(self)@.offset == old(self)@.offset,
            match r {
                Ok(()) => final(self)@.code == old(self)@.code + seq![0xE2u8] && final(self)@.stack_size == old(self)@.stack_size + 1,
                Err(e) => e == SyntaxError::ProgramTooLarge && final(self)@ == old(self)@
                    && old(self).spec_current_pc() + 1 > CODE_MAX,
            },
    {
        self.user(UserCommand::GET_PRECISE_TIME)
    }

    /// Emit `USER get_wall_time`.
    pub fn get_wall_time(&mut self) -> (r: Result<(), SyntaxError>)
        requires
            old(self).wf(),
        ensures
            final(self).wf(),
            final(self)@.offset == old(self)@.offset,
            match r {
                Ok(()) => final(self)@.code == old(self)@.code + seq![0xE1u8] && final(self)@.stack_size == old(self)@.stack_size + 1,
                Err(e) => e == SyntaxError::ProgramTooLarge && final(self)@ == old(self)@
                    && old(self).spec_current_pc() + 1 > CODE_MAX,
            },
    {
        self.user(UserCommand::GET_WALL_TIME)
    }

    /// An empty fragment positioned where the body of a branch (`if_zero`,
    /// `if_not_zero`) or of a counted loop (`repeat`) will land: past the
    /// three-byte jump header those forms emit first. Fails when not even
    /// the header fits.
    pub fn branch_fragment(&self) -> (r: Result<Program, SyntaxError>)
        requires
            self.wf(),
        ensures
            match r {
                Ok(f) => {
                    &&& f@.code == Seq::<u8>::empty()
                    &&& f@.stack_size == 0
                    &&& f@.offset == self.spec_current_pc() + 3
                    &&& f.wf()
                    &&& self.spec_current_pc() + 3 <= CODE_MAX
                },
                Err(e) => {
                    &&& e == SyntaxError::ProgramTooLarge
                    &&& self.spec_current_pc() + 3 > CODE_MAX
                },
            },
    {
        if self.offset + self.code.len() + 3 > CODE_MAX {
            return Err(SyntaxError::ProgramTooLarge);
        }
        Ok(Program { code: Vec::new(), stack_size: 0, offset: self.offset + self.code.len() + 3 })
    }

    /// An empty fragment positioned where the body of `repeat_forever`
    /// will land: right at the current address, since that form emits no
    /// header before the body.
    pub fn loop_fragment(&self) -> (f: Program)
        requires
            self.wf(),
        ensures
            f@.code == Seq::<u8>::empty(),
            f@.stack_size == 0,
            f@.offset == self.spec_current_pc(),
            f.wf(),
    {
        Program { code: Vec::new(), stack_size: 0, offset: self.offset + self.code.len() }
    }

    /// Emit a conditional skip over `fragment`: a three-byte jump header
    /// whose target is the first address past the fragment, then the
    /// fragment's code. The fragment must be balanced: a nonzero net stack
    /// delta fails, and nothing is emitted.
    fn skip(&mut self, prefix: Prefix, label: &'static str, fragment: Program) -> (r: Result<
        (),
        SyntaxError,
    >)
        requires
            old(self).wf(),
            fragment.wf(),
            fragment@.offset == old(self).spec_current_pc() + 3,
        ensures
            final(self).wf(),
            final(self)@.offset == old(self)@.offset,
            final(self)@.stack_size == old(self)@.stack_size,
            match r {
                Ok(()) => {
                    &&& fragment@.stack_size == 0
                    &&& final(self)@.code == old(self)@.code + seq![prefix.spec_byte()]
                        + spec_addr_bytes(
                        old(self).spec_current_pc() + 3 + fragment@.code.len(),
                    ) + fragment@.code
                },
                Err(e) => {
                    &&& fragment@.stack_size != 0
                    &&& (e matches SyntaxError::FragmentCannotModifyStackSize(s) && s@ == label@)
                    &&& final(self)@ == old(self)@
                },
            },
    {
        if fragment.stack_size != 0 {
            return Err(SyntaxError::FragmentCannotModifyStackSize(label));
        }
        let end_address: usize = self.offset + self.code.len() + 3 + fragment.code.len();
        let header: [u8; 3] = [prefix.byte(), (end_address % 256) as u8, (end_address / 256) as u8];
        self.write(&header)?;
        self.write(fragment.code.as_slice())?;
        Ok(())
    }

    /// Emit code that runs `fragment` only when the stack top is zero
    /// (a `JNZ` past it). The tested value is not consumed.
    pub fn if_zero(&mut self, fragment: Program) -> (r: Result<(), SyntaxError>)
        requires
            old(self).wf(),
            fragment.wf(),
            fragment@.offset == old(self).spec_current_pc() + 3,
        ensures
            final(self).wf(),
            final(self)@.offset == old(self)@.offset,
            final(self)@.stack_size == old(self)@.stack_size,
            match r {
                Ok(()) => {
                    &&& fragment@.stack_size == 0
                    &&& final(self)@.code == old(self)@.code + seq![0x60u8] + spec_addr_bytes(
                        old(self).spec_current_pc() + 3 + fragment@.code.len(),
                    ) + fragment@.code
                },
                Err(e) => {
                    &&& fragment@.stack_size != 0
                    &&& (e matches SyntaxError::FragmentCannotModifyStackSize(s) && s@ == "branch"@)
                    &&& final(self)@ == old(self)@
                },
            },
    {
        self.skip(Prefix::JNZ, "branch", fragment)
    }

    /// Emit code that runs `fragment` only when the stack top is nonzero
    /// (a `JZ` past it). The tested value is not consumed.
    pub fn if_not_zero(&mut self, fragment: Program) -> (r: Result<(), SyntaxError>)
        requires
            old(self).wf(),
            fragment.wf(),
            fragment@.offset == old(self).spec_current_pc() + 3,
        ensures
            final(self).wf(),
            final(self)@.offset == old(self)@.offset,
            final(self)@.stack_size == old(self)@.stack_size,
            match r {
                Ok(()) => {
                    &&& fragment@.stack_size == 0
                    &&& final(self)@.code == old(self)@.code + seq![0x50u8] + spec_addr_bytes(
                        old(self).spec_current_pc() + 3 + fragment@.code.len(),
                    ) + fragment@.code
                },
                Err(e) => {
                    &&& fragment@.stack_size != 0
                    &&& (e matches SyntaxError::FragmentCannotModifyStackSize(s) && s@ == "branch"@)
                    &&& final(self)@ == old(self)@
                },
            },
    {
        self.skip(Prefix::JZ, "branch", fragment)
    }

    /// Emit an endless loop: the fragment's code followed by a `JMP` back
    /// to its start. The fragment must be balanced.
    pub fn repeat_forever(&mut self, fragment: Program) -> (r: Result<(), SyntaxError>)
        requires
            old(self).wf(),
            fragment.wf(),
            fragment@.offset == old(self).spec_current_pc(),
        ensures
            final(self).wf(),
            final(self)@.offset == old(self)@.offset,
            final(self)@.stack_size == old(self)@.stack_size,
            match r {
                Ok(()) => {
                    &&& fragment@.stack_size == 0
                    &&& old(self).spec_current_pc() + fragment@.code.len() + 3 <= CODE_MAX
                    &&& final(self)@.code == old(self)@.code + fragment@.code + seq![0x40u8]
                        + spec_addr_bytes(old(self).spec_current_pc())
                },
                Err(e) => {
                    &&& final(self)@ == old(self)@
                    &&& (fragment@.stack_size != 0 <==> (
                    e matches SyntaxError::FragmentCannotModifyStackSize(s) && s@
                        == "forever loop"@))
                    &&& (fragment@.stack_size != 0 || e == SyntaxError::ProgramTooLarge)
                    &&& (fragment@.stack_size == 0 ==> old(self).spec_current_pc()
                        + fragment@.code.len() + 3 > CODE_MAX)
                },
            },
    {
        if fragment.stack_size != 0 {
            return Err(SyntaxError::FragmentCannotModifyStackSize("forever loop"));
        }
        if self.offset + self.code.len() + fragment.code.len() + 3 > CODE_MAX {
            return Err(SyntaxError::ProgramTooLarge);
        }
        let start: usize = self.offset + self.code.len();
        self.write(fragment.code.as_slice())?;
        let back: [u8; 3] = [0x40u8, (start % 256) as u8, (start / 256) as u8];
        self.write(&back)?;
        Ok(())
    }

    /// Emit a counted loop over a counter already on the stack: a `JZ`
    /// past the whole form, the fragment's code, a `DEC` of the counter,
    /// and a `JMP` back to the test. The body runs once per count while
    /// the counter is nonzero; the counter stays on the stack afterwards.
    /// The fragment must be balanced.
    pub fn repeat(&mut self, fragment: Program) -> (r: Result<(), SyntaxError>)
        requires
            old(self).wf(),
            fragment.wf(),
            fragment@.offset == old(self).spec_current_pc() + 3,
        ensures
            final(self).wf(),
            final(self)@.offset == old(self)@.offset,
            final(self)@.stack_size == old(self)@.stack_size,
            match r {
                Ok(()) => {
                    &&& fragment@.stack_size == 0
                    &&& old(self).spec_current_pc() + fragment@.code.len() + 7 <= CODE_MAX
                    &&& final(self)@.code == old(self)@.code + seq![0x50u8] + spec_addr_bytes(
                        old(self).spec_current_pc() + fragment@.code.len() + 7,
                    ) + fragment@.code + seq![0x71u8] + seq![0x40u8] + spec_addr_bytes(
                        old(self).spec_current_pc(),
                    )
                },
                Err(e) => {
                    &&& final(self)@ == old(self)@
                    &&& (fragment@.stack_size != 0 <==> (
                    e matches SyntaxError::FragmentCannotModifyStackSize(s) && s@ == "for loop"@))
                    &&& (fragment@.stack_size != 0 || e == SyntaxError::ProgramTooLarge)
                    &&& (fragment@.stack_size == 0 ==> old(self).spec_current_pc()
                        + fragment@.code.len() + 7 > CODE_MAX)
                },
            },
    {
        if fragment.stack_size != 0 {
            return Err(SyntaxError::FragmentCannotModifyStackSize("for loop"));
        }
        if self.offset + self.code.len() + fragment.code.len() + 7 > CODE_MAX {
            return Err(SyntaxError::ProgramTooLarge);
        }
        let start: usize = self.offset + self.code.len();
        let end: usize = start + 3 + fragment.code.len() + 1 + 3;
        let header: [u8; 3] = [0x50u8, (end % 256) as u8, (end / 256) as u8];
        self.write(&header)?;
        self.write(fragment.code.as_slice())?;
        self.write(&[0x71u8])?;
        let back: [u8; 3] = [0x40u8, (start % 256) as u8, (start / 256) as u8];
        self.write(&back)?;
        Ok(())
    }

    /// An empty fragment positioned where the body of
    /// `repeat_times(times, ..)` will land: past the push of the counter
    /// and the three-byte loop header.
    pub fn repeat_times_fragment(&self, times: u32) -> (r: Result<Program, SyntaxError>)
        requires
            self.wf(),
        ensures
            match r {
                Ok(f) => {
                    &&& f@.code == Seq::<u8>::empty()
                    &&& f@.stack_size == 0
                    &&& f@.offset == self.spec_current_pc() + spec_push_encoding(times).len() + 3
                    &&& f.wf()
                },
                Err(e) => {
                    &&& e == SyntaxError::ProgramTooLarge
                    &&& self.spec_current_pc() + spec_push_encoding(times).len() + 3 > CODE_MAX
                },
            },
    {
        let push_len: usize = if times == 0 {
            1
        } else if times <= 0xFF {
            2
        } else {
            5
        };
        if self.offset + self.code.len() + push_len + 3 > CODE_MAX {
            return Err(SyntaxError::ProgramTooLarge);
        }
        Ok(
            Program {
                code: Vec::new(),
                stack_size: 0,
                offset: self.offset + self.code.len() + push_len + 3,
            },
        )
    }

    /// Emit a loop that runs `fragment` exactly `times` times: push the
    /// count, `repeat` over it, then pop the spent counter. The fragment
    /// must come from `repeat_times_fragment(times)` called at the same
    /// position.
    pub fn repeat_times(&mut self, times: u32, fragment: Program) -> (r: Result<(), SyntaxError>)
        requires
            old(self).wf(),
            fragment.wf(),
            fragment@.offset == old(self).spec_current_pc() + spec_push_encoding(times).len() + 3,
        ensures
            final(self).wf(),
            final(self)@.offset == old(self)@.offset,
            match r {
                Ok(()) => {
                    &&& fragment@.stack_size == 0
                    &&& final(self)@.stack_size == old(self)@.stack_size
                    &&& final(self)@.code == old(self)@.code + spec_push_encoding(times)
                        + seq![0x50u8] + spec_addr_bytes(
                        old(self).spec_current_pc() + spec_push_encoding(times).len()
                            + fragment@.code.len() + 7,
                    ) + fragment@.code + seq![0x71u8] + seq![0x40u8] + spec_addr_bytes(
                        old(self).spec_current_pc() + spec_push_encoding(times).len(),
                    ) + seq![0x01u8]
                },
                Err(e) => {
                    &&& (fragment@.stack_size != 0 || e == SyntaxError::ProgramTooLarge)
                    &&& (fragment@.stack_size == 0 ==> old(self).spec_current_pc()
                        + spec_push_encoding(times).len() + fragment@.code.len() + 8 > CODE_MAX)
                },
            },
    {
        self.push(times)?;
        self.repeat(fragment)?;
        self.pop(1)?;
        proof {
            assert_seqs_equal!(self@.code == old(self)@.code + spec_push_encoding(times)
                + seq![0x50u8] + spec_addr_bytes(
                old(self).spec_current_pc() + spec_push_encoding(times).len()
                    + fragment@.code.len() + 7,
            ) + fragment@.code + seq![0x71u8] + seq![0x40u8] + spec_addr_bytes(
                old(self).spec_current_pc() + spec_push_encoding(times).len(),
            ) + seq![0x01u8]);
        }
        Ok(())
    }
}

} // verus!
