//! The instruction set: opcode prefixes (the high nibble of every
//! instruction byte), the unary, binary and host-call operation selectors
//! carried in the low nibble, and the arithmetic each operation performs.
//!
//! Every instruction is one byte: the high nibble is the *prefix* (opcode
//! class), the low nibble the *postfix* (a count, small immediate, or
//! sub-opcode). All arithmetic is 32-bit unsigned with wrap-on-overflow
//! semantics; division and remainder by zero are runtime errors.

use vstd::prelude::*;

verus! {

use vstd::wrapping::u32_specs;

use crate::vm_errors::{RuntimeFault, VMError};

/// The word width of the value stack, as a modulus for wrapping arithmetic.
pub const WORD_RANGE: u64 = 0x1_0000_0000;

/// Opcode classes, one per value of the instruction byte's high nibble.
#[derive(Clone, Copy, PartialEq, Eq, Debug, Structural)]
#[allow(clippy::upper_case_acronyms)]
pub enum Prefix {
    POP,
    PUSHB,
    PEEK,
    PUSHI,
    JMP,
    JZ,
    JNZ,
    UNARY,
    BINARY,
    SWAP,
    USER,
    SPECIAL,
}

impl Prefix {
    /// The value of the high nibble that selects this prefix, placed in the
    /// high four bits of an instruction byte.
    pub open spec fn spec_byte(self) -> u8 {
        match self {
            Prefix::POP => 0x00,
            Prefix::PUSHB => 0x10,
            Prefix::PEEK => 0x20,
            Prefix::PUSHI => 0x30,
            Prefix::JMP => 0x40,
            Prefix::JZ => 0x50,
            Prefix::JNZ => 0x60,
            Prefix::UNARY => 0x70,
            Prefix::BINARY => 0x80,
            Prefix::SWAP => 0x90,
            Prefix::USER => 0xE0,
            Prefix::SPECIAL => 0xF0,
        }
    }

    /// The prefix encoded by an instruction byte, if its high nibble names one.
    pub open spec fn spec_from(code: u8) -> Option<Prefix> {
        match code / 16 {
            0x0 => Some(Prefix::POP),
            0x1 => Some(Prefix::PUSHB),
            0x2 => Some(Prefix::PEEK),
            0x3 => Some(Prefix::PUSHI),
            0x4 => Some(Prefix::JMP),
            0x5 => Some(Prefix::JZ),
            0x6 => Some(Prefix::JNZ),
            0x7 => Some(Prefix::UNARY),
            0x8 => Some(Prefix::BINARY),
            0x9 => Some(Prefix::SWAP),
            0xE => Some(Prefix::USER),
            0xF => Some(Prefix::SPECIAL),
            _ => None,
        }
    }

    /// The instruction byte whose high nibble selects this prefix and whose
    /// low nibble is zero.
    pub fn byte(self) -> (r: u8)
        ensures
            r == self.spec_byte(),
    {
        match self {
            Prefix::POP => 0x00,
            Prefix::PUSHB => 0x10,
            Prefix::PEEK => 0x20,
            Prefix::PUSHI => 0x30,
            Prefix::JMP => 0x40,
            Prefix::JZ => 0x50,
            Prefix::JNZ => 0x60,
            Prefix::UNARY => 0x70,
            Prefix::BINARY => 0x80,
            Prefix::SWAP => 0x90,
            Prefix::USER => 0xE0,
            Prefix::SPECIAL => 0xF0,
        }
    }

    /// Decode the opcode class of an instruction byte.
    pub fn from(code: u8) -> (r: Option<Prefix>)
        ensures
            r == Prefix::spec_from(code),
    {
        match code / 16 {
            0x0 => Some(Prefix::POP),
            0x1 => Some(Prefix::PUSHB),
            0x2 => Some(Prefix::PEEK),
            0x3 => Some(Prefix::PUSHI),
            0x4 => Some(Prefix::JMP),
            0x5 => Some(Prefix::JZ),
            0x6 => Some(Prefix::JNZ),
            0x7 => Some(Prefix::UNARY),
            0x8 => Some(Prefix::BINARY),
            0x9 => Some(Prefix::SWAP),
            0xE => Some(Prefix::USER),
            0xF => Some(Prefix::SPECIAL),
            _ => None,
        }
    }
}

/// Sub-opcodes of the `SPECIAL` prefix.
#[derive(Clone, Copy, PartialEq, Eq, Debug, Structural)]
#[allow(clippy::upper_case_acronyms)]
pub enum Special {
    DUMP,
    TWOBYTE,
}

impl Special {
    /// The postfix value that selects this sub-opcode.
    pub open spec fn spec_code(self) -> u8 {
        match self {
            Special::DUMP => 1,
            Special::TWOBYTE => 2,
        }
    }

    pub open spec fn spec_from(code: u8) -> Option<Special> {
        match code {
            1 => Some(Special::DUMP),
            2 => Some(Special::TWOBYTE),
            _ => None,
        }
    }

    pub fn code(self) -> (r: u8)
        ensures
            r == self.spec_code(),
    {
        match self {
            Special::DUMP => 1,
            Special::TWOBYTE => 2,
        }
    }

    pub fn from(code: u8) -> (r: Option<Special>)
        ensures
            r == Special::spec_from(code),
    {
        match code {
            1 => Some(Special::DUMP),
            2 => Some(Special::TWOBYTE),
            _ => None,
        }
    }
}

/// Unary operations of the `UNARY` prefix; each pops one word and pushes one.
#[derive(Clone, Copy, PartialEq, Eq, Debug, Structural)]
#[allow(clippy::upper_case_acronyms)]
pub enum Unary {
    INC,
    DEC,
    NOT,
    NEG,
    SHL8,
    SHR8,
}

impl Unary {
    /// The postfix value that selects this operation.
    pub open spec fn spec_code(self) -> u8 {
        match self {
            Unary::INC => 0,
            Unary::DEC => 1,
            Unary::NOT => 2,
            Unary::NEG => 3,
            Unary::SHL8 => 4,
            Unary::SHR8 => 5,
        }
    }

    pub open spec fn spec_from(code: u8) -> Option<Unary> {
        match code {
            0 => Some(Unary::INC),
            1 => Some(Unary::DEC),
            2 => Some(Unary::NOT),
            3 => Some(Unary::NEG),
            4 => Some(Unary::SHL8),
            5 => Some(Unary::SHR8),
            _ => None,
        }
    }

    /// What the operation computes: wrapping increment and decrement,
    /// bitwise complement, two's-complement negation, and shifts by one
    /// byte in either direction.
    pub open spec fn spec_apply(self, lhs: u32) -> u32 {
        match self {
            Unary::INC => u32_specs::wrapping_add(lhs, 1),
            Unary::DEC => u32_specs::wrapping_sub(lhs, 1),
            Unary::NOT => !lhs,
            Unary::NEG => u32_specs::wrapping_sub(0, lhs),
            Unary::SHL8 => lhs << 8,
            Unary::SHR8 => lhs >> 8,
        }
    }

    pub fn code(self) -> (r: u8)
        ensures
            r == self.spec_code(),
    {
        match self {
            Unary::INC => 0,
            Unary::DEC => 1,
            Unary::NOT => 2,
            Unary::NEG => 3,
            Unary::SHL8 => 4,
            Unary::SHR8 => 5,
        }
    }

    pub fn from(code: u8) -> (r: Option<Unary>)
        ensures
            r == Unary::spec_from(code),
    {
        match code {
            0 => Some(Unary::INC),
            1 => Some(Unary::DEC),
            2 => Some(Unary::NOT),
            3 => Some(Unary::NEG),
            4 => Some(Unary::SHL8),
            5 => Some(Unary::SHR8),
            _ => None,
        }
    }

    pub fn apply(self, lhs: u32) -> (r: u32)
        ensures
            r == self.spec_apply(lhs),
    {
        match self {
            Unary::INC => lhs.wrapping_add(1),
            Unary::DEC => lhs.wrapping_sub(1),
            Unary::NOT => !lhs,
            Unary::NEG => 0u32.wrapping_sub(lhs),
            Unary::SHL8 => lhs << 8u32,
            Unary::SHR8 => lhs >> 8u32,
        }
    }
}

/// Binary operations of the `BINARY` prefix; each pops two words and pushes
/// one. Comparisons produce 0 or 1.
#[derive(Clone, Copy, PartialEq, Eq, Debug, Structural)]
#[allow(clippy::upper_case_acronyms)]
pub enum Binary {
    ADD,
    SUB,
    DIV,
    MUL,
    MOD,
    AND,
    OR,
    XOR,
    GT,
    GTE,
    LT,
    LTE,
    EQ,
    NEQ,
    SHL,
    SHR,
}

impl Binary {
    /// The postfix value that selects this operation.
    pub open spec fn spec_code(self) -> u8 {
        match self {
            Binary::ADD => 0,
            Binary::SUB => 1,
            Binary::DIV => 2,
            Binary::MUL => 3,
            Binary::MOD => 4,
            Binary::AND => 5,
            Binary::OR => 6,
            Binary::XOR => 7,
            Binary::GT => 8,
            Binary::GTE => 9,
            Binary::LT => 10,
            Binary::LTE => 11,
            Binary::EQ => 12,
            Binary::NEQ => 13,
            Binary::SHL => 14,
            Binary::SHR => 15,
        }
    }

    pub open spec fn spec_from(code: u8) -> Option<Binary> {
        match code {
            0 => Some(Binary::ADD),
            1 => Some(Binary::SUB),
            2 => Some(Binary::DIV),
            3 => Some(Binary::MUL),
            4 => Some(Binary::MOD),
            5 => Some(Binary::AND),
            6 => Some(Binary::OR),
            7 => Some(Binary::XOR),
            8 => Some(Binary::GT),
            9 => Some(Binary::GTE),
            10 => Some(Binary::LT),
            11 => Some(Binary::LTE),
            12 => Some(Binary::EQ),
            13 => Some(Binary::NEQ),
            14 => Some(Binary::SHL),
            15 => Some(Binary::SHR),
            _ => None,
        }
    }

    /// What the operation computes when it is defined: wrapping arithmetic,
    /// bitwise logic, shifts whose amount is taken modulo the word width,
    /// and comparisons yielding 0 or 1. `DIV` and `MOD` are undefined
    /// (`None`) when the right-hand side is zero.
    pub open spec fn spec_apply(self, lhs: u32, rhs: u32) -> Option<u32> {
        match self {
            Binary::ADD => Some(u32_specs::wrapping_add(lhs, rhs)),
            Binary::SUB => Some(u32_specs::wrapping_sub(lhs, rhs)),
            Binary::MUL => Some(u32_specs::wrapping_mul(lhs, rhs)),
            Binary::DIV => if rhs == 0 {
                None
            } else {
                Some(lhs / rhs)
            },
            Binary::MOD => if rhs == 0 {
                None
            } else {
                Some(lhs % rhs)
            },
            Binary::AND => Some(lhs & rhs),
            Binary::OR => Some(lhs | rhs),
            Binary::XOR => Some(lhs ^ rhs),
            Binary::SHL => Some(u32_specs::wrapping_shl(lhs, rhs)),
            Binary::SHR => Some(u32_specs::wrapping_shr(lhs, rhs)),
            Binary::EQ => Some(if lhs == rhs { 1 } else { 0 }),
            Binary::NEQ => Some(if lhs != rhs { 1 } else { 0 }),
            Binary::GT => Some(if lhs > rhs { 1 } else { 0 }),
            Binary::GTE => Some(if lhs >= rhs { 1 } else { 0 }),
            Binary::LT => Some(if lhs < rhs { 1 } else { 0 }),
            Binary::LTE => Some(if lhs <= rhs { 1 } else { 0 }),
        }
    }

    pub fn code(self) -> (r: u8)
        ensures
            r == self.spec_code(),
    {
        match self {
            Binary::ADD => 0,
            Binary::SUB => 1,
            Binary::DIV => 2,
            Binary::MUL => 3,
            Binary::MOD => 4,
            Binary::AND => 5,
            Binary::OR => 6,
            Binary::XOR => 7,
            Binary::GT => 8,
            Binary::GTE => 9,
            Binary::LT => 10,
            Binary::LTE => 11,
            Binary::EQ => 12,
            Binary::NEQ => 13,
            Binary::SHL => 14,
            Binary::SHR => 15,
        }
    }

    pub fn from(code: u8) -> (r: Option<Binary>)
        ensures
            r == Binary::spec_from(code),
    {
        match code {
            0 => Some(Binary::ADD),
            1 => Some(Binary::SUB),
            2 => Some(Binary::DIV),
            3 => Some(Binary::MUL),
            4 => Some(Binary::MOD),
            5 => Some(Binary::AND),
            6 => Some(Binary::OR),
            7 => Some(Binary::XOR),
            8 => Some(Binary::GT),
            9 => Some(Binary::GTE),
            10 => Some(Binary::LT),
            11 => Some(Binary::LTE),
            12 => Some(Binary::EQ),
            13 => Some(Binary::NEQ),
            14 => Some(Binary::SHL),
            15 => Some(Binary::SHR),
            _ => None,
        }
    }

    /// Apply the operation at run time. Division or remainder by zero is the
    /// only failure, and surfaces as a runtime error.
    pub fn apply(self, lhs: u32, rhs: u32) -> (r: Result<u32, VMError>)
        ensures
            match self.spec_apply(lhs, rhs) {
                Some(v) => r == Ok::<u32, VMError>(v),
                None => r == Err::<u32, VMError>(
                    VMError::RuntimeError(RuntimeFault::DivisionByZero),
                ),
            },
    {
        match self {
            Binary::ADD => Ok(lhs.wrapping_add(rhs)),
            Binary::SUB => Ok(lhs.wrapping_sub(rhs)),
            Binary::MUL => Ok(lhs.wrapping_mul(rhs)),
            Binary::DIV => match lhs.checked_div(rhs) {
                Some(v) => Ok(v),
                None => Err(VMError::RuntimeError(RuntimeFault::DivisionByZero)),
            },
            Binary::MOD => match lhs.checked_rem(rhs) {
                Some(v) => Ok(v),
                None => Err(VMError::RuntimeError(RuntimeFault::DivisionByZero)),
            },
            Binary::AND => Ok(lhs & rhs),
            Binary::OR => Ok(lhs | rhs),
            Binary::SHL => Ok(lhs.wrapping_shl(rhs)),
            Binary::SHR => Ok(lhs.wrapping_shr(rhs)),
            Binary::XOR => Ok(lhs ^ rhs),
            Binary::EQ => Ok(if lhs == rhs { 1 } else { 0 }),
            Binary::NEQ => Ok(if lhs != rhs { 1 } else { 0 }),
            Binary::GT => Ok(if lhs > rhs { 1 } else { 0 }),
            Binary::GTE => Ok(if lhs >= rhs { 1 } else { 0 }),
            Binary::LT => Ok(if lhs < rhs { 1 } else { 0 }),
            Binary::LTE => Ok(if lhs <= rhs { 1 } else { 0 }),
        }
    }
}

/// Host calls of the `USER` prefix.
#[derive(Clone, Copy, PartialEq, Eq, Debug, Structural)]
#[allow(non_camel_case_types)]
#[allow(clippy::upper_case_acronyms)]
pub enum UserCommand {
    GET_LENGTH,
    GET_WALL_TIME,
    GET_PRECISE_TIME,
    SET_PIXEL,
    BLIT,
    RANDOM_INT,
    GET_PIXEL,
}

impl UserCommand {
    /// The postfix value that selects this host call.
    pub open spec fn spec_code(self) -> u8 {
        match self {
            UserCommand::GET_LENGTH => 0,
            UserCommand::GET_WALL_TIME => 1,
            UserCommand::GET_PRECISE_TIME => 2,
            UserCommand::SET_PIXEL => 3,
            UserCommand::BLIT => 4,
            UserCommand::RANDOM_INT => 5,
            UserCommand::GET_PIXEL => 6,
        }
    }

    pub open spec fn spec_from(code: u8) -> Option<UserCommand> {
        match code {
            0 => Some(UserCommand::GET_LENGTH),
            1 => Some(UserCommand::GET_WALL_TIME),
            2 => Some(UserCommand::GET_PRECISE_TIME),
            3 => Some(UserCommand::SET_PIXEL),
            4 => Some(UserCommand::BLIT),
            5 => Some(UserCommand::RANDOM_INT),
            6 => Some(UserCommand::GET_PIXEL),
            _ => None,
        }
    }

    /// The fixed change each host call makes to the value stack's depth.
    pub open spec fn spec_stack_delta(self) -> int {
        match self {
            UserCommand::GET_LENGTH => 1,
            UserCommand::GET_PRECISE_TIME => 1,
            UserCommand::GET_WALL_TIME => 1,
            UserCommand::BLIT => 0,
            UserCommand::SET_PIXEL => -1,
            UserCommand::RANDOM_INT => 0,
            UserCommand::GET_PIXEL => 0,
        }
    }

    pub fn code(self) -> (r: u8)
        ensures
            r == self.spec_code(),
    {
        match self {
            UserCommand::GET_LENGTH => 0,
            UserCommand::GET_WALL_TIME => 1,
            UserCommand::GET_PRECISE_TIME => 2,
            UserCommand::SET_PIXEL => 3,
            UserCommand::BLIT => 4,
            UserCommand::RANDOM_INT => 5,
            UserCommand::GET_PIXEL => 6,
        }
    }

    pub fn from(code: u8) -> (r: Option<UserCommand>)
        ensures
            r == UserCommand::spec_from(code),
    {
        match code {
            0 => Some(UserCommand::GET_LENGTH),
            1 => Some(UserCommand::GET_WALL_TIME),
            2 => Some(UserCommand::GET_PRECISE_TIME),
            3 => Some(UserCommand::SET_PIXEL),
            4 => Some(UserCommand::BLIT),
            5 => Some(UserCommand::RANDOM_INT),
            6 => Some(UserCommand::GET_PIXEL),
            _ => None,
        }
    }
}

} // verus!
