//! Host facilities the virtual machine leans on when it is not running in
//! deterministic mode (the wall clock), and the debug channel of the
//! `DUMP` instruction.

use vstd::prelude::*;

verus! {

/// Relies on `std::time::SystemTime::now`: the seconds since the Unix
/// epoch, wrapped to 32 bits. Nothing is promised of a clock's value.
#[verifier::external_body]
pub(crate) fn wall_seconds() -> u32 {
    match std::time::SystemTime::now().duration_since(std::time::UNIX_EPOCH) {
        Ok(d) => (d.as_secs() & 0xFFFF_FFFF) as u32,
        Err(_) => 0,
    }
}

/// Relies on `std::time::SystemTime::now`: the milliseconds since the
/// Unix epoch, wrapped to 64 bits. Nothing is promised of a clock's
/// value.
#[verifier::external_body]
pub(crate) fn wall_millis() -> u64 {
    match std::time::SystemTime::now().duration_since(std::time::UNIX_EPOCH) {
        Ok(d) => (d.as_millis() & 0xFFFF_FFFF_FFFF_FFFF) as u64,
        Err(_) => 0,
    }
}

/// Relies on `std::io::Stdout`: prints the value stack for the `DUMP`
/// instruction. The machine's state is untouched.
#[verifier::external_body]
pub(crate) fn dump_stack(stack: &Vec<u32>) {
    let mut out = std::io::stdout();
    let _ = writeln!(out, "DUMP: {:?}", stack);
}

/// Relies on `std::io::Stdout`: prints one step of a traced run. The
/// machine's state is untouched.
#[verifier::external_body]
pub(crate) fn trace_instruction(pc: usize, byte: u8) {
    let mut out = std::io::stdout();
    let _ = writeln!(out, "{:04}.\t{:02x}", pc, byte);
}

/// Relies on `std::io::Stdout`: prints a program's bytes as it is
/// mounted on a tracing machine.
#[verifier::external_body]
pub(crate) fn trace_program(code: &Vec<u8>) {
    let mut out = std::io::stdout();
    let _ = writeln!(out, "prog hex dump: {:X?}", code);
}

} // verus!

use std::io::Write;
