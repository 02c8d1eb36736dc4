//! A small toolchain for driving addressable LED strips: a compiler from a
//! tiny expression/statement language to a compact stack-machine bytecode,
//! and a virtual machine that executes that bytecode while producing
//! successive LED frames.

pub mod ast;
pub mod compile;
pub mod disasm;
mod host;
pub mod instructions;
pub mod parser;
pub mod program;
pub mod rng;
pub mod strip;
pub mod vm;
pub mod vm_errors;

pub use ast::{Expression, Intrinsic, Node, Scope};
pub use compile::FromSource;
pub use disasm::{Instr, InstrModel};
pub use instructions::{Binary, Prefix, Special, Unary, UserCommand};
pub use rng::{RngModel, SeededRng};
pub use strip::{DummyLedStrip, Pixel};
pub use program::{Program, SyntaxError, CODE_MAX, POSTFIX_MAX};
pub use vm::{Outcome, OutcomeModel, StepModel, VM, VMConfig, VMModel, VMState, VMStateConfig};
pub use vm_errors::{RuntimeFault, VMError};
