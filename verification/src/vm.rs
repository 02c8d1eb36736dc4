//! The stack virtual machine: a fetch-decode-execute loop over a bytecode
//! buffer, managing a value stack, a program counter, instruction
//! counters, a seeded random number generator and the pixel strip. A run
//! yields one frame per `blit`.
//!
//! The machine's semantics is written out as a spec-level small step
//! over the two words its clocks could deliver (`spec_step_with`) and a
//! bounded run over a sequence of clock readings (`spec_run_with`);
//! `VMState::run` is proved to be such a run for some readings in every
//! mode, and in deterministic mode to follow the clock-free `spec_run`
//! exactly — which is what makes deterministic runs reproducible frame
//! for frame.

use vstd::prelude::*;

verus! {

use crate::host;
use crate::instructions::{Binary, Special, Unary, UserCommand};
use crate::program::Program;
use crate::rng::{chacha_draw, RngModel, SeededRng};
use crate::strip::{DummyLedStrip, Pixel};
use crate::vm_errors::{RuntimeFault, VMError};

/// The mathematical content of a machine state.
#[verifier::ext_equal]
pub struct VMModel {
    /// The program's bytes.
    pub code: Seq<u8>,
    /// The program counter.
    pub pc: int,
    /// The value stack, top last.
    pub stack: Seq<u32>,
    /// The pixel strip.
    pub strip: Seq<Pixel>,
    /// Instructions executed since the machine started.
    pub count: int,
    /// The whole-life instruction budget, if any.
    pub global_limit: Option<int>,
    /// The per-run instruction budget, if any.
    pub local_limit: Option<int>,
    /// Whether clocks and randomness are replaced by reproducible ones.
    pub deterministic: bool,
    /// The random number generator's seed and draw history.
    pub rng: RngModel,
}

/// How a run ends.
#[verifier::ext_equal]
pub enum OutcomeModel {
    /// The program counter ran past the last byte.
    Ended,
    /// The run failed.
    Error(VMError),
    /// A frame was produced: the strip at the moment of the `blit`.
    Blit(Seq<Pixel>),
}

/// What one instruction does to the machine.
#[verifier::ext_equal]
pub enum StepModel {
    /// Execution goes on in the new state.
    Continue(VMModel),
    /// The run stops in the new state with the outcome.
    Done(VMModel, OutcomeModel),
}

/// An instruction counter's increment: counters saturate rather than
/// wrap, and no run can reach the cap.
pub open spec fn spec_inc(count: int) -> int {
    if count < usize::MAX {
        count + 1
    } else {
        count
    }
}

/// A count truncated to a 32-bit word, as the deterministic clocks
/// deliver it.
pub open spec fn spec_word32(v: int) -> u32 {
    (v % 0x1_0000_0000) as u32
}

/// Operand bytes pushed by `PUSHB`, each zero-extended to a word.
pub open spec fn spec_bytes_as_words(bs: Seq<u8>) -> Seq<u32> {
    bs.map(|i: int, b: u8| b as u32)
}

/// The color a word carries on the stack: `0x00BBGGRR`.
pub open spec fn spec_pixel_of_word(w: u32) -> Pixel {
    Pixel { r: (w % 256) as u8, g: ((w / 256) % 256) as u8, b: ((w / 65536) % 256) as u8 }
}

/// The word a pixel pushes: `0x00BBGGRR`.
pub open spec fn spec_word_of_pixel(p: Pixel) -> u32 {
    (p.r + p.g * 256 + p.b * 65536) as u32
}

/// One instruction of the machine, given the two words its clocks would
/// deliver if read: what `VMState::run` does between two budget checks.
/// Only `get_wall_time` and `get_precise_time` consult the clock words;
/// every other instruction's effect is a function of the state alone. The
/// instruction counter counts every decoded instruction, including one
/// that then fails.
pub open spec fn spec_step_with(m: VMModel, wall: u32, precise: u32) -> StepModel
    recommends
        0 <= m.pc < m.code.len(),
{
    let b = m.code[m.pc];
    let postfix = b % 16;
    let len = m.stack.len() as int;
    let m1 = VMModel { count: spec_inc(m.count), ..m };
    if b / 16 == 0x0 {
        // POP
        if postfix > len {
            StepModel::Done(m1, OutcomeModel::Error(VMError::StackUnderflow))
        } else {
            StepModel::Continue(
                VMModel { pc: m.pc + 1, stack: m.stack.take(len - postfix), ..m1 },
            )
        }
    } else if b / 16 == 0x1 {
        // PUSHB
        if postfix == 0 {
            StepModel::Continue(VMModel { pc: m.pc + 1, stack: m.stack.push(0), ..m1 })
        } else if m.pc + 1 + postfix <= m.code.len() {
            StepModel::Continue(
                VMModel {
                    pc: m.pc + 1 + postfix,
                    stack: m.stack + spec_bytes_as_words(
                        m.code.subrange(m.pc + 1, m.pc + 1 + postfix),
                    ),
                    ..m1
                },
            )
        } else {
            StepModel::Done(
                m1,
                OutcomeModel::Error(VMError::RuntimeError(RuntimeFault::CodeOverrun)),
            )
        }
    } else if b / 16 == 0x2 {
        // PEEK
        if postfix >= len {
            StepModel::Done(m1, OutcomeModel::Error(VMError::StackUnderflow))
        } else {
            StepModel::Continue(
                VMModel { pc: m.pc + 1, stack: m.stack.push(m.stack[len - 1 - postfix]), ..m1 },
            )
        }
    } else if b / 16 == 0x3 {
        // PUSHI
        if m.pc + 1 + 4 * postfix <= m.code.len() {
            StepModel::Continue(
                VMModel {
                    pc: m.pc + 1 + 4 * postfix,
                    stack: m.stack + crate::disasm::spec_words_of(
                        m.code.subrange(m.pc + 1, m.pc + 1 + 4 * postfix),
                    ),
                    ..m1
                },
            )
        } else {
            StepModel::Done(
                m1,
                OutcomeModel::Error(VMError::RuntimeError(RuntimeFault::CodeOverrun)),
            )
        }
    } else if b / 16 == 0x4 || b / 16 == 0x5 || b / 16 == 0x6 {
        // JMP, JZ, JNZ
        if m.pc + 3 > m.code.len() {
            StepModel::Done(
                m1,
                OutcomeModel::Error(VMError::RuntimeError(RuntimeFault::CodeOverrun)),
            )
        } else {
            let target = m.code[m.pc + 1] + m.code[m.pc + 2] * 256;
            if b / 16 == 0x4 {
                StepModel::Continue(VMModel { pc: target, ..m1 })
            } else if len == 0 {
                StepModel::Done(m1, OutcomeModel::Error(VMError::StackUnderflow))
            } else {
                let taken = if b / 16 == 0x5 {
                    m.stack.last() == 0
                } else {
                    m.stack.last() != 0
                };
                StepModel::Continue(
                    VMModel {
                        pc: if taken {
                            target
                        } else {
                            m.pc + 3
                        },
                        ..m1
                    },
                )
            }
        }
    } else if b / 16 == 0x7 {
        // UNARY
        match Unary::spec_from(postfix) {
            None => StepModel::Done(
                m1,
                OutcomeModel::Error(VMError::UnknownInstruction(postfix)),
            ),
            Some(op) => {
                if len == 0 {
                    StepModel::Done(m1, OutcomeModel::Error(VMError::StackUnderflow))
                } else {
                    StepModel::Continue(
                        VMModel {
                            pc: m.pc + 1,
                            stack: m.stack.update(len - 1, op.spec_apply(m.stack.last())),
                            ..m1
                        },
                    )
                }
            },
        }
    } else if b / 16 == 0x8 {
        // BINARY
        match Binary::spec_from(postfix) {
            None => StepModel::Done(
                m1,
                OutcomeModel::Error(VMError::UnknownInstruction(postfix)),
            ),
            Some(op) => {
                if len < 2 {
                    StepModel::Done(m1, OutcomeModel::Error(VMError::StackUnderflow))
                } else {
                    let rhs = m.stack[len - 1];
                    let lhs = m.stack[len - 2];
                    match op.spec_apply(lhs, rhs) {
                        Some(v) => StepModel::Continue(
                            VMModel { pc: m.pc + 1, stack: m.stack.take(len - 2).push(v), ..m1 },
                        ),
                        None => StepModel::Done(
                            VMModel { stack: m.stack.take(len - 2), ..m1 },
                            OutcomeModel::Error(
                                VMError::RuntimeError(RuntimeFault::DivisionByZero),
                            ),
                        ),
                    }
                }
            },
        }
    } else if b / 16 == 0x9 {
        // SWAP
        if postfix >= len {
            StepModel::Done(m1, OutcomeModel::Error(VMError::StackUnderflow))
        } else {
            let top = m.stack[len - 1];
            let other = m.stack[len - 1 - postfix];
            StepModel::Continue(
                VMModel {
                    pc: m.pc + 1,
                    stack: m.stack.update(len - 1, other).update(len - 1 - postfix, top),
                    ..m1
                },
            )
        }
    } else if b / 16 == 0xE {
        // USER
        match UserCommand::spec_from(postfix) {
            None => StepModel::Done(
                m1,
                OutcomeModel::Error(VMError::UnknownInstruction(postfix)),
            ),
            Some(UserCommand::GET_LENGTH) => StepModel::Continue(
                VMModel {
                    pc: m.pc + 1,
                    stack: m.stack.push(spec_word32(m.strip.len() as int)),
                    ..m1
                },
            ),
            Some(UserCommand::GET_WALL_TIME) => StepModel::Continue(
                VMModel { pc: m.pc + 1, stack: m.stack.push(wall), ..m1 },
            ),
            Some(UserCommand::GET_PRECISE_TIME) => StepModel::Continue(
                VMModel { pc: m.pc + 1, stack: m.stack.push(precise), ..m1 },
            ),
            Some(UserCommand::SET_PIXEL) => {
                if len < 2 {
                    StepModel::Done(m1, OutcomeModel::Error(VMError::StackUnderflow))
                } else {
                    let color = m.stack[len - 1];
                    let idx = m.stack[len - 2];
                    if idx >= m.strip.len() {
                        StepModel::Done(
                            VMModel { stack: m.stack.take(len - 1), ..m1 },
                            OutcomeModel::Error(
                                VMError::RuntimeError(RuntimeFault::PixelIndexOutOfRange),
                            ),
                        )
                    } else {
                        StepModel::Continue(
                            VMModel {
                                pc: m.pc + 1,
                                stack: m.stack.take(len - 1),
                                strip: m.strip.update(idx as int, spec_pixel_of_word(color)),
                                ..m1
                            },
                        )
                    }
                }
            },
            Some(UserCommand::BLIT) => StepModel::Done(
                VMModel { pc: m.pc + 1, ..m1 },
                OutcomeModel::Blit(m.strip),
            ),
            Some(UserCommand::RANDOM_INT) => {
                if len == 0 {
                    StepModel::Done(m1, OutcomeModel::Error(VMError::StackUnderflow))
                } else {
                    let bound = m.stack.last();
                    if bound == 0 {
                        StepModel::Done(
                            VMModel { stack: m.stack.take(len - 1), ..m1 },
                            OutcomeModel::Error(
                                VMError::RuntimeError(RuntimeFault::RandomRangeEmpty),
                            ),
                        )
                    } else {
                        StepModel::Continue(
                            VMModel {
                                pc: m.pc + 1,
                                stack: m.stack.take(len - 1).push(
                                    chacha_draw(m.rng.seed, m.rng.history, bound),
                                ),
                                rng: RngModel {
                                    seed: m.rng.seed,
                                    history: m.rng.history.push(bound),
                                },
                                ..m1
                            },
                        )
                    }
                }
            },
            Some(UserCommand::GET_PIXEL) => {
                if len == 0 {
                    StepModel::Done(m1, OutcomeModel::Error(VMError::StackUnderflow))
                } else {
                    let idx = m.stack.last();
                    if idx >= m.strip.len() {
                        StepModel::Done(
                            VMModel { stack: m.stack.take(len - 1), ..m1 },
                            OutcomeModel::Error(
                                VMError::RuntimeError(RuntimeFault::PixelIndexOutOfRange),
                            ),
                        )
                    } else {
                        StepModel::Continue(
                            VMModel {
                                pc: m.pc + 1,
                                stack: m.stack.take(len - 1).push(
                                    spec_word_of_pixel(m.strip[idx as int]),
                                ),
                                ..m1
                            },
                        )
                    }
                }
            },
        }
    } else if b / 16 == 0xF {
        // SPECIAL
        match Special::spec_from(postfix) {
            None => StepModel::Done(
                m1,
                OutcomeModel::Error(VMError::UnknownInstruction(postfix)),
            ),
            Some(Special::DUMP) => StepModel::Continue(VMModel { pc: m.pc + 1, ..m1 }),
            Some(Special::TWOBYTE) => StepModel::Done(
                m1,
                OutcomeModel::Error(VMError::UnimplementedInstruction(postfix)),
            ),
        }
    } else {
        // the byte names no instruction; the counter does not move
        StepModel::Done(m, OutcomeModel::Error(VMError::UnknownInstruction(b)))
    }
}

/// One instruction of the machine in deterministic mode: the clocks
/// deliver the instruction-count-driven words.
pub open spec fn spec_step(m: VMModel) -> StepModel
    recommends
        0 <= m.pc < m.code.len(),
{
    spec_step_with(m, spec_word32(spec_inc(m.count) / 10), spec_word32(spec_inc(m.count)))
}

/// The per-run instruction cap: the configured local budget, or the
/// largest count a single call can keep, past which a run reports the
/// local budget error rather than keep a counter it cannot represent.
pub open spec fn spec_local_cap(m: VMModel) -> int {
    match m.local_limit {
        Some(l) => l,
        None => usize::MAX as int,
    }
}

/// A bounded run in deterministic mode: step until the program ends, a
/// budget trips, an instruction fails, or a `blit` yields — or `None`
/// when `fuel` steps were not enough to get there.
pub open spec fn spec_run(m: VMModel, local_count: int, fuel: nat) -> Option<(VMModel, OutcomeModel)>
    decreases fuel,
{
    if !(0 <= m.pc < m.code.len()) {
        Some((m, OutcomeModel::Ended))
    } else if m.global_limit is Some && m.count >= m.global_limit->Some_0 {
        Some(
            (
                m,
                OutcomeModel::Error(
                    VMError::GlobalInstructionLimitReached(
                        m.count as usize,
                        m.global_limit->Some_0 as usize,
                    ),
                ),
            ),
        )
    } else if local_count >= spec_local_cap(m) {
        Some(
            (
                m,
                OutcomeModel::Error(
                    VMError::LocalInstructionLimitReached(
                        local_count as usize,
                        spec_local_cap(m) as usize,
                    ),
                ),
            ),
        )
    } else {
        match spec_step(m) {
            StepModel::Done(m2, o) => Some((m2, o)),
            StepModel::Continue(m2) => if fuel == 0 {
                None
            } else {
                spec_run(m2, spec_inc(local_count), (fuel - 1) as nat)
            },
        }
    }
}

/// A run fed by a sequence of clock readings, one pair per executed
/// instruction: step until the program ends, a budget trips, an
/// instruction fails, or a `blit` yields — or `None` when the readings run
/// out first. In any mode, `VMState::run` is a run of this kind for some
/// readings: every instruction but the two clock reads is thereby pinned
/// down exactly, and the readings only ever flow into pushed words.
pub open spec fn spec_run_with(
    m: VMModel,
    local_count: int,
    clocks: Seq<(u32, u32)>,
) -> Option<(VMModel, OutcomeModel)>
    decreases clocks.len(),
{
    if !(0 <= m.pc < m.code.len()) {
        Some((m, OutcomeModel::Ended))
    } else if m.global_limit is Some && m.count >= m.global_limit->Some_0 {
        Some(
            (
                m,
                OutcomeModel::Error(
                    VMError::GlobalInstructionLimitReached(
                        m.count as usize,
                        m.global_limit->Some_0 as usize,
                    ),
                ),
            ),
        )
    } else if local_count >= spec_local_cap(m) {
        Some(
            (
                m,
                OutcomeModel::Error(
                    VMError::LocalInstructionLimitReached(
                        local_count as usize,
                        spec_local_cap(m) as usize,
                    ),
                ),
            ),
        )
    } else if clocks.len() == 0 {
        None
    } else {
        match spec_step_with(m, clocks[0].0, clocks[0].1) {
            StepModel::Done(m2, o) => Some((m2, o)),
            StepModel::Continue(m2) => spec_run_with(m2, spec_inc(local_count), clocks.skip(1)),
        }
    }
}

/// How the virtual machine behaves, fixed when it is created.
#[derive(Clone, Copy, PartialEq, Eq, Structural, Debug)]
pub struct VMConfig {
    /// Advisory: a host that wraps the machine may trace each step.
    pub trace: bool,
    /// Replace the wall clocks with instruction-count-driven ones; with
    /// the seeded generator this makes frame streams reproducible.
    pub deterministic: bool,
}

impl Default for VMConfig {
    /// Not tracing, not deterministic.
    fn default() -> (r: VMConfig)
        ensures
            r == (VMConfig { trace: false, deterministic: false }),
    {
        VMConfig { trace: false, deterministic: false }
    }
}

/// What one mounted program runs under.
pub struct VMStateConfig {
    /// A cap on instructions over the program's whole life.
    pub global_instruction_limit: Option<usize>,
    /// A cap on instructions within one `run` call.
    pub local_instruction_limit: Option<usize>,
    /// The random number source `random_int` draws from.
    pub rng: SeededRng,
}

impl Default for VMStateConfig {
    /// No limits, and the generator seeded with zero.
    fn default() -> (r: VMStateConfig)
        ensures
            r.global_instruction_limit is None,
            r.local_instruction_limit is None,
            r.rng@.seed == 0,
            r.rng@.history == Seq::<u32>::empty(),
    {
        VMStateConfig {
            global_instruction_limit: None,
            local_instruction_limit: None,
            rng: SeededRng::new(0),
        }
    }
}

/// The machine: a pixel strip and a configuration.
pub struct VM {
    strip: DummyLedStrip,
    pub config: VMConfig,
}

impl View for VM {
    type V = Seq<Pixel>;

    closed spec fn view(&self) -> Seq<Pixel> {
        self.strip@
    }
}

impl VM {
    /// The machine's configuration, for contracts.
    pub closed spec fn spec_config(self) -> VMConfig {
        self.config
    }
}

/// How a `run` call came back to the host.
pub enum Outcome {
    /// The program counter ran past the last byte.
    Ended,
    /// The run failed.
    Error(VMError),
    /// A frame: the strip's pixels at the `blit` that yielded.
    BLIT(Vec<Pixel>),
}

impl View for Outcome {
    type V = OutcomeModel;

    open spec fn view(&self) -> OutcomeModel {
        match self {
            Outcome::Ended => OutcomeModel::Ended,
            Outcome::Error(e) => OutcomeModel::Error(*e),
            Outcome::BLIT(v) => OutcomeModel::Blit(v@),
        }
    }
}

/// A machine with a program mounted: the live state a host drives.
pub struct VMState {
    vm: VM,
    program: Program,
    pc: usize,
    stack: Vec<u32>,
    start_millis: u64,
    instruction_count: usize,
    config: VMStateConfig,
}

impl View for VMState {
    type V = VMModel;

    closed spec fn view(&self) -> VMModel {
        VMModel {
            code: self.program@.code,
            pc: self.pc as int,
            stack: self.stack@,
            strip: self.vm@,
            count: self.instruction_count as int,
            global_limit: match self.config.global_instruction_limit {
                Some(l) => Some(l as int),
                None => None,
            },
            local_limit: match self.config.local_instruction_limit {
                Some(l) => Some(l as int),
                None => None,
            },
            deterministic: self.vm.config.deterministic,
            rng: self.config.rng@,
        }
    }
}

impl VMState {
    /// The strip is addressable by 32-bit words.
    pub open spec fn wf(self) -> bool {
        self@.strip.len() <= u32::MAX
    }

    /// What a step and a run preserve: the program and the configuration.
    pub open spec fn frame_preserved(pre: VMModel, post: VMModel) -> bool {
        &&& post.code == pre.code
        &&& post.global_limit == pre.global_limit
        &&& post.local_limit == pre.local_limit
        &&& post.deterministic == pre.deterministic
    }

    fn new(vm: VM, program: Program, config: VMStateConfig) -> (r: VMState)
        requires
            vm@.len() <= u32::MAX,
        ensures
            r.wf(),
            r@ == (VMModel {
                code: program@.code,
                pc: 0,
                stack: Seq::<u32>::empty(),
                strip: vm@,
                count: 0,
                global_limit: match config.global_instruction_limit {
                    Some(l) => Some(l as int),
                    None => None,
                },
                local_limit: match config.local_instruction_limit {
                    Some(l) => Some(l as int),
                    None => None,
                },
                deterministic: vm.config.deterministic,
                rng: config.rng@,
            }),
    {
        let start_millis: u64 = if vm.config.deterministic {
            0
        } else {
            host::wall_millis()
        };
        let r = VMState {
            vm,
            program,
            pc: 0,
            stack: Vec::new(),
            start_millis,
            instruction_count: 0,
            config,
        };
        proof {
            assert(r@ =~~= (VMModel {
                code: program@.code,
                pc: 0,
                stack: Seq::<u32>::empty(),
                strip: vm@,
                count: 0,
                global_limit: match config.global_instruction_limit {
                    Some(l) => Some(l as int),
                    None => None,
                },
                local_limit: match config.local_instruction_limit {
                    Some(l) => Some(l as int),
                    None => None,
                },
                deterministic: vm.config.deterministic,
                rng: config.rng@,
            }));
        }
        r
    }

    /// Decode and execute the instruction under the program counter:
    /// `None` to go on, `Some` when the run stops here. In deterministic
    /// mode this is exactly `spec_step`.
    #[verifier::rlimit(100)]
    fn step(&mut self) -> (r: Option<Outcome>)
        requires
            old(self).wf(),
            0 <= old(self)@.pc < old(self)@.code.len(),
        ensures
            final(self).wf(),
            VMState::frame_preserved(old(self)@, final(self)@),
            old(self)@.count <= final(self)@.count <= spec_inc(old(self)@.count),
            old(self)@.deterministic ==> (match r {
                None => spec_step(old(self)@) == StepModel::Continue(final(self)@),
                Some(o) => spec_step(old(self)@) == StepModel::Done(final(self)@, o@),
            }),
            match r {
                None => exists|wall: u32, precise: u32|
                    spec_step_with(old(self)@, wall, precise) == StepModel::Continue(final(self)@),
                Some(o) => exists|wall: u32, precise: u32|
                    spec_step_with(old(self)@, wall, precise) == StepModel::Done(final(self)@, o@),
            },
    {
        let ghost pre = self@;
        let code_len = self.program.code().len();
        let b = self.program.code()[self.pc];
        if self.vm.config.trace {
            host::trace_instruction(self.pc, b);
        }
        let postfix = b % 16;
        let prefix_nibble = b / 16;
        if prefix_nibble != 0x0 && prefix_nibble != 0x1 && prefix_nibble != 0x2 && prefix_nibble
            != 0x3 && prefix_nibble != 0x4 && prefix_nibble != 0x5 && prefix_nibble != 0x6
            && prefix_nibble != 0x7 && prefix_nibble != 0x8 && prefix_nibble != 0x9
            && prefix_nibble != 0xE && prefix_nibble != 0xF {
            return Some(Outcome::Error(VMError::UnknownInstruction(b)));
        }
        // a decoded instruction counts, even one that then fails
        if self.instruction_count < usize::MAX {
            self.instruction_count = self.instruction_count + 1;
        }
        let stack_len = self.stack.len();
        if prefix_nibble == 0x0 {
            // POP
            if postfix as usize > stack_len {
                return Some(Outcome::Error(VMError::StackUnderflow));
            }
            self.stack.truncate(stack_len - postfix as usize);
            self.pc = self.pc + 1;
            proof {
                assert(spec_step(pre) =~~= StepModel::Continue(self@));
            }
            return None;
        }
        if prefix_nibble == 0x1 {
            // PUSHB
            if postfix == 0 {
                self.stack.push(0);
                self.pc = self.pc + 1;
                proof {
                    assert(spec_step(pre) =~~= StepModel::Continue(self@));
                }
                return None;
            }
            if postfix as usize > code_len - self.pc - 1 {
                return Some(Outcome::Error(VMError::RuntimeError(RuntimeFault::CodeOverrun)));
            }
            let base = self.pc + 1;
            let mut j: usize = 0;
            while j < postfix as usize
                invariant
                    j <= postfix as usize,
                    base + postfix as usize <= self.program@.code.len(),
                    base == pre.pc + 1,
                    self.program@.code.len() <= usize::MAX,
                    self@ == (VMModel {
                        stack: pre.stack + spec_bytes_as_words(
                            pre.code.subrange(base as int, base + j),
                        ),
                        count: spec_inc(pre.count),
                        ..pre
                    }),
                decreases postfix as usize - j,
            {
                let v = self.program.code()[base + j];
                self.stack.push(v as u32);
                proof {
                    assert(self@.stack =~= pre.stack + spec_bytes_as_words(
                        pre.code.subrange(base as int, base + j + 1),
                    ));
                    assert(self@ =~~= (VMModel {
                        stack: pre.stack + spec_bytes_as_words(
                            pre.code.subrange(base as int, base + (j + 1)),
                        ),
                        count: spec_inc(pre.count),
                        ..pre
                    }));
                }
                j += 1;
            }
            self.pc = self.pc + 1 + postfix as usize;
            proof {
                assert(spec_step(pre) =~~= StepModel::Continue(self@));
            }
            return None;
        }
        if prefix_nibble == 0x2 {
            // PEEK
            if postfix as usize >= stack_len {
                return Some(Outcome::Error(VMError::StackUnderflow));
            }
            let v = self.stack[stack_len - 1 - postfix as usize];
            self.stack.push(v);
            self.pc = self.pc + 1;
            proof {
                assert(spec_step(pre) =~~= StepModel::Continue(self@));
            }
            return None;
        }
        if prefix_nibble == 0x3 {
            // PUSHI
            if postfix as usize * 4 > code_len - self.pc - 1 {
                return Some(Outcome::Error(VMError::RuntimeError(RuntimeFault::CodeOverrun)));
            }
            let base = self.pc + 1;
            let mut j: usize = 0;
            while j < postfix as usize
                invariant
                    j <= postfix as usize,
                    base + 4 * postfix as usize <= self.program@.code.len(),
                    base == pre.pc + 1,
                    self.program@.code.len() <= usize::MAX,
                    self@ == (VMModel {
                        stack: pre.stack + crate::disasm::spec_words_of(
                            pre.code.subrange(base as int, base + 4 * j),
                        ),
                        count: spec_inc(pre.count),
                        ..pre
                    }),
                decreases postfix as usize - j,
            {
                let at = base + 4 * j;
                let b0 = self.program.code()[at];
                let b1 = self.program.code()[at + 1];
                let b2 = self.program.code()[at + 2];
                let b3 = self.program.code()[at + 3];
                let w: u32 = b0 as u32 + (b1 as u32) * 256 + (b2 as u32) * 65536 + (b3 as u32)
                    * 16777216;
                self.stack.push(w);
                proof {
                    let whole = pre.code.subrange(base as int, base + 4 * (j + 1));
                    let prefix_part = pre.code.subrange(base as int, base + 4 * j);
                    assert(whole =~= prefix_part + seq![
                        pre.code[at as int],
                        pre.code[at + 1],
                        pre.code[at + 2],
                        pre.code[at + 3],
                    ]);
                    crate::disasm::lemma_words_of_snoc(
                        prefix_part,
                        pre.code[at as int],
                        pre.code[at + 1],
                        pre.code[at + 2],
                        pre.code[at + 3],
                    );
                    assert(self@.stack =~= pre.stack + crate::disasm::spec_words_of(whole));
                    assert(self@ =~~= (VMModel {
                        stack: pre.stack + crate::disasm::spec_words_of(whole),
                        count: spec_inc(pre.count),
                        ..pre
                    }));
                }
                j += 1;
            }
            self.pc = self.pc + 1 + 4 * postfix as usize;
            proof {
                assert(spec_step(pre) =~~= StepModel::Continue(self@));
            }
            return None;
        }
        if prefix_nibble == 0x4 || prefix_nibble == 0x5 || prefix_nibble == 0x6 {
            // JMP, JZ, JNZ
            if code_len - self.pc < 3 {
                return Some(Outcome::Error(VMError::RuntimeError(RuntimeFault::CodeOverrun)));
            }
            let t0 = self.program.code()[self.pc + 1];
            let t1 = self.program.code()[self.pc + 2];
            let target: usize = t0 as usize + (t1 as usize) * 256;
            if prefix_nibble == 0x4 {
                self.pc = target;
                proof {
                    assert(spec_step(pre) =~~= StepModel::Continue(self@));
                }
                return None;
            }
            if stack_len == 0 {
                return Some(Outcome::Error(VMError::StackUnderflow));
            }
            let head = self.stack[stack_len - 1];
            let taken = if prefix_nibble == 0x5 {
                head == 0
            } else {
                head != 0
            };
            self.pc = if taken {
                target
            } else {
                self.pc + 3
            };
            proof {
                assert(spec_step(pre) =~~= StepModel::Continue(self@));
            }
            return None;
        }
        if prefix_nibble == 0x7 {
            // UNARY
            let op = match Unary::from(postfix) {
                Some(op) => op,
                None => {
                    return Some(Outcome::Error(VMError::UnknownInstruction(postfix)));
                },
            };
            if stack_len == 0 {
                return Some(Outcome::Error(VMError::StackUnderflow));
            }
            let v = self.stack[stack_len - 1];
            self.stack[stack_len - 1] = op.apply(v);
            self.pc = self.pc + 1;
            proof {
                assert(spec_step(pre) =~~= StepModel::Continue(self@));
            }
            return None;
        }
        if prefix_nibble == 0x8 {
            // BINARY
            let op = match Binary::from(postfix) {
                Some(op) => op,
                None => {
                    return Some(Outcome::Error(VMError::UnknownInstruction(postfix)));
                },
            };
            if stack_len < 2 {
                return Some(Outcome::Error(VMError::StackUnderflow));
            }
            let rhs = match self.stack.pop() {
                Some(v) => v,
                None => {
                    return Some(Outcome::Error(VMError::StackUnderflow));
                },
            };
            let lhs = match self.stack.pop() {
                Some(v) => v,
                None => {
                    return Some(Outcome::Error(VMError::StackUnderflow));
                },
            };
            proof {
                assert(self@.stack =~= pre.stack.take(pre.stack.len() - 2));
            }
            match op.apply(lhs, rhs) {
                Ok(v) => {
                    self.stack.push(v);
                    self.pc = self.pc + 1;
                    proof {
                        assert(spec_step(pre) =~~= StepModel::Continue(self@));
                    }
                    return None;
                },
                Err(e) => {
                    return Some(Outcome::Error(e));
                },
            }
        }
        if prefix_nibble == 0x9 {
            // SWAP
            if postfix as usize >= stack_len {
                return Some(Outcome::Error(VMError::StackUnderflow));
            }
            let top = self.stack[stack_len - 1];
            let other = self.stack[stack_len - 1 - postfix as usize];
            self.stack[stack_len - 1] = other;
            self.stack[stack_len - 1 - postfix as usize] = top;
            self.pc = self.pc + 1;
            proof {
                assert(spec_step(pre) =~~= StepModel::Continue(self@));
            }
            return None;
        }
        if prefix_nibble == 0xE {
            return self.step_user(postfix, Ghost(pre));
        }
        // SPECIAL
        let s = match Special::from(postfix) {
            Some(s) => s,
            None => {
                return Some(Outcome::Error(VMError::UnknownInstruction(postfix)));
            },
        };
        match s {
            Special::DUMP => {
                host::dump_stack(&self.stack);
                self.pc = self.pc + 1;
                None
            },
            Special::TWOBYTE => Some(
                Outcome::Error(VMError::UnimplementedInstruction(postfix)),
            ),
        }
    }


    /// The `USER` prefix of `step`: host calls. `pre` is the state before
    /// the instruction counter moved.
    #[verifier::rlimit(100)]
    fn step_user(&mut self, postfix: u8, Ghost(pre): Ghost<VMModel>) -> (r: Option<Outcome>)
        requires
            old(self).wf(),
            0 <= pre.pc < pre.code.len(),
            pre.code[pre.pc] / 16 == 0xE,
            postfix == pre.code[pre.pc] % 16,
            old(self)@ == (VMModel { count: spec_inc(pre.count), ..pre }),
        ensures
            final(self).wf(),
            VMState::frame_preserved(pre, final(self)@),
            pre.count <= final(self)@.count <= spec_inc(pre.count),
            pre.deterministic ==> (match r {
                None => spec_step(pre) == StepModel::Continue(final(self)@),
                Some(o) => spec_step(pre) == StepModel::Done(final(self)@, o@),
            }),
            match r {
                None => exists|wall: u32, precise: u32|
                    spec_step_with(pre, wall, precise) == StepModel::Continue(final(self)@),
                Some(o) => exists|wall: u32, precise: u32|
                    spec_step_with(pre, wall, precise) == StepModel::Done(final(self)@, o@),
            },
    {
        let code_len = self.program.code().len();
        let stack_len = self.stack.len();
        // USER
        let cmd = match UserCommand::from(postfix) {
            Some(cmd) => cmd,
            None => {
                return Some(Outcome::Error(VMError::UnknownInstruction(postfix)));
            },
        };
        match cmd {
            UserCommand::GET_LENGTH => {
                let v = self.vm.strip.length();
                self.stack.push(v);
                self.pc = self.pc + 1;
                proof {
                    assert(spec_step(pre) =~~= StepModel::Continue(self@));
                }
                return None;
            },
            UserCommand::GET_WALL_TIME => {
                let v: u32 = if self.vm.config.deterministic {
                    (((self.instruction_count / 10) as u64) % 0x1_0000_0000) as u32
                } else {
                    host::wall_seconds()
                };
                self.stack.push(v);
                self.pc = self.pc + 1;
                proof {
                    if pre.deterministic {
                        assert(spec_step(pre) =~~= StepModel::Continue(self@));
                    } else {
                        assert(spec_step_with(pre, v, 0) =~~= StepModel::Continue(self@));
                    }
                }
                return None;
            },
            UserCommand::GET_PRECISE_TIME => {
                let v: u32 = if self.vm.config.deterministic {
                    ((self.instruction_count as u64) % 0x1_0000_0000) as u32
                } else {
                    ((host::wall_millis().wrapping_sub(self.start_millis)) % 0x1_0000_0000) as u32
                };
                self.stack.push(v);
                self.pc = self.pc + 1;
                proof {
                    if pre.deterministic {
                        assert(spec_step(pre) =~~= StepModel::Continue(self@));
                    } else {
                        assert(spec_step_with(pre, 0, v) =~~= StepModel::Continue(self@));
                    }
                }
                return None;
            },
            UserCommand::SET_PIXEL => {
                if stack_len < 2 {
                    return Some(Outcome::Error(VMError::StackUnderflow));
                }
                let color = match self.stack.pop() {
                    Some(v) => v,
                    None => {
                        return Some(Outcome::Error(VMError::StackUnderflow));
                    },
                };
                let idx = self.stack[stack_len - 2];
                if idx >= self.vm.strip.length() {
                    return Some(
                        Outcome::Error(
                            VMError::RuntimeError(RuntimeFault::PixelIndexOutOfRange),
                        ),
                    );
                }
                let p = Pixel {
                    r: (color % 256) as u8,
                    g: ((color / 256) % 256) as u8,
                    b: ((color / 65536) % 256) as u8,
                };
                self.vm.strip.set_pixel(idx, p);
                self.pc = self.pc + 1;
                proof {
                    assert(spec_step(pre) =~~= StepModel::Continue(self@));
                }
                return None;
            },
            UserCommand::BLIT => {
                self.vm.strip.blit();
                self.pc = self.pc + 1;
                let frame = self.vm.strip.export();
                return Some(Outcome::BLIT(frame));
            },
            UserCommand::RANDOM_INT => {
                if stack_len == 0 {
                    return Some(Outcome::Error(VMError::StackUnderflow));
                }
                let bound = match self.stack.pop() {
                    Some(v) => v,
                    None => {
                        return Some(Outcome::Error(VMError::StackUnderflow));
                    },
                };
                if bound == 0 {
                    return Some(
                        Outcome::Error(VMError::RuntimeError(RuntimeFault::RandomRangeEmpty)),
                    );
                }
                let v = self.config.rng.draw(bound);
                self.stack.push(v);
                self.pc = self.pc + 1;
                proof {
                    assert(spec_step(pre) =~~= StepModel::Continue(self@));
                }
                return None;
            },
            UserCommand::GET_PIXEL => {
                if stack_len == 0 {
                    return Some(Outcome::Error(VMError::StackUnderflow));
                }
                let idx = match self.stack.pop() {
                    Some(v) => v,
                    None => {
                        return Some(Outcome::Error(VMError::StackUnderflow));
                    },
                };
                if idx >= self.vm.strip.length() {
                    return Some(
                        Outcome::Error(
                            VMError::RuntimeError(RuntimeFault::PixelIndexOutOfRange),
                        ),
                    );
                }
                let p = self.vm.strip.get_pixel(idx);
                let v: u32 = p.r as u32 + (p.g as u32) * 256 + (p.b as u32) * 65536;
                self.stack.push(v);
                self.pc = self.pc + 1;
                proof {
                    assert(spec_step(pre) =~~= StepModel::Continue(self@));
                }
                return None;
            },
        }
        }

    /// Run until the program ends, a budget trips, an instruction fails,
    /// or a `blit` yields a frame. The program and the configuration are
    /// untouched; with a global budget the instruction counter never
    /// passes it; the whole call is a `spec_run_with` of the starting
    /// state for some sequence of clock readings — so every instruction
    /// but the clock reads acts exactly as the model says, in any mode —
    /// and in deterministic mode it is exactly a bounded `spec_run`.
    pub fn run(&mut self) -> (o: Outcome)
        requires
            old(self).wf(),
        ensures
            final(self).wf(),
            VMState::frame_preserved(old(self)@, final(self)@),
            old(self)@.count <= final(self)@.count,
            (old(self)@.global_limit is Some && old(self)@.count <= old(self)@.global_limit->Some_0)
                ==> final(self)@.count <= old(self)@.global_limit->Some_0,
            old(self)@.deterministic ==> exists|fuel: nat|
                spec_run(old(self)@, 0, fuel) == Some((final(self)@, o@)),
            exists|clocks: Seq<(u32, u32)>|
                spec_run_with(old(self)@, 0, clocks) == Some((final(self)@, o@)),
    {
        let ghost m0 = self@;
        let cap: usize = match self.config.local_instruction_limit {
            Some(l) => l,
            None => usize::MAX,
        };
        let mut local_count: usize = 0;
        let ghost steps: nat = 0nat;
        let ghost mut ws: Seq<(u32, u32)> = Seq::empty();
        proof {
            assert forall|ext: Seq<(u32, u32)>|
                spec_run_with(self@, local_count as int, ext) == spec_run_with(
                    m0,
                    0,
                    ws + ext,
                ) by {
                assert(ws + ext =~= ext);
            }
        }
        loop
            invariant
                m0 == old(self)@,
                self.wf(),
                VMState::frame_preserved(m0, self@),
                cap == spec_local_cap(m0),
                local_count <= cap,
                m0.count <= self@.count,
                (m0.global_limit is Some && m0.count <= m0.global_limit->Some_0) ==> self@.count
                    <= m0.global_limit->Some_0,
                m0.deterministic ==> forall|f: nat|
                    spec_run(self@, local_count as int, f) == spec_run(m0, 0, (f + steps) as nat),
                forall|ext: Seq<(u32, u32)>|
                    spec_run_with(self@, local_count as int, ext) == spec_run_with(m0, 0, ws + ext),
            decreases cap - local_count,
        {
            if self.pc >= self.program.code().len() {
                proof {
                    if m0.deterministic {
                        assert(spec_run(self@, local_count as int, 0nat) == spec_run(
                            m0,
                            0,
                            steps,
                        ));
                        assert(spec_run(m0, 0, steps) == Some((self@, OutcomeModel::Ended)));
                    }
                    assert(spec_run_with(self@, local_count as int, Seq::empty()) == Some(
                        (self@, OutcomeModel::Ended),
                    ));
                    assert(spec_run_with(m0, 0, ws + Seq::empty()) == Some(
                        (self@, OutcomeModel::Ended),
                    ));
                }
                return Outcome::Ended;
            }
            if let Some(limit) = self.config.global_instruction_limit {
                if self.instruction_count >= limit {
                    let o = Outcome::Error(
                        VMError::GlobalInstructionLimitReached(self.instruction_count, limit),
                    );
                    proof {
                        if m0.deterministic {
                            assert(spec_run(self@, local_count as int, 0nat) == spec_run(
                                m0,
                                0,
                                steps,
                            ));
                        }
                        assert(spec_run_with(self@, local_count as int, Seq::empty()) == Some(
                            (self@, o@),
                        ));
                        assert(spec_run_with(m0, 0, ws + Seq::empty()) == Some((self@, o@)));
                    }
                    return o;
                }
            }
            if local_count >= cap {
                let o = Outcome::Error(VMError::LocalInstructionLimitReached(local_count, cap));
                proof {
                    if m0.deterministic {
                        assert(spec_run(self@, local_count as int, 0nat) == spec_run(m0, 0, steps));
                    }
                    assert(spec_run_with(self@, local_count as int, Seq::empty()) == Some(
                        (self@, o@),
                    ));
                    assert(spec_run_with(m0, 0, ws + Seq::empty()) == Some((self@, o@)));
                }
                return o;
            }
            let ghost before = self@;
            let ghost lc_before = local_count as int;
            match self.step() {
                Some(outcome) => {
                    proof {
                        if m0.deterministic {
                            assert(spec_run(before, lc_before, 0nat) == Some((self@, outcome@)));
                            assert(spec_run(m0, 0, steps) == Some((self@, outcome@)));
                        }
                        let (w, t) = choose|w: u32, t: u32|
                            spec_step_with(before, w, t) == StepModel::Done(self@, outcome@);
                        let pair = seq![(w, t)];
                        assert(pair[0] == (w, t));
                        assert(spec_run_with(before, lc_before, pair) == Some((self@, outcome@)));
                        assert(spec_run_with(m0, 0, ws + pair) == Some((self@, outcome@)));
                    }
                    return outcome;
                },
                None => {
                    local_count = local_count + 1;
                    proof {
                        if m0.deterministic {
                            assert forall|f: nat|
                                spec_run(self@, local_count as int, f) == spec_run(
                                    m0,
                                    0,
                                    (f + steps + 1) as nat,
                                ) by {
                                assert(spec_run(before, lc_before, (f + 1) as nat) == spec_run(
                                    m0,
                                    0,
                                    ((f + 1) + steps) as nat,
                                ));
                                assert(spec_run(before, lc_before, (f + 1) as nat) == spec_run(
                                    self@,
                                    spec_inc(lc_before),
                                    f,
                                ));
                            }
                        }
                        steps = steps + 1nat;
                        let (w, t) = choose|w: u32, t: u32|
                            spec_step_with(before, w, t) == StepModel::Continue(self@);
                        let taken = ws.push((w, t));
                        assert forall|ext: Seq<(u32, u32)>|
                            spec_run_with(self@, local_count as int, ext) == spec_run_with(
                                m0,
                                0,
                                taken + ext,
                            ) by {
                            let lead = seq![(w, t)] + ext;
                            assert(lead[0] == (w, t));
                            assert(lead.skip(1) =~= ext);
                            assert(spec_run_with(before, lc_before, lead) == spec_run_with(
                                self@,
                                spec_inc(lc_before),
                                ext,
                            ));
                            assert(spec_run_with(before, lc_before, lead) == spec_run_with(
                                m0,
                                0,
                                ws + lead,
                            ));
                            assert(ws + lead =~= taken + ext);
                        }
                        ws = taken;
                    }
                },
            }
        }
    }

    /// Drive the machine to its next frame: `None` when the program
    /// completed, the frame or the error otherwise.
    pub fn next(&mut self) -> (r: Option<Result<Vec<Pixel>, VMError>>)
        requires
            old(self).wf(),
        ensures
            final(self).wf(),
            VMState::frame_preserved(old(self)@, final(self)@),
            old(self)@.deterministic ==> exists|fuel: nat|
                spec_run(old(self)@, 0, fuel) == Some(
                    (
                        final(self)@,
                        match r {
                            None => OutcomeModel::Ended,
                            Some(Ok(frame)) => OutcomeModel::Blit(frame@),
                            Some(Err(e)) => OutcomeModel::Error(e),
                        },
                    ),
                ),
            exists|clocks: Seq<(u32, u32)>|
                spec_run_with(old(self)@, 0, clocks) == Some(
                    (
                        final(self)@,
                        match r {
                            None => OutcomeModel::Ended,
                            Some(Ok(frame)) => OutcomeModel::Blit(frame@),
                            Some(Err(e)) => OutcomeModel::Error(e),
                        },
                    ),
                ),
    {
        match self.run() {
            Outcome::Ended => None,
            Outcome::BLIT(frame) => Some(Ok(frame)),
            Outcome::Error(e) => Some(Err(e)),
        }
    }

    /// The current program counter.
    pub fn pc(&self) -> (r: usize)
        ensures
            r == self@.pc,
    {
        self.pc
    }

    /// Give the machine, the run configuration and the program back to the
    /// host, for a restart or a program swap.
    pub fn stop(self) -> (r: (VM, VMStateConfig, Program))
        ensures
            r.0@ == self@.strip,
            r.0.spec_config().deterministic == self@.deterministic,
            (match r.1.global_instruction_limit {
                Some(l) => Some(l as int),
                None => None,
            }) == self@.global_limit,
            (match r.1.local_instruction_limit {
                Some(l) => Some(l as int),
                None => None,
            }) == self@.local_limit,
            r.1.rng@ == self@.rng,
            r.2@.code == self@.code,
    {
        (self.vm, self.config, self.program)
    }
}

impl VM {
    /// A machine driving a strip of `length` unlit pixels.
    pub fn new(length: usize, config: VMConfig) -> (r: VM)
        requires
            length <= u32::MAX,
        ensures
            r@.len() == length,
            forall|i: int| 0 <= i < length ==> r@[i] == (Pixel { r: 0, g: 0, b: 0 }),
            r.spec_config() == config,
    {
        VM { strip: DummyLedStrip::new(length), config }
    }

    /// Resize the strip between programs: a shorter length keeps the
    /// prefix of colors, a longer one pads with unlit pixels.
    pub fn set_stip_length(&mut self, length: usize)
        requires
            length <= u32::MAX,
        ensures
            final(self)@.len() == length,
            forall|i: int|
                0 <= i < length ==> final(self)@[i] == (if i < old(self)@.len() {
                    old(self)@[i]
                } else {
                    Pixel { r: 0, g: 0, b: 0 }
                }),
            final(self).spec_config() == old(self).spec_config(),
    {
        self.strip.set_length(length)
    }

    /// Mount a program: a live state that yields one frame per `blit`.
    pub fn start(self, program: Program, config: VMStateConfig) -> (r: VMState)
        requires
            self@.len() <= u32::MAX,
        ensures
            r.wf(),
            r@ == (VMModel {
                code: program@.code,
                pc: 0,
                stack: Seq::<u32>::empty(),
                strip: self@,
                count: 0,
                global_limit: match config.global_instruction_limit {
                    Some(l) => Some(l as int),
                    None => None,
                },
                local_limit: match config.local_instruction_limit {
                    Some(l) => Some(l as int),
                    None => None,
                },
                deterministic: self.spec_config().deterministic,
                rng: config.rng@,
            }),
    {
        if self.config.trace {
            host::trace_program(program.code());
        }
        VMState::new(self, program, config)
    }
}

/// A continuing step keeps the program and the configuration, moves the
/// instruction counter by exactly one, and stays deterministic.
proof fn lemma_step_continue(m: VMModel)
    requires
        0 <= m.pc < m.code.len(),
        spec_step(m) is Continue,
    ensures
        (spec_step(m)->Continue_0).count == spec_inc(m.count),
        VMState::frame_preserved(m, spec_step(m)->Continue_0),
{
}

/// One step moves the instruction counter by at most one, never down;
/// a step that yields a frame always counts its instruction.
proof fn lemma_step_count(m: VMModel)
    requires
        0 <= m.pc < m.code.len(),
    ensures
        match spec_step(m) {
            StepModel::Continue(m2) => m2.count == spec_inc(m.count),
            StepModel::Done(m2, o) => m.count <= m2.count <= spec_inc(m.count) && (o is Blit
                ==> m2.count == spec_inc(m.count)),
        },
{
}

/// The instruction counter never moves down across a run.
pub proof fn lemma_run_count_monotone(m: VMModel, local_count: int, fuel: nat)
    requires
        spec_run(m, local_count, fuel) is Some,
    ensures
        spec_run(m, local_count, fuel)->Some_0.0.count >= m.count,
    decreases fuel,
{
    if 0 <= m.pc < m.code.len() && !(m.global_limit is Some && m.count >= m.global_limit->Some_0)
        && !(local_count >= spec_local_cap(m)) {
        lemma_step_count(m);
        match spec_step(m) {
            StepModel::Done(_, _) => {},
            StepModel::Continue(m2) => {
                lemma_run_count_monotone(m2, spec_inc(local_count), (fuel - 1) as nat);
            },
        }
    }
}

/// A frame is never free: a run that yields one has executed at least one
/// instruction, so under a global budget of `l` at most `l` frames can
/// come out before the budget error (with `run`'s counter bound and
/// `lemma_global_budget`, by induction over the host's calls).
pub proof fn lemma_yield_advances_count(m: VMModel, local_count: int, fuel: nat)
    requires
        m.count < usize::MAX,
        spec_run(m, local_count, fuel) is Some,
        spec_run(m, local_count, fuel)->Some_0.1 is Blit,
    ensures
        spec_run(m, local_count, fuel)->Some_0.0.count >= m.count + 1,
    decreases fuel,
{
    if 0 <= m.pc < m.code.len() && !(m.global_limit is Some && m.count >= m.global_limit->Some_0)
        && !(local_count >= spec_local_cap(m)) {
        lemma_step_count(m);
        match spec_step(m) {
            StepModel::Done(_, _) => {},
            StepModel::Continue(m2) => {
                if m2.count < usize::MAX {
                    lemma_yield_advances_count(m2, spec_inc(local_count), (fuel - 1) as nat);
                } else {
                    lemma_run_count_monotone(m2, spec_inc(local_count), (fuel - 1) as nat);
                }
            },
        }
    }
}

/// Determinism: the machine's behavior is a function of its starting
/// model. Any two bounded runs from the same state that both complete —
/// with whatever fuel — end in the same state with the same outcome, so
/// two deterministic-mode machines started alike produce identical frame
/// sequences, byte for byte.
pub proof fn lemma_run_deterministic(m: VMModel, local_count: int, f1: nat, f2: nat)
    requires
        spec_run(m, local_count, f1) is Some,
        spec_run(m, local_count, f2) is Some,
    ensures
        spec_run(m, local_count, f1) == spec_run(m, local_count, f2),
    decreases f1,
{
    if 0 <= m.pc < m.code.len() && !(m.global_limit is Some && m.count >= m.global_limit->Some_0)
        && !(local_count >= spec_local_cap(m)) {
        match spec_step(m) {
            StepModel::Done(_, _) => {},
            StepModel::Continue(m2) => {
                lemma_run_deterministic(m2, spec_inc(local_count), (f1 - 1) as nat, (f2 - 1) as nat);
            },
        }
    }
}

/// Budget enforcement: with a global limit of `l`, a run always completes
/// — within `l - count` steps it either finishes on its own or reports
/// the limit error — and (by `run`'s contract) the machine executes at
/// most `l` instructions in its life.
pub proof fn lemma_global_budget(m: VMModel, local_count: int, fuel: nat)
    requires
        m.global_limit is Some,
        0 <= m.global_limit->Some_0 <= usize::MAX,
        0 <= m.count,
        fuel >= m.global_limit->Some_0 - m.count,
    ensures
        spec_run(m, local_count, fuel) is Some,
    decreases fuel,
{
    let l = m.global_limit->Some_0;
    if 0 <= m.pc < m.code.len() && !(m.count >= l) && !(local_count >= spec_local_cap(m)) {
        match spec_step(m) {
            StepModel::Done(_, _) => {},
            StepModel::Continue(m2) => {
                lemma_step_continue(m);
                lemma_global_budget(m2, spec_inc(local_count), (fuel - 1) as nat);
            },
        }
    }
}

} // verus!
