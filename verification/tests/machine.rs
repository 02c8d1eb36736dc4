//! The virtual machine: frames, host calls, budgets, determinism and
//! runtime errors.

use ledscript::compile::FromSource;
use ledscript::program::Program;
use ledscript::rng::SeededRng;
use ledscript::strip::Pixel;
use ledscript::vm::{Outcome, VMConfig, VMState, VMStateConfig, VM};
use ledscript::vm_errors::{RuntimeFault, VMError};

fn deterministic_vm(length: usize) -> VM {
    VM::new(length, VMConfig { trace: false, deterministic: true })
}

fn start(source: &str, length: usize) -> VMState {
    let program = Program::from_source(source).unwrap();
    deterministic_vm(length).start(program, VMStateConfig::default())
}

fn black(n: usize) -> Vec<Pixel> {
    vec![Pixel { r: 0, g: 0, b: 0 }; n]
}

#[test]
fn blink_yields_a_frame_per_iteration() {
    let mut state = start("let on=0; loop { on = ~on & 0x1; blit; }", 1);
    let first = state.next().unwrap().unwrap();
    assert_eq!(first, black(1));
    let second = state.next().unwrap().unwrap();
    assert_eq!(second, black(1));
}

#[test]
fn sweep_walks_one_lit_pixel_across_the_strip() {
    let source = "loop { for(i=get_length) {\n  for(n=get_length) { set_pixel(n-1,0,0,0,0); };\n  set_pixel(get_length-i,255,255,255,0);\n  blit;\n}; }";
    let mut state = start(source, 10);
    for k in 0..10 {
        let frame = state.next().unwrap().unwrap();
        assert_eq!(frame.len(), 10);
        for (i, p) in frame.iter().enumerate() {
            if i == k {
                assert_eq!(*p, Pixel { r: 255, g: 255, b: 255 }, "frame {} pixel {}", k, i);
            } else {
                assert_eq!(*p, Pixel { r: 0, g: 0, b: 0 }, "frame {} pixel {}", k, i);
            }
        }
    }
}

#[test]
fn ended_program_yields_nothing() {
    let mut state = start("1+1;", 1);
    assert!(state.next().is_none());
}

#[test]
fn division_by_zero_at_run_time_errors() {
    let mut state = start("get_length / 0;", 0);
    match state.next() {
        Some(Err(VMError::RuntimeError(RuntimeFault::DivisionByZero))) => {}
        other => panic!("expected a division error, got {:?}", other),
    }
}

#[test]
fn binary_on_an_empty_stack_underflows() {
    // raw bytecode: a bare BINARY.ADD
    let program = Program::from_binary(vec![0x80]);
    let mut state = deterministic_vm(1).start(program, VMStateConfig::default());
    match state.next() {
        Some(Err(VMError::StackUnderflow)) => {}
        other => panic!("expected an underflow, got {:?}", other),
    }
}

#[test]
fn unknown_and_unimplemented_instructions_error() {
    let mut s1 = deterministic_vm(1).start(Program::from_binary(vec![0xA0]), VMStateConfig::default());
    assert_eq!(s1.next(), Some(Err(VMError::UnknownInstruction(0xA0))));
    let mut s2 = deterministic_vm(1).start(Program::from_binary(vec![0xF2]), VMStateConfig::default());
    assert_eq!(s2.next(), Some(Err(VMError::UnimplementedInstruction(2))));
}

#[test]
fn truncated_operands_error_instead_of_overrunning() {
    let mut state = deterministic_vm(1).start(Program::from_binary(vec![0x31]), VMStateConfig::default());
    assert_eq!(
        state.next(),
        Some(Err(VMError::RuntimeError(RuntimeFault::CodeOverrun)))
    );
}

#[test]
fn set_pixel_out_of_range_errors() {
    let mut state = start("set_pixel(5, 1, 2, 3, 0);", 1);
    assert_eq!(
        state.next(),
        Some(Err(VMError::RuntimeError(RuntimeFault::PixelIndexOutOfRange)))
    );
}

#[test]
fn random_of_zero_errors() {
    let mut state = start("random(0);", 1);
    assert_eq!(
        state.next(),
        Some(Err(VMError::RuntimeError(RuntimeFault::RandomRangeEmpty)))
    );
}

#[test]
fn random_draws_stay_below_their_bound() {
    let mut state = start("set_pixel(0, random(10), 0, 0, 0); blit;", 1);
    let frame = state.next().unwrap().unwrap();
    assert!(frame[0].r < 10, "draw {} not below 10", frame[0].r);
}

#[test]
fn get_pixel_reads_back_what_set_pixel_wrote() {
    let source = "set_pixel(0, 10, 20, 30, 0); set_pixel(1, red(get_pixel(0)), green(get_pixel(0)), blue(get_pixel(0)), 0); blit;";
    let mut state = start(source, 2);
    let frame = state.next().unwrap().unwrap();
    assert_eq!(frame[0], Pixel { r: 10, g: 20, b: 30 });
    assert_eq!(frame[1], Pixel { r: 10, g: 20, b: 30 });
}

#[test]
fn global_budget_stops_a_runaway_loop() {
    let program = Program::from_source("loop { blit; }").unwrap();
    let config = VMStateConfig {
        global_instruction_limit: Some(7),
        local_instruction_limit: None,
        rng: SeededRng::new(0),
    };
    let mut state = deterministic_vm(1).start(program, config);
    let mut frames = 0usize;
    loop {
        match state.next() {
            Some(Ok(_)) => frames += 1,
            Some(Err(VMError::GlobalInstructionLimitReached(count, limit))) => {
                assert_eq!(limit, 7);
                assert!(count <= 7, "{} instructions passed the budget", count);
                break;
            }
            other => panic!("unexpected outcome {:?}", other),
        }
        assert!(frames <= 8, "the budget never tripped");
    }
}

#[test]
fn local_budget_limits_one_run_call() {
    let program = Program::from_source("loop { 1; }").unwrap();
    let config = VMStateConfig {
        global_instruction_limit: None,
        local_instruction_limit: Some(5),
        rng: SeededRng::new(0),
    };
    let mut state = deterministic_vm(1).start(program, config);
    match state.next() {
        Some(Err(VMError::LocalInstructionLimitReached(count, limit))) => {
            assert_eq!(limit, 5);
            assert!(count <= 5);
        }
        other => panic!("expected the local budget error, got {:?}", other),
    }
}

#[test]
fn deterministic_runs_agree_frame_for_frame() {
    let source = "loop { set_pixel(0, random(256), random(256), random(256), 0); set_pixel(1, get_precise_time, get_wall_time, 0, 0); blit; }";
    let mut a = {
        let program = Program::from_source(source).unwrap();
        deterministic_vm(2).start(
            program,
            VMStateConfig {
                global_instruction_limit: None,
                local_instruction_limit: None,
                rng: SeededRng::new(99),
            },
        )
    };
    let mut b = {
        let program = Program::from_source(source).unwrap();
        deterministic_vm(2).start(
            program,
            VMStateConfig {
                global_instruction_limit: None,
                local_instruction_limit: None,
                rng: SeededRng::new(99),
            },
        )
    };
    for _ in 0..8 {
        let fa = a.next().unwrap().unwrap();
        let fb = b.next().unwrap().unwrap();
        assert_eq!(fa, fb);
    }
}

#[test]
fn a_different_seed_changes_the_stream() {
    let source = "loop { set_pixel(0, random(10000) % 256, 0, 0, 0); blit; }";
    let run = |seed: u64| {
        let program = Program::from_source(source).unwrap();
        let mut state = deterministic_vm(1).start(
            program,
            VMStateConfig {
                global_instruction_limit: None,
                local_instruction_limit: None,
                rng: SeededRng::new(seed),
            },
        );
        let mut reds = Vec::new();
        for _ in 0..16 {
            reds.push(state.next().unwrap().unwrap()[0].r);
        }
        reds
    };
    assert_ne!(run(1), run(2));
}

#[test]
fn stop_hands_the_machine_back_for_a_restart() {
    let program = Program::from_source("set_pixel(0, 9, 9, 9, 0); blit; loop { blit; }").unwrap();
    let mut state = deterministic_vm(1).start(program, VMStateConfig::default());
    let frame = state.next().unwrap().unwrap();
    assert_eq!(frame[0], Pixel { r: 9, g: 9, b: 9 });
    let (vm, config, program) = state.stop();
    // the strip keeps its pixels; the same program can be remounted
    let mut again = vm.start(program, config);
    let frame2 = again.next().unwrap().unwrap();
    assert_eq!(frame2[0], Pixel { r: 9, g: 9, b: 9 });
}

#[test]
fn strip_resizing_keeps_the_prefix() {
    let mut vm = VM::new(2, VMConfig { trace: false, deterministic: true });
    let program = Program::from_source("set_pixel(0, 1, 2, 3, 0); blit;").unwrap();
    let mut state = vm.start(program, VMStateConfig::default());
    assert_eq!(state.next().unwrap().unwrap()[0], Pixel { r: 1, g: 2, b: 3 });
    let (mut vm2, config, _old_program) = state.stop();
    vm2.set_stip_length(4);
    let program2 = Program::from_source("blit;").unwrap();
    let mut state2 = vm2.start(program2, config);
    let frame = state2.next().unwrap().unwrap();
    assert_eq!(frame.len(), 4);
    assert_eq!(frame[0], Pixel { r: 1, g: 2, b: 3 });
    assert_eq!(frame[3], Pixel { r: 0, g: 0, b: 0 });
}

#[test]
fn deterministic_clocks_follow_the_instruction_count() {
    // two frames of the counter-driven clock differ in a fixed way
    let source = "loop { set_pixel(0, get_precise_time % 256, 0, 0, 0); blit; }";
    let mut a = start(source, 1);
    let f1 = a.next().unwrap().unwrap()[0].r;
    let f2 = a.next().unwrap().unwrap()[0].r;
    let mut b = start(source, 1);
    let g1 = b.next().unwrap().unwrap()[0].r;
    let g2 = b.next().unwrap().unwrap()[0].r;
    assert_eq!((f1, f2), (g1, g2));
}

#[test]
fn jumps_do_not_consume_the_tested_value() {
    // if(1){}; compiles to a test, a branch and a POP of the condition:
    // a balanced program whose run just ends
    let program = Program::from_source("if(1) { dump; };").unwrap();
    assert_eq!(program.stack_size(), 0);
    let mut state = deterministic_vm(1).start(program, VMStateConfig::default());
    assert!(state.next().is_none());
}

#[test]
fn pc_starts_at_zero_and_advances() {
    let program = Program::from_source("blit;").unwrap();
    let mut state = deterministic_vm(1).start(program, VMStateConfig::default());
    assert_eq!(state.pc(), 0);
    let _ = state.next();
    assert_eq!(state.pc(), 1);
}

#[test]
fn outcome_run_reports_blit_directly() {
    let program = Program::from_source("blit;").unwrap();
    let mut state = deterministic_vm(2).start(program, VMStateConfig::default());
    match state.run() {
        Outcome::BLIT(frame) => assert_eq!(frame, black(2)),
        _ => panic!("expected a frame"),
    }
    match state.run() {
        Outcome::Ended => {}
        _ => panic!("expected the end"),
    }
}
