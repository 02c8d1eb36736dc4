//! The program builder: encodings, the postfix cap, fragment balance, and
//! the disassembly round-trip.

use ledscript::disasm::{disassemble, Instr};
use ledscript::instructions::{Binary, Unary, UserCommand};
use ledscript::program::{Program, SyntaxError};

#[test]
fn push_chooses_the_shortest_encoding() {
    let mut p = Program::new();
    p.push(0).unwrap();
    p.push(7).unwrap();
    p.push(0x1234).unwrap();
    assert_eq!(p.code().as_slice(), &[0x10, 0x11, 0x07, 0x31, 0x34, 0x12, 0x00, 0x00]);
    assert_eq!(p.stack_size(), 3);
}

#[test]
fn postfix_above_the_cap_is_refused() {
    let mut p = Program::new();
    assert!(matches!(p.pop(16), Err(SyntaxError::PostfixLimit("pop", 16))));
    assert!(matches!(p.peek(255), Err(SyntaxError::PostfixLimit("peek", 255))));
    assert!(matches!(p.swap(16), Err(SyntaxError::PostfixLimit("swap", 16))));
    // nothing was emitted and the counter did not move
    assert_eq!(p.code().len(), 0);
    assert_eq!(p.stack_size(), 0);
}

#[test]
fn postfix_at_the_cap_is_accepted() {
    let mut p = Program::new();
    p.pop(15).unwrap();
    p.peek(15).unwrap();
    p.swap(15).unwrap();
    assert_eq!(p.code().as_slice(), &[0x0F, 0x2F, 0x9F]);
}

#[test]
fn unbalanced_branch_fragment_is_refused() {
    let mut p = Program::new();
    p.push(1).unwrap();
    let mut body = p.branch_fragment().unwrap();
    body.push(2).unwrap();
    assert!(matches!(
        p.if_zero(body),
        Err(SyntaxError::FragmentCannotModifyStackSize("branch"))
    ));
    let mut body2 = p.branch_fragment().unwrap();
    body2.push(2).unwrap();
    assert!(matches!(
        p.if_not_zero(body2),
        Err(SyntaxError::FragmentCannotModifyStackSize("branch"))
    ));
}

#[test]
fn unbalanced_loop_fragments_are_refused() {
    let mut p = Program::new();
    let mut body = p.loop_fragment();
    body.push(2).unwrap();
    assert!(matches!(
        p.repeat_forever(body),
        Err(SyntaxError::FragmentCannotModifyStackSize("forever loop"))
    ));
    let mut body2 = p.branch_fragment().unwrap();
    body2.pop(1).unwrap();
    assert!(matches!(
        p.repeat(body2),
        Err(SyntaxError::FragmentCannotModifyStackSize("for loop"))
    ));
}

#[test]
fn leave_on_stack_rebalances_a_fragment() {
    let mut p = Program::new();
    p.push(1).unwrap();
    let mut body = p.branch_fragment().unwrap();
    body.push(2).unwrap();
    body.leave_on_stack(1).unwrap();
    p.if_zero(body).unwrap();
    // JNZ to 7: [PUSHB 1] [JNZ lo hi] [PUSHB 2]
    assert_eq!(p.code().as_slice(), &[0x11, 0x01, 0x60, 0x07, 0x00, 0x11, 0x02]);
}

#[test]
fn branch_emits_a_forward_jump_past_the_body() {
    let mut p = Program::new();
    p.push(1).unwrap();
    let mut body = p.branch_fragment().unwrap();
    body.dump().unwrap();
    p.if_not_zero(body).unwrap();
    p.pop(1).unwrap();
    // [PUSHB 1] [JZ 06 00] [DUMP] [POP 1]
    assert_eq!(p.code().as_slice(), &[0x11, 0x01, 0x50, 0x06, 0x00, 0xF1, 0x01]);
    assert_eq!(p.stack_size(), 0);
}

#[test]
fn repeat_forever_jumps_back_to_its_start() {
    let mut p = Program::new();
    let mut body = p.loop_fragment();
    body.blit().unwrap();
    p.repeat_forever(body).unwrap();
    assert_eq!(p.code().as_slice(), &[0xE4, 0x40, 0x00, 0x00]);
}

#[test]
fn repeat_counts_down_a_counter_left_on_the_stack() {
    let mut p = Program::new();
    p.push(3).unwrap();
    let mut body = p.branch_fragment().unwrap();
    body.dump().unwrap();
    p.repeat(body).unwrap();
    p.pop(1).unwrap();
    // [PUSHB 3] [JZ 0a 00] [DUMP] [DEC] [JMP 02 00] [POP 1]
    assert_eq!(
        p.code().as_slice(),
        &[0x11, 0x03, 0x50, 0x0A, 0x00, 0xF1, 0x71, 0x40, 0x02, 0x00, 0x01]
    );
    assert_eq!(p.stack_size(), 0);
}

#[test]
fn repeat_times_wraps_the_counter_push_and_pop() {
    let mut p = Program::new();
    let body = p.repeat_times_fragment(2).unwrap();
    p.repeat_times(2, body).unwrap();
    assert_eq!(
        p.code().as_slice(),
        &[0x11, 0x02, 0x50, 0x09, 0x00, 0x71, 0x40, 0x02, 0x00, 0x01]
    );
    assert_eq!(p.stack_size(), 0);
}

#[test]
fn emitting_past_the_address_space_is_refused() {
    let mut p = Program::new();
    for _ in 0..13107 {
        p.push(0xFFFF_FFFF).unwrap();
    }
    // 13107 * 5 = 65535 bytes: the buffer is full
    assert_eq!(p.code().len(), 65535);
    assert!(matches!(p.nop(), Err(SyntaxError::ProgramTooLarge)));
    assert!(matches!(p.push(1), Err(SyntaxError::ProgramTooLarge)));
}

#[test]
fn disassembly_recovers_builder_output() {
    let mut p = Program::new();
    p.push(0x1234).unwrap();
    p.push(0).unwrap();
    p.push(5).unwrap();
    p.add().unwrap();
    p.peek(0).unwrap();
    p.swap(1).unwrap();
    p.unary(Unary::NOT).unwrap();
    p.user(UserCommand::BLIT).unwrap();
    p.pop(2).unwrap();
    let instrs = disassemble(p.code()).unwrap();
    assert_eq!(
        instrs,
        vec![
            Instr::PushI(vec![0x1234]),
            Instr::PushB(vec![]),
            Instr::PushB(vec![5]),
            Instr::BinaryOp(Binary::ADD),
            Instr::Peek(0),
            Instr::Swap(1),
            Instr::UnaryOp(Unary::NOT),
            Instr::UserOp(UserCommand::BLIT),
            Instr::Pop(2),
        ]
    );
}

#[test]
fn disassembly_recovers_jump_targets() {
    let mut p = Program::new();
    p.push(1).unwrap();
    let mut body = p.branch_fragment().unwrap();
    body.dec().unwrap();
    p.if_not_zero(body).unwrap();
    let instrs = disassemble(p.code()).unwrap();
    assert_eq!(
        instrs,
        vec![Instr::PushB(vec![1]), Instr::Jz(6), Instr::UnaryOp(Unary::DEC)]
    );
}

#[test]
fn disassembly_rejects_an_unknown_byte() {
    assert_eq!(disassemble(&vec![0x10, 0xA7]), Err(0xA7));
}

#[test]
fn disassembly_rejects_a_truncated_operand() {
    assert_eq!(disassemble(&vec![0x31, 0x01]), Err(0x31));
}
