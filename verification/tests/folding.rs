//! Constant folding: expressions of literals compile to a single push
//! with the host's wrapping 32-bit arithmetic.

use ledscript::ast::Expression;
use ledscript::compile::{expression, FromSource};
use ledscript::program::Program;
use ledscript::Scope;

fn compile_expression(source: &str) -> Vec<u8> {
    let (rest, e) = expression(source).unwrap();
    assert_eq!(rest, "");
    let mut p = Program::new();
    let mut scope = Scope::new();
    e.assemble(&mut p, &mut scope).unwrap();
    p.code().clone()
}

#[test]
fn arithmetic_folds_to_one_push() {
    assert_eq!(compile_expression("2*3+10/2-1"), vec![0x11, 10]);
}

#[test]
fn folding_wraps_at_thirty_two_bits() {
    // 0 - 1 wraps to the all-ones word
    assert_eq!(compile_expression("0-1"), vec![0x31, 0xFF, 0xFF, 0xFF, 0xFF]);
}

#[test]
fn clamp_of_constants_folds() {
    // the value 50 clamped into [0, 10] is 10: one byte push
    assert_eq!(compile_expression("clamp(50, 0, 10)"), vec![0x11, 0x0A]);
}

#[test]
fn rgb_of_constants_folds_to_one_word_push() {
    assert_eq!(
        compile_expression("rgb(255,128,0)"),
        vec![0x31, 0xFF, 0x80, 0x00, 0x00]
    );
}

#[test]
fn color_accessors_fold() {
    assert_eq!(compile_expression("green(rgb(1,2,3))"), vec![0x11, 2]);
    assert_eq!(compile_expression("red(rgb(1,2,3))"), vec![0x11, 1]);
    assert_eq!(compile_expression("blue(rgb(1,2,3))"), vec![0x11, 3]);
}

#[test]
fn comparisons_fold_to_zero_or_one() {
    assert_eq!(compile_expression("1+2*3>4"), vec![0x11, 1]);
    assert_eq!(compile_expression("2>4"), vec![0x10]);
}

#[test]
fn division_by_a_constant_zero_does_not_fold() {
    let e = expression("1/0").unwrap().1;
    assert_eq!(e.const_value(), None);
}

#[test]
fn negation_does_not_fold() {
    let e = expression("-5").unwrap().1;
    assert_eq!(e.const_value(), None);
}

#[test]
fn shifts_fold_through_byte_shift_rewriting() {
    assert_eq!(compile_expression("1<<8"), vec![0x31, 0x00, 0x01, 0x00, 0x00]);
    assert_eq!(compile_expression("0x1234>>8"), vec![0x11, 0x12]);
}

#[test]
fn scope_balance_after_whole_programs() {
    let sources = [
        "blit;",
        "let a = 1; let b = a + 1; b = b * 2;",
        "loop { for(i=get_length) { set_pixel(i-1, 255, 0, 0, 0); }; blit; }",
        "if(1) { let x = 2; } else { dump; };",
        "let q = clamp(get_length, 1, 10);",
    ];
    for src in sources.iter() {
        let p = Program::from_source(*src);
        let p: Program = match p {
            Ok(p) => p,
            Err(e) => panic!("{} failed: {:?}", src, e),
        };
        assert_eq!(p.stack_size(), 0, "stack size after {}", src);
        assert_eq!(p.offset(), 0);
    }
}

#[test]
fn expression_statement_discards_its_value() {
    let p: Program = Program::from_source("1+1;").unwrap();
    // a single push, then POP 1
    assert_eq!(p.code().as_slice(), &[0x11, 0x02, 0x01]);
    assert_eq!(p.stack_size(), 0);
}

#[test]
fn deep_variables_past_the_peek_cap_are_refused() {
    let mut source = String::new();
    for i in 0..17 {
        source.push_str(&format!("let v{} = {};", to_name(i), i));
    }
    source.push_str("v");
    source.push_str(&to_name(0));
    source.push_str(";");
    let r = Program::from_source(&source);
    assert!(matches!(
        r,
        Err(ledscript::program::SyntaxError::PostfixLimit("peek", _))
    ));
}

fn to_name(mut i: u32) -> String {
    let mut s = String::new();
    loop {
        s.push((b'a' + (i % 26) as u8) as char);
        i /= 26;
        if i == 0 {
            return s;
        }
    }
}

#[test]
fn set_pixel_with_constant_channels_folds_the_color_to_one_push() {
    // index: USER get_length; color: one PUSHI of 0x000080FF; then
    // USER set_pixel and the POP of the index
    let p: Program = Program::from_source("set_pixel(get_length, 255, 128, 0, 0);").unwrap();
    assert_eq!(
        p.code().as_slice(),
        &[0xE0, 0x31, 0xFF, 0x80, 0x00, 0x00, 0xE3, 0x01]
    );
    assert_eq!(p.stack_size(), 0);
}

#[test]
fn clamp_of_runtime_values_leaves_one_value() {
    let (rest, e) = expression("clamp(get_length, 1, 10)").unwrap();
    assert_eq!(rest, "");
    let mut p = Program::new();
    let mut scope = Scope::new();
    e.assemble(&mut p, &mut scope).unwrap();
    assert_eq!(p.stack_size(), 1);
}

#[test]
fn literal_expression_is_its_own_value() {
    let e = Expression::Literal(42);
    assert_eq!(e.const_value(), Some(42));
}
