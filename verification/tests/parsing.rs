//! Parser behavior: token-level results and whole-program parses.

use ledscript::ast::{Expression, Node};
use ledscript::compile::{expression, program, FromSource};
use ledscript::instructions;
use ledscript::program::{Program, SyntaxError};
use ledscript::Scope;

#[test]
fn check_decimal_literal() {
    assert_eq!(expression("0x0000CC"), Ok(("", Expression::Literal(204))));
}

#[test]
fn check_hex_literal() {
    assert_eq!(expression("1337"), Ok(("", Expression::Literal(1337))));
}

#[test]
fn check_parsing_addition() {
    assert_eq!(
        expression("1+2"),
        Ok((
            "",
            Expression::Binary(
                Box::new(Expression::Literal(1)),
                instructions::Binary::ADD,
                Box::new(Expression::Literal(2))
            )
        ))
    );
}

#[test]
fn check_parsing_multiplication() {
    assert_eq!(
        expression("1*2"),
        Ok((
            "",
            Expression::Binary(
                Box::new(Expression::Literal(1)),
                instructions::Binary::MUL,
                Box::new(Expression::Literal(2))
            )
        ))
    );
}

#[test]
fn check_parsing_subtraction() {
    assert_eq!(
        expression("1-2"),
        Ok((
            "",
            Expression::Binary(
                Box::new(Expression::Literal(1)),
                instructions::Binary::SUB,
                Box::new(Expression::Literal(2))
            )
        ))
    );
}

#[test]
fn check_parsing_division() {
    assert_eq!(
        expression("1/2"),
        Ok((
            "",
            Expression::Binary(
                Box::new(Expression::Literal(1)),
                instructions::Binary::DIV,
                Box::new(Expression::Literal(2))
            )
        ))
    );
}

#[test]
fn check_parsing_mod() {
    assert_eq!(
        expression("1%2"),
        Ok((
            "",
            Expression::Binary(
                Box::new(Expression::Literal(1)),
                instructions::Binary::MOD,
                Box::new(Expression::Literal(2))
            )
        ))
    );
}

#[test]
fn check_compiler_basic_program() {
    if let Ok((remainder, n)) = program("loop{if(1+2*3>4){blit;};\ndump}") {
        assert_eq!(remainder, "");
        let mut program = Program::new();
        let mut scope = Scope::new();
        n.assemble(&mut program, &mut scope).unwrap();
        scope.assemble_teardown(&mut program).unwrap();
    }
}

#[test]
#[should_panic]
fn check_undefined_variable() {
    let (remainder, _) = program("loop{some_undefined_variable;};").unwrap();
    assert_eq!(remainder, "");
}

#[test]
#[should_panic]
fn check_not_terminated_line() {
    let (remainder, _) = program("loop{let a=1+1\n1+2};").unwrap();
    assert_eq!(remainder, "");
}

#[test]
fn comments_and_whitespace_are_skipped() {
    let compiled = Program::from_source("let a = 1; /* set it */ a = 2; // done\nblit;").unwrap();
    assert_eq!(compiled.stack_size(), 0);
}

#[test]
fn empty_expression_is_a_parse_error() {
    assert!(matches!(expression(""), Err(SyntaxError::ParseError(_))));
}

#[test]
fn trailing_garbage_is_reported_with_the_remainder() {
    match Program::from_source("blit; @nope") {
        Err(SyntaxError::CouldNotParseRamainder(rest)) => assert_eq!(rest, "@nope"),
        other => panic!("expected a remainder error, got {:?}", other.map(|p| p.code().clone())),
    }
}

#[test]
fn a_bare_hex_prefix_falls_back_to_a_decimal_zero() {
    assert_eq!(expression("0x"), Ok(("x", Expression::Literal(0))));
}

#[test]
fn shift_by_literal_eight_becomes_a_byte_shift() {
    assert_eq!(
        expression("x<<8"),
        Ok((
            "",
            Expression::Unary(
                instructions::Unary::SHL8,
                Box::new(Expression::Load(String::from("x")))
            )
        ))
    );
}

#[test]
fn undefined_variable_fails_at_assembly() {
    match Program::from_source("a = 1;") {
        Err(SyntaxError::UndefinedVariable(name)) => assert_eq!(name, "a"),
        other => panic!("expected an undefined variable, got {:?}", other.is_ok()),
    }
}

#[test]
fn redefined_variable_fails_at_assembly() {
    match Program::from_source("let a = 1; let a = 2;") {
        Err(SyntaxError::RedifinedVariable(name)) => assert_eq!(name, "a"),
        other => panic!("expected a redefined variable, got {:?}", other.is_ok()),
    }
}

#[test]
fn set_pixel_statement_needs_all_arguments() {
    let node = Node::UserCall(instructions::UserCommand::SET_PIXEL, vec![]);
    let mut p = Program::new();
    let mut scope = Scope::new();
    assert!(matches!(
        node.assemble(&mut p, &mut scope),
        Err(SyntaxError::ParseError(_))
    ));
}
