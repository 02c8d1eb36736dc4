//! The lexical scope chain: depths on the value stack, declarations and
//! teardown.

use ledscript::ast::Node;
use ledscript::instructions::UserCommand;
use ledscript::program::{Program, SyntaxError};
use ledscript::Scope;

#[test]
fn the_root_scope_cannot_be_closed() {
    let mut scope = Scope::new();
    let mut p = Program::new();
    assert!(matches!(scope.unnest(&mut p), Err(SyntaxError::ConnotUnnest)));
}

#[test]
fn a_nested_scope_closes_and_pops_its_variables() {
    let mut scope = Scope::new();
    let mut p = Program::new();
    scope.nest();
    p.push(1).unwrap();
    scope.level_up();
    scope.define_variable("a").unwrap();
    scope.unnest(&mut p).unwrap();
    // PUSHB 1, then a POP 1 for the torn-down variable
    assert_eq!(p.code().as_slice(), &[0x11, 0x01, 0x01]);
    assert_eq!(p.stack_size(), 0);
}

#[test]
fn depths_count_values_pushed_since_declaration() {
    let mut scope = Scope::new();
    let mut p = Program::new();
    p.push(1).unwrap();
    scope.level_up();
    scope.define_variable("a").unwrap();
    assert_eq!(scope.index_of("a"), Some(0));
    p.push(2).unwrap();
    scope.level_up();
    assert_eq!(scope.index_of("a"), Some(1));
    scope.define_variable("b").unwrap();
    assert_eq!(scope.index_of("b"), Some(0));
    // a nested scope adds its own level on top of the walk
    scope.nest();
    p.push(3).unwrap();
    scope.level_up();
    assert_eq!(scope.index_of("a"), Some(2));
    assert_eq!(scope.index_of("b"), Some(1));
    assert_eq!(scope.index_of("c"), None);
}

#[test]
fn undefining_removes_only_the_named_variable() {
    let mut scope = Scope::new();
    scope.level_up();
    scope.define_variable("a").unwrap();
    scope.level_up();
    scope.define_variable("b").unwrap();
    scope.undefine_variable("a").unwrap();
    assert!(matches!(
        scope.undefine_variable("a"),
        Err(SyntaxError::UndefinedVariable(_))
    ));
    assert_eq!(scope.index_of("b"), Some(1));
}

#[test]
fn duplicate_declarations_in_one_scope_are_refused() {
    let mut scope = Scope::new();
    scope.level_up();
    scope.define_variable("a").unwrap();
    scope.level_up();
    match scope.define_variable("a") {
        Err(SyntaxError::RedifinedVariable(name)) => assert_eq!(name, "a"),
        other => panic!("expected a redefinition error, got {:?}", other),
    }
    // the same name in a nested scope shadows without complaint
    scope.nest();
    scope.level_up();
    scope.define_variable("a").unwrap();
    assert_eq!(scope.index_of("a"), Some(0));
}

#[test]
fn leave_on_stack_outside_any_code_is_refused() {
    let mut p = Program::new();
    // with no code emitted, no imbalance can be declared
    assert!(matches!(
        p.leave_on_stack(1),
        Err(SyntaxError::StackSizeOutOfRange)
    ));
}

#[test]
fn a_bare_host_push_statement_is_refused() {
    let node = Node::User(UserCommand::GET_LENGTH);
    let mut p = Program::new();
    let mut scope = Scope::new();
    assert!(matches!(
        node.assemble(&mut p, &mut scope),
        Err(SyntaxError::StackSizeOutOfRange)
    ));
}
