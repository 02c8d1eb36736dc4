//! The compile boundary: parse a whole source text and lower it to
//! bytecode. After a successful compilation the builder's static stack
//! counter is zero: every value the program pushes while it runs is
//! accounted for and discarded by scope teardown.

use vstd::prelude::*;

verus! {

use crate::ast::{spec_fully_constant, Expression, Node, Scope};
use crate::parser::{expression_at, program_at, spec_dec_val, spec_numeral_tail};
use crate::program::{Program, SyntaxError};

/// Parse one expression at the start of the input; on a match, the
/// unconsumed remainder and the expression.
pub fn expression(input: &str) -> (r: Result<(&str, Expression), SyntaxError>)
    ensures
        r matches Ok((rem, _)) ==> exists|p: int|
            0 <= p <= input@.len() && rem@ == input@.subrange(p, input@.len() as int),
        spec_numeral_tail(input@, 0) ==> (r matches Ok((rem, e2)) && rem@ == Seq::<char>::empty()
            && e2 == Expression::Literal(
            spec_dec_val(input@.subrange(0, input@.len() as int)) as u32,
        )),
{
    let n = input.unicode_len();
    match expression_at(input, 0) {
        Some((p, e)) => {
            let rem = input.substring_char(p, n);
            proof {
                if spec_numeral_tail(input@, 0) {
                    assert(rem@ =~= Seq::<char>::empty());
                }
            }
            Ok((rem, e))
        },
        None => Err(SyntaxError::ParseError("expected an expression".to_owned())),
    }
}

/// Parse a whole program — a statement list — at the start of the input:
/// the unconsumed remainder and the parsed statements.
pub fn program(input: &str) -> (r: Result<(&str, Node), SyntaxError>)
    ensures
        r matches Ok((rem, _)) ==> exists|p: int|
            0 <= p <= input@.len() && rem@ == input@.subrange(p, input@.len() as int),
        r matches Ok((rem, n)) ==> n is Statements,
        spec_numeral_tail(input@, 0) ==> (r matches Ok((rem, nd)) && rem@ == Seq::<
            char,
        >::empty() && (nd matches Node::Statements(items) && items@ == seq![
            Node::Expression(
                Expression::Literal(
                    spec_dec_val(input@.subrange(0, input@.len() as int)) as u32,
                ),
            ),
        ])),
{
    let n = input.unicode_len();
    let (p, items) = program_at(input, 0);
    let rem = input.substring_char(p, n);
    proof {
        if spec_numeral_tail(input@, 0) {
            assert(rem@ =~= Seq::<char>::empty());
        }
    }
    Ok((rem, Node::Statements(items)))
}

/// Building a `Program` from a source text.
pub trait FromSource where Self: core::marker::Sized {
    /// Compile `source`. On success the program's code is based at address
    /// zero and its static stack counter is zero: the program's scopes
    /// balance (see `SyntaxError` for the failures).
    fn from_source(source: &str) -> (r: Result<Program, SyntaxError>)
        ensures
            r matches Ok(p) ==> p.wf() && p@.stack_size == 0 && p@.offset == 0,
    ;
}

impl FromSource for Program {
    fn from_source(source: &str) -> (r: Result<Program, SyntaxError>)
        ensures
            r matches Ok(p) ==> p.wf() && p@.stack_size == 0 && p@.offset == 0,
            r matches Err(e) ==> (e matches SyntaxError::CouldNotParseRamainder(rest) ==> {
                &&& rest@.len() > 0
                &&& exists|q: int|
                    0 <= q <= source@.len() && rest@ == source@.subrange(q, source@.len() as int)
            }),
            spec_numeral_tail(source@, 0) ==> (r matches Ok(p) && p@.code
                == crate::program::spec_push_encoding(
                spec_dec_val(source@.subrange(0, source@.len() as int)) as u32,
            ) + seq![0x01u8]),
    {
        let n = source.unicode_len();
        let (end, items) = program_at(source, 0);
        if end < n {
            let rem = source.substring_char(end, n);
            return Err(SyntaxError::CouldNotParseRamainder(rem.to_owned()));
        }
        let ghost items_view = items@;
        let node = Node::Statements(items);
        let mut compiled = Program::new();
        let mut scope = Scope::new();
        proof {
            if spec_numeral_tail(source@, 0) {
                let v32 = spec_dec_val(source@.subrange(0, source@.len() as int)) as u32;
                assert(node->Statements_0@ == seq![
                    Node::Expression(Expression::Literal(v32)),
                ]);
                assert(node->Statements_0@[0] == Node::Expression(Expression::Literal(v32)));
                assert(spec_fully_constant(Expression::Literal(v32)));
            }
        }
        node.assemble(&mut compiled, &mut scope)?;
        scope.assemble_teardown(&mut compiled)?;
        proof {
            if spec_numeral_tail(source@, 0) {
                assert(compiled@.code =~= crate::program::spec_push_encoding(
                    spec_dec_val(source@.subrange(0, source@.len() as int)) as u32,
                ) + seq![0x01u8]);
            }
        }
        Ok(compiled)
    }
}

} // verus!
