//! The abstract syntax tree and its lowering to bytecode: statements and
//! expressions, the lexical scope chain whose variables live at known
//! offsets on the run-time value stack, constant folding, and the
//! scope-aware emitter.

use vstd::prelude::*;

verus! {

use crate::instructions;
use crate::program::{Program, SyntaxError, CODE_MAX, POSTFIX_MAX};

/// Compiler intrinsics: operations lowered to primitive opcodes.
#[derive(Debug, PartialEq)]
pub enum Intrinsic {
    /// `clamp(value, min, max)`.
    Clamp(Box<Expression>, Box<Expression>, Box<Expression>),
}

/// An expression: evaluated for one word left on the value stack.
#[derive(Debug, PartialEq)]
pub enum Expression {
    Literal(u32),
    Unary(instructions::Unary, Box<Expression>),
    Binary(Box<Expression>, instructions::Binary, Box<Expression>),
    User(instructions::UserCommand),
    UserCall(instructions::UserCommand, Vec<Expression>),
    Load(String),
    Intrinsic(Intrinsic),
}

/// A statement node.
#[derive(Debug, PartialEq)]
pub enum Node {
    Expression(Expression),
    Special(instructions::Special),
    UserCall(instructions::UserCommand, Vec<Expression>),
    User(instructions::UserCommand),
    Statements(Vec<Node>),
    Loop(Vec<Node>),
    If(Expression, Vec<Node>),
    IfElse(Expression, Vec<Node>, Vec<Node>),
    NewVarAssignment(String, Expression),
    VarAssignment(String, Expression),
    For(String, Expression, Vec<Node>),
}

/// The size of an expression, as the termination measure of the emitter.
pub open spec fn expr_size(e: Expression) -> nat
    decreases e,
{
    match e {
        Expression::Literal(_) => 1,
        Expression::User(_) => 1,
        Expression::Load(_) => 1,
        Expression::Unary(_, rhs) => 1 + expr_size(*rhs),
        Expression::Binary(lhs, _, rhs) => 1 + expr_size(*lhs) + expr_size(*rhs),
        Expression::UserCall(_, e) => 1 + exprs_size(e@),
        Expression::Intrinsic(i) => match i {
            Intrinsic::Clamp(v, lo, hi) => 1 + expr_size(*v) + expr_size(*lo) + expr_size(*hi),
        },
    }
}

/// The summed size of a sequence of expressions.
pub open spec fn exprs_size(s: Seq<Expression>) -> nat
    decreases s,
{
    if s.len() == 0 {
        0
    } else {
        expr_size(s[0]) + exprs_size(s.skip(1))
    }
}

/// The size of a statement, as the termination measure of the emitter.
pub open spec fn node_size(n: Node) -> nat
    decreases n,
{
    match n {
        Node::Expression(e) => 1 + expr_size(e),
        Node::Special(_) => 1,
        Node::User(_) => 1,
        Node::UserCall(_, e) => 1 + exprs_size(e@),
        Node::Statements(ns) => 1 + nodes_size(ns@),
        Node::Loop(ns) => 1 + nodes_size(ns@),
        Node::If(e, ns) => 1 + expr_size(e) + nodes_size(ns@),
        Node::IfElse(e, t, f) => 1 + expr_size(e) + nodes_size(t@) + nodes_size(f@),
        Node::NewVarAssignment(_, e) => 1 + expr_size(e),
        Node::VarAssignment(_, e) => 1 + expr_size(e),
        Node::For(_, e, ns) => 1 + expr_size(e) + nodes_size(ns@),
    }
}

/// The summed size of a sequence of statements.
pub open spec fn nodes_size(s: Seq<Node>) -> nat
    decreases s,
{
    if s.len() == 0 {
        0
    } else {
        node_size(s[0]) + nodes_size(s.skip(1))
    }
}

/// An element weighs no more than its whole sequence.
proof fn lemma_exprs_size_elem(s: Seq<Expression>, i: int)
    requires
        0 <= i < s.len(),
    ensures
        expr_size(s[i]) <= exprs_size(s),
    decreases s.len(),
{
    if i > 0 {
        lemma_exprs_size_elem(s.skip(1), i - 1);
        assert(s.skip(1)[i - 1] == s[i]);
    }
}

/// An element weighs no more than its whole sequence.
proof fn lemma_nodes_size_elem(s: Seq<Node>, i: int)
    requires
        0 <= i < s.len(),
    ensures
        node_size(s[i]) <= nodes_size(s),
    decreases s.len(),
{
    if i > 0 {
        lemma_nodes_size_elem(s.skip(1), i - 1);
        assert(s.skip(1)[i - 1] == s[i]);
    }
}

/// The new code grew out of the old: emitters only append.
pub open spec fn spec_extends(old_code: Seq<u8>, new_code: Seq<u8>) -> bool {
    exists|tail: Seq<u8>| new_code == #[trigger] (old_code + tail)
}

/// Appending is transitive.
pub proof fn lemma_extends_trans(a: Seq<u8>, b: Seq<u8>, c: Seq<u8>)
    requires
        spec_extends(a, b),
        spec_extends(b, c),
    ensures
        spec_extends(a, c),
{
    let t1 = choose|t: Seq<u8>| b == a + t;
    let t2 = choose|t: Seq<u8>| c == b + t;
    assert(c =~= a + (t1 + t2));
}

/// The code an `if` statement lowers to: the condition's code, a `JZ`
/// past the guarded body, the body itself, and the `POP 1` that discards
/// the condition — needed because conditional jumps do not consume the
/// tested value.
pub open spec fn spec_if_lowering(
    old_code: Seq<u8>,
    cond: Seq<u8>,
    body: Seq<u8>,
    base: int,
    new_code: Seq<u8>,
) -> bool {
    new_code == old_code + cond + seq![0x50u8] + crate::program::spec_addr_bytes(
        base + cond.len() + 3 + body.len(),
    ) + body + seq![0x01u8]
}

/// Some condition code and body fill the `if` shape.
pub open spec fn spec_lowers_if(old_code: Seq<u8>, base: int, new_code: Seq<u8>) -> bool {
    exists|cond: Seq<u8>, body: Seq<u8>|
        #[trigger] spec_if_lowering(old_code, cond, body, base, new_code)
}

/// The code an `if/else` lowers to: the condition, the `JZ`-guarded then
/// body, the `JNZ`-guarded else body, and the `POP 1` of the condition.
pub open spec fn spec_if_else_lowering(
    old_code: Seq<u8>,
    cond: Seq<u8>,
    then_body: Seq<u8>,
    else_body: Seq<u8>,
    base: int,
    new_code: Seq<u8>,
) -> bool {
    new_code == old_code + cond + seq![0x50u8] + crate::program::spec_addr_bytes(
        base + cond.len() + 3 + then_body.len(),
    ) + then_body + seq![0x60u8] + crate::program::spec_addr_bytes(
        base + cond.len() + 3 + then_body.len() + 3 + else_body.len(),
    ) + else_body + seq![0x01u8]
}

/// Some condition code and branch bodies fill the `if/else` shape.
pub open spec fn spec_lowers_if_else(old_code: Seq<u8>, base: int, new_code: Seq<u8>) -> bool {
    exists|cond: Seq<u8>, then_body: Seq<u8>, else_body: Seq<u8>|
        #[trigger] spec_if_else_lowering(old_code, cond, then_body, else_body, base, new_code)
}

/// The tail a `set_pixel` statement always ends in: the arguments' code,
/// then `USER set_pixel` and the `POP 1` that discards the index.
pub open spec fn spec_set_pixel_tail(
    old_code: Seq<u8>,
    args_code: Seq<u8>,
    new_code: Seq<u8>,
) -> bool {
    new_code == old_code + args_code + seq![0xE3u8, 0x01u8]
}

/// Some argument code fills the `set_pixel` shape.
pub open spec fn spec_lowers_set_pixel(old_code: Seq<u8>, new_code: Seq<u8>) -> bool {
    exists|args_code: Seq<u8>| #[trigger] spec_set_pixel_tail(old_code, args_code, new_code)
}

/// The word `set_pixel`'s four constant color channels pack into:
/// `(c1 & 0xFF) | ((c2 & 0xFF) << 8) | ((c3 & 0xFF) << 16)`, with the
/// alpha channel `c4` carried in the top byte and discarded at the pixel
/// write.
pub open spec fn spec_packed_color(c1: u32, c2: u32, c3: u32, c4: u32) -> u32 {
    (c1 % 256 + (c2 % 256) * 256 + (c3 % 256) * 65536 + (c4 % 256) * 16777216) as u32
}

/// A `set_pixel` with constant channels: the index's code, one push of
/// the packed color, `USER set_pixel`, `POP 1`.
pub open spec fn spec_set_pixel_folded(
    old_code: Seq<u8>,
    idx_code: Seq<u8>,
    packed: u32,
    new_code: Seq<u8>,
) -> bool {
    new_code == old_code + idx_code + crate::program::spec_push_encoding(packed) + seq![
        0xE3u8,
        0x01u8,
    ]
}

/// Some index code fills the folded `set_pixel` shape.
pub open spec fn spec_lowers_set_pixel_folded(
    old_code: Seq<u8>,
    packed: u32,
    new_code: Seq<u8>,
) -> bool {
    exists|idx_code: Seq<u8>| #[trigger] spec_set_pixel_folded(old_code, idx_code, packed, new_code)
}

/// The value an expression reduces to at compile time, when it has one:
/// the same wrapping 32-bit semantics the instructions apply at run time.
/// `Load`, host calls, unary `NEG`, and division or remainder by a
/// constant zero do not fold.
pub open spec fn spec_const_value(e: Expression) -> Option<u32>
    decreases e,
{
    match e {
        Expression::Literal(u) => Some(u),
        Expression::UserCall(_, _) => None,
        Expression::User(_) => None,
        Expression::Load(_) => None,
        Expression::Binary(lhs, op, rhs) => match (
            spec_const_value(*lhs),
            spec_const_value(*rhs),
        ) {
            (Some(a), Some(b)) => op.spec_apply(a, b),
            _ => None,
        },
        Expression::Unary(op, rhs) => match spec_const_value(*rhs) {
            Some(c) => if op is NEG {
                None
            } else {
                Some(op.spec_apply(c))
            },
            None => None,
        },
        Expression::Intrinsic(i) => match i {
            Intrinsic::Clamp(value, lo, hi) => match (
                spec_const_value(*value),
                spec_const_value(*lo),
                spec_const_value(*hi),
            ) {
                (Some(v), Some(l), Some(h)) => {
                    let raised = if v < l {
                        l
                    } else {
                        v
                    };
                    Some(
                        if raised > h {
                            h
                        } else {
                            raised
                        },
                    )
                },
                _ => None,
            },
        },
    }
}

impl Expression {
    /// Reduce this expression to a constant when possible (see
    /// `spec_const_value`).
    pub fn const_value(&self) -> (r: Option<u32>)
        ensures
            r == spec_const_value(*self),
        decreases *self,
    {
        match self {
            Expression::Literal(u) => Some(*u),
            Expression::UserCall(_, _) => None,
            Expression::User(_) => None,
            Expression::Load(_) => None,
            Expression::Binary(lhs, op, rhs) => match (lhs.const_value(), rhs.const_value()) {
                (Some(a), Some(b)) => match op.apply(a, b) {
                    Ok(v) => Some(v),
                    Err(_) => None,
                },
                _ => None,
            },
            Expression::Unary(op, rhs) => match rhs.const_value() {
                Some(c) => match op {
                    instructions::Unary::NEG => None,
                    _ => Some(op.apply(c)),
                },
                None => None,
            },
            Expression::Intrinsic(i) => match i {
                Intrinsic::Clamp(value, lo, hi) => match (
                    value.const_value(),
                    lo.const_value(),
                    hi.const_value(),
                ) {
                    (Some(v), Some(l), Some(h)) => {
                        let raised = if v < l {
                            l
                        } else {
                            v
                        };
                        Some(
                            if raised > h {
                                h
                            } else {
                                raised
                            },
                        )
                    },
                    _ => None,
                },
            },
        }
    }
}

/// An expression whose leaves are all literals, combined by the defined
/// unary and binary operations and `clamp` — leaving out unary `NEG`,
/// which does not fold, and division or remainder by a constant zero,
/// which is left to fail at run time.
pub open spec fn spec_fully_constant(e: Expression) -> bool
    decreases e,
{
    match e {
        Expression::Literal(_) => true,
        Expression::Unary(op, rhs) => !(op is NEG) && spec_fully_constant(*rhs),
        Expression::Binary(lhs, op, rhs) => {
            &&& spec_fully_constant(*lhs)
            &&& spec_fully_constant(*rhs)
            &&& ((op is DIV || op is MOD) ==> spec_const_value(*rhs) != Some(0u32))
        },
        Expression::Intrinsic(i) => match i {
            Intrinsic::Clamp(v, lo, hi) => spec_fully_constant(*v) && spec_fully_constant(*lo)
                && spec_fully_constant(*hi),
        },
        Expression::User(_) => false,
        Expression::UserCall(_, _) => false,
        Expression::Load(_) => false,
    }
}

/// Constant folding is sound and total on fully constant expressions:
/// such an expression always has a compile-time value — the wrapping
/// 32-bit computation of `spec_const_value` — and by
/// `Expression::assemble`'s contract it compiles to a single push of
/// exactly that value.
pub proof fn lemma_constant_folding(e: Expression)
    requires
        spec_fully_constant(e),
    ensures
        spec_const_value(e) is Some,
    decreases e,
{
    match e {
        Expression::Unary(op, rhs) => {
            lemma_constant_folding(*rhs);
        },
        Expression::Binary(lhs, op, rhs) => {
            lemma_constant_folding(*lhs);
            lemma_constant_folding(*rhs);
        },
        Expression::Intrinsic(i) => match i {
            Intrinsic::Clamp(v, lo, hi) => {
                lemma_constant_folding(*v);
                lemma_constant_folding(*lo);
                lemma_constant_folding(*hi);
            },
        },
        _ => {},
    }
}

/// The mathematical content of one scope frame: its variable names in
/// declaration order, and how many values this frame has pushed onto the
/// value stack since its creation.
#[verifier::ext_equal]
pub struct FrameV {
    pub vars: Seq<Seq<char>>,
    pub level: int,
}

/// One lexical scope: its declared variables and its level counter.
struct ScopeFrame {
    variables: Vec<String>,
    level: u64,
}

/// A chain of lexical scopes, innermost last. Variables live directly on
/// the value stack: a variable's current depth is computed from the
/// levels of the frames inside the one that declared it.
pub struct Scope {
    frames: Vec<ScopeFrame>,
}

impl View for Scope {
    type V = Seq<FrameV>;

    closed spec fn view(&self) -> Seq<FrameV> {
        self.frames@.map(
            |i: int, f: ScopeFrame| FrameV { vars: f.variables.deep_view(), level: f.level as int },
        )
    }
}

/// The position of the first occurrence of `name` in `vars`, if any.
pub open spec fn spec_first_position(vars: Seq<Seq<char>>, name: Seq<char>) -> Option<int>
    decreases vars.len(),
{
    if vars.len() == 0 {
        None
    } else if vars[0] == name {
        Some(0int)
    } else {
        match spec_first_position(vars.skip(1), name) {
            Some(p) => Some(p + 1),
            None => None,
        }
    }
}

/// The stack depth of `name` as seen from the innermost frame: within the
/// declaring frame it lies `level - 1 - position` below the values that
/// frame pushed (floored at zero, as the walk computes it), and each
/// frame inside the declaring one adds its own level on top.
pub open spec fn spec_depth_of(frames: Seq<FrameV>, name: Seq<char>) -> Option<int>
    decreases frames.len(),
{
    if frames.len() == 0 {
        None
    } else {
        let f = frames.last();
        match spec_first_position(f.vars, name) {
            Some(p) => Some(
                if f.level - 1 - p >= 0 {
                    f.level - 1 - p
                } else {
                    0int
                },
            ),
            None => match spec_depth_of(frames.drop_last(), name) {
                Some(d) => Some(d + f.level),
                None => None,
            },
        }
    }
}

/// Over frames whose levels are counts, a found depth is never negative.
pub proof fn lemma_depth_nonneg(frames: Seq<FrameV>, name: Seq<char>)
    requires
        forall|i: int| 0 <= i < frames.len() ==> frames[i].level >= 0,
    ensures
        spec_depth_of(frames, name) is Some ==> spec_depth_of(frames, name)->Some_0 >= 0,
    decreases frames.len(),
{
    if frames.len() > 0 {
        assert(forall|i: int|
            0 <= i < frames.drop_last().len() ==> frames.drop_last()[i] == frames[i]);
        lemma_depth_nonneg(frames.drop_last(), name);
    }
}

/// Whether a name is found at all depends only on the declared variables,
/// not on the frames' level counters.
pub proof fn lemma_depth_found_by_vars(a: Seq<FrameV>, b: Seq<FrameV>, name: Seq<char>)
    requires
        a.len() == b.len(),
        forall|i: int| 0 <= i < a.len() ==> #[trigger] a[i].vars == b[i].vars,
    ensures
        spec_depth_of(a, name) is Some <==> spec_depth_of(b, name) is Some,
    decreases a.len(),
{
    if a.len() > 0 {
        assert(a.last().vars == b.last().vars);
        if !(spec_first_position(a.last().vars, name) is Some) {
            assert(forall|i: int|
                0 <= i < a.drop_last().len() ==> #[trigger] a.drop_last()[i].vars
                    == b.drop_last()[i].vars);
            lemma_depth_found_by_vars(a.drop_last(), b.drop_last(), name);
        }
    }
}

/// A depth clipped to what a `u32` can carry; depths this large can never
/// name an emittable `PEEK`, whose cap is `POSTFIX_MAX`.
pub open spec fn spec_clip_u32(d: int) -> u32 {
    if d > u32::MAX {
        u32::MAX
    } else {
        d as u32
    }
}

/// Compare two strings by contents.
fn str_eq(a: &str, b: &str) -> (r: bool)
    ensures
        r == (a@ == b@),
{
    let alen = a.unicode_len();
    let blen = b.unicode_len();
    if alen != blen {
        proof {
            assert(a@ != b@);
        }
        return false;
    }
    let mut i: usize = 0;
    while i < alen
        invariant
            alen == a@.len(),
            alen == b@.len(),
            i <= alen,
            forall|k: int| 0 <= k < i ==> a@[k] == b@[k],
        decreases alen - i,
    {
        if a.get_char(i) != b.get_char(i) {
            return false;
        }
        i += 1;
    }
    proof {
        assert(a@ =~= b@);
    }
    true
}

impl ScopeFrame {
    /// The position of the first occurrence of `name` among this frame's
    /// variables.
    fn position_of(&self, name: &str) -> (r: Option<usize>)
        ensures
            match r {
                Some(p) => p < self.variables@.len() && spec_first_position(
                    self.variables.deep_view(),
                    name@,
                ) == Some(p as int),
                None => spec_first_position(self.variables.deep_view(), name@) is None,
            },
    {
        let mut i: usize = 0;
        let n = self.variables.len();
        proof {
            assert(self.variables.deep_view().skip(0) =~= self.variables.deep_view());
        }
        while i < n
            invariant
                n == self.variables@.len(),
                i <= n,
                spec_first_position(self.variables.deep_view(), name@) == (match
                    spec_first_position(self.variables.deep_view().skip(i as int), name@) {
                    Some(p) => Some(p + i),
                    None => None::<int>,
                }),
            decreases n - i,
        {
            let ghost pre = self.variables.deep_view().skip(i as int);
            if str_eq(self.variables[i].as_str(), name) {
                proof {
                    assert(pre[0] == self.variables.deep_view()[i as int]);
                    assert(spec_first_position(pre, name@) == Some(0int));
                }
                return Some(i);
            }
            proof {
                assert(pre[0] == self.variables.deep_view()[i as int]);
                assert(pre.skip(1) =~= self.variables.deep_view().skip(i + 1));
            }
            i += 1;
        }
        proof {
            assert(self.variables.deep_view().skip(i as int).len() == 0);
        }
        None
    }
}

impl Scope {
    /// A fresh scope chain holding only the root scope.
    pub fn new() -> (r: Scope)
        ensures
            r@.len() == 1,
            r@[0].vars == Seq::<Seq<char>>::empty(),
            r@[0].level == 0,
    {
        let mut frames = Vec::new();
        frames.push(ScopeFrame { variables: Vec::new(), level: 0 });
        let r = Scope { frames };
        proof {
            assert(r@[0].vars =~~= Seq::<Seq<char>>::empty());
        }
        r
    }

    /// Open a nested scope: a new innermost frame with no variables and a
    /// zero level.
    pub fn nest(&mut self)
        ensures
            final(self)@ == old(self)@ + seq![FrameV { vars: Seq::<Seq<char>>::empty(), level: 0 }],
    {
        self.frames.push(ScopeFrame { variables: Vec::new(), level: 0 });
        proof {
            assert(self@ =~~= old(self)@ + seq![
                FrameV { vars: Seq::<Seq<char>>::empty(), level: 0 },
            ]);
        }
    }

    /// Close the innermost scope: emit one `POP` for all the variables it
    /// declared, then remove the frame. The root scope cannot be closed.
    pub fn unnest(&mut self, program: &mut Program) -> (r: Result<(), SyntaxError>)
        requires
            old(program).wf(),
            old(self)@.len() >= 1,
        ensures
            final(program).wf(),
            final(program)@.offset == old(program)@.offset,
            match r {
                Ok(()) => {
                    &&& old(self)@.len() >= 2
                    &&& final(self)@ == old(self)@.drop_last()
                    &&& old(self)@.last().vars.len() <= POSTFIX_MAX
                    &&& final(program)@.stack_size == old(program)@.stack_size - old(self)@.last().vars.len()
                    &&& (if old(self)@.last().vars.len() == 0 {
                        final(program)@.code == old(program)@.code
                    } else {
                        final(program)@.code == old(program)@.code + seq![
                            ((old(self)@.last().vars.len()) as u8),
                        ]
                    })
                },
                Err(e) => {
                    &&& final(self)@ == old(self)@
                    &&& final(program)@ == old(program)@
                    &&& (old(self)@.len() < 2 <==> e == SyntaxError::ConnotUnnest)
                    &&& (old(self)@.len() >= 2 ==> (old(self)@.last().vars.len() > POSTFIX_MAX <==> (
                    e matches SyntaxError::PostfixLimit(n, _) && n@ == "pop"@)))
                    &&& (old(self)@.len() >= 2 && old(self)@.last().vars.len() <= POSTFIX_MAX ==> e
                        == SyntaxError::ProgramTooLarge && old(program).spec_current_pc() + 1
                        > CODE_MAX)
                },
            },
    {
        if self.frames.len() < 2 {
            return Err(SyntaxError::ConnotUnnest);
        }
        self.assemble_teardown(program)?;
        self.frames.pop();
        proof {
            assert(self@ =~~= old(self)@.drop_last());
        }
        Ok(())
    }

    /// Emit the teardown of the innermost scope: one `POP` discarding all
    /// the values its variables occupy (none when it declared none).
    /// Fails with the postfix-limit error when more variables were
    /// declared than one `POP` can discard.
    pub fn assemble_teardown(&self, program: &mut Program) -> (r: Result<(), SyntaxError>)
        requires
            old(program).wf(),
            self@.len() >= 1,
        ensures
            final(program).wf(),
            final(program)@.offset == old(program)@.offset,
            match r {
                Ok(()) => {
                    &&& self@.last().vars.len() <= POSTFIX_MAX
                    &&& final(program)@.stack_size == old(program)@.stack_size
                        - self@.last().vars.len()
                    &&& (if self@.last().vars.len() == 0 {
                        final(program)@.code == old(program)@.code
                    } else {
                        final(program)@.code == old(program)@.code + seq![
                            ((self@.last().vars.len()) as u8),
                        ]
                    })
                },
                Err(e) => {
                    &&& (self@.last().vars.len() > POSTFIX_MAX <==> (e matches
                        SyntaxError::PostfixLimit(n, _) && n@ == "pop"@))
                    &&& (self@.last().vars.len() <= POSTFIX_MAX ==> e == SyntaxError::ProgramTooLarge
                        && old(program).spec_current_pc() + 1 > CODE_MAX)
                    &&& final(program)@ == old(program)@
                },
            },
    {
        let count = self.frames[self.frames.len() - 1].variables.len();
        if count == 0 {
            return Ok(());
        }
        if count > POSTFIX_MAX as usize {
            let shown: u8 = if count > 255 {
                255
            } else {
                count as u8
            };
            return Err(SyntaxError::PostfixLimit("pop", shown));
        }
        program.pop(count as u8)
    }

    /// The current stack depth of `name`, clipped to a `u32`; `None` when
    /// no live scope declares it.
    pub fn index_of(&self, variable_name: &str) -> (r: Option<u32>)
        ensures
            match spec_depth_of(self@, variable_name@) {
                Some(d) => r == Some(spec_clip_u32(d)),
                None => r is None,
            },
    {
        let mut k = self.frames.len();
        let mut above: u64 = 0;
        let ghost exact_above: int = 0;
        proof {
            assert(self@.take(k as int) =~= self@);
        }
        while k > 0
            invariant
                k <= self.frames@.len(),
                self@.len() == self.frames@.len(),
                exact_above >= 0,
                above == (if exact_above > u64::MAX {
                    u64::MAX as int
                } else {
                    exact_above
                }),
                match spec_depth_of(self@, variable_name@) {
                    Some(d) => (match spec_depth_of(self@.take(k as int), variable_name@) {
                        Some(inner) => d == inner + exact_above,
                        None => false,
                    }),
                    None => spec_depth_of(self@.take(k as int), variable_name@) is None,
                },
            decreases k,
        {
            let ghost frames_here = self@.take(k as int);
            let f = &self.frames[k - 1];
            proof {
                assert(frames_here.last() == self@[k - 1]);
                assert(self@[k - 1].vars == f.variables.deep_view());
                assert(self@[k - 1].level == f.level as int);
            }
            match f.position_of(variable_name) {
                Some(p) => {
                    let contribution: u64 = if (p as u64) < f.level {
                        f.level - 1 - (p as u64)
                    } else {
                        0
                    };
                    let total: u64 = above.saturating_add(contribution);
                    let clipped: u32 = if total > 0xFFFF_FFFF {
                        0xFFFF_FFFF
                    } else {
                        total as u32
                    };
                    return Some(clipped);
                },
                None => {
                    proof {
                        assert(frames_here.drop_last() =~= self@.take(k - 1));
                    }
                    above = above.saturating_add(f.level);
                    proof {
                        exact_above = exact_above + f.level as int;
                    }
                    k = k - 1;
                },
            }
        }
        proof {
            assert(self@.take(0).len() == 0);
        }
        None
    }

    /// Declare `name` in the innermost scope, whose stack slot is the
    /// value most recently pushed. Fails when this scope already declares
    /// it.
    pub fn define_variable(&mut self, variable_name: &str) -> (r: Result<(), SyntaxError>)
        requires
            old(self)@.len() >= 1,
        ensures
            match r {
                Ok(()) => {
                    &&& spec_first_position(old(self)@.last().vars, variable_name@) is None
                    &&& final(self)@ == old(self)@.drop_last() + seq![
                        FrameV {
                            vars: old(self)@.last().vars + seq![variable_name@],
                            level: old(self)@.last().level,
                        },
                    ]
                },
                Err(e) => {
                    &&& spec_first_position(old(self)@.last().vars, variable_name@) is Some
                    &&& (e matches SyntaxError::RedifinedVariable(n) && n@ == variable_name@)
                    &&& final(self)@ == old(self)@
                },
            },
    {
        let last = self.frames.len() - 1;
        if self.frames[last].position_of(variable_name).is_some() {
            return Err(SyntaxError::RedifinedVariable(variable_name.to_owned()));
        }
        let owned: String = variable_name.to_owned();
        let frame = &mut self.frames[last];
        frame.variables.push(owned);
        proof {
            assert(self@[last as int].vars =~~= old(self)@.last().vars + seq![variable_name@]);
            assert(self@ =~~= old(self)@.drop_last() + seq![
                FrameV {
                    vars: old(self)@.last().vars + seq![variable_name@],
                    level: old(self)@.last().level,
                },
            ]);
        }
        Ok(())
    }

    /// Remove `name` from the innermost scope's declarations. Fails when
    /// that scope does not declare it.
    pub fn undefine_variable(&mut self, variable_name: &str) -> (r: Result<(), SyntaxError>)
        requires
            old(self)@.len() >= 1,
        ensures
            match r {
                Ok(()) => {
                    &&& spec_first_position(old(self)@.last().vars, variable_name@) matches Some(p)
                        && final(self)@ == old(self)@.drop_last() + seq![
                        FrameV {
                            vars: old(self)@.last().vars.remove(p),
                            level: old(self)@.last().level,
                        },
                    ]
                },
                Err(e) => {
                    &&& spec_first_position(old(self)@.last().vars, variable_name@) is None
                    &&& (e matches SyntaxError::UndefinedVariable(n) && n@ == variable_name@)
                    &&& final(self)@ == old(self)@
                },
            },
    {
        let last = self.frames.len() - 1;
        match self.frames[last].position_of(variable_name) {
            Some(p) => {
                let frame = &mut self.frames[last];
                frame.variables.remove(p);
                proof {
                    let ghost pos = spec_first_position(
                        old(self)@.last().vars,
                        variable_name@,
                    ).unwrap();
                    assert(self@[last as int].vars =~~= old(self)@.last().vars.remove(pos));
                    assert(self@ =~~= old(self)@.drop_last() + seq![
                        FrameV {
                            vars: old(self)@.last().vars.remove(pos),
                            level: old(self)@.last().level,
                        },
                    ]);
                }
                Ok(())
            },
            None => Err(SyntaxError::UndefinedVariable(variable_name.to_owned())),
        }
    }

    /// How many values the innermost scope has pushed since it opened.
    pub fn top_level(&self) -> (r: u64)
        requires
            self@.len() >= 1,
        ensures
            r == self@.last().level,
    {
        self.frames[self.frames.len() - 1].level
    }

    /// Record one more value pushed in the innermost scope. The counter
    /// saturates rather than wrap; no real stack can reach its cap.
    pub fn level_up(&mut self)
        requires
            old(self)@.len() >= 1,
        ensures
            final(self)@.len() == old(self)@.len(),
            final(self)@.drop_last() == old(self)@.drop_last(),
            final(self)@.last().vars == old(self)@.last().vars,
            final(self)@.last().level == (if old(self)@.last().level < u64::MAX {
                old(self)@.last().level + 1
            } else {
                old(self)@.last().level
            }),
    {
        let last = self.frames.len() - 1;
        let frame = &mut self.frames[last];
        frame.level = frame.level.saturating_add(1);
        proof {
            assert(self@.drop_last() =~~= old(self)@.drop_last());
            assert(self@.last().vars == old(self)@.last().vars);
        }
    }

    /// Record one value popped in the innermost scope. The counter floors
    /// at zero rather than wrap.
    pub fn level_down(&mut self)
        requires
            old(self)@.len() >= 1,
        ensures
            final(self)@.len() == old(self)@.len(),
            final(self)@.drop_last() == old(self)@.drop_last(),
            final(self)@.last().vars == old(self)@.last().vars,
            final(self)@.last().level == (if old(self)@.last().level > 0 {
                old(self)@.last().level - 1
            } else {
                0int
            }),
    {
        let last = self.frames.len() - 1;
        let frame = &mut self.frames[last];
        frame.level = frame.level.saturating_sub(1);
        proof {
            assert(self@.drop_last() =~~= old(self)@.drop_last());
            assert(self@.last().vars == old(self)@.last().vars);
        }
    }

    /// Set the innermost scope's level outright, as the emitter does when
    /// it re-synchronizes after a lowering with branch-local stack
    /// effects.
    pub fn set_top_level(&mut self, level: u64)
        requires
            old(self)@.len() >= 1,
        ensures
            final(self)@ == old(self)@.drop_last() + seq![
                FrameV { vars: old(self)@.last().vars, level: level as int },
            ],
    {
        let last = self.frames.len() - 1;
        let frame = &mut self.frames[last];
        frame.level = level;
        proof {
            assert(self@ =~~= old(self)@.drop_last() + seq![
                FrameV { vars: old(self)@.last().vars, level: level as int },
            ]);
        }
    }
}

impl Expression {
    /// Lower this expression: emit code that leaves exactly one more value
    /// on the run-time stack, raising the static stack counter and the
    /// innermost scope's level by one. An expression with a compile-time
    /// value compiles to a single push of that value, and a fully constant
    /// expression always compiles when a push fits; a variable read
    /// compiles to the one `PEEK` at its current depth, fails with the
    /// postfix error past the cap, and never compiles unbound. Only the
    /// innermost scope's level changes; its variables do not.
    #[verifier::rlimit(100)]
    pub fn assemble(&self, program: &mut Program, scope: &mut Scope) -> (r: Result<
        (),
        SyntaxError,
    >)
        requires
            old(program).wf(),
            old(scope)@.len() >= 1,
        ensures
            final(program).wf(),
            final(program)@.offset == old(program)@.offset,
            final(scope)@.len() >= 1,
            match r {
                Ok(()) => {
                    &&& final(program)@.stack_size == old(program)@.stack_size + 1
                    &&& final(scope)@.len() == old(scope)@.len()
                    &&& final(scope)@.drop_last() == old(scope)@.drop_last()
                    &&& final(scope)@.last().vars == old(scope)@.last().vars
                    &&& (old(scope)@.last().level + 3 * expr_size(*self) <= u64::MAX ==> final(scope)@.last().level == old(scope)@.last().level + 1)
                    &&& spec_extends(old(program)@.code, final(program)@.code)
                    &&& (spec_const_value(*self) matches Some(v) ==> final(program)@.code == old(program)@.code + crate::program::spec_push_encoding(v))
                },
                Err(e) => !(e is CouldNotParseRamainder),
            },
            (spec_fully_constant(*self) && old(program).spec_current_pc() + 5 <= CODE_MAX
                ==> r is Ok),
            (*self matches Expression::Load(name) ==> {
                &&& (spec_depth_of(old(scope)@, name@) is None ==> (r matches Err(e)
                    && e matches SyntaxError::UndefinedVariable(n) && n@ == name@))
                &&& (spec_depth_of(old(scope)@, name@) is Some && spec_depth_of(
                    old(scope)@,
                    name@,
                )->Some_0 > POSTFIX_MAX ==> (r matches Err(e)
                    && e matches SyntaxError::PostfixLimit(which, _) && which@ == "peek"@))
                &&& (spec_depth_of(old(scope)@, name@) is Some && spec_depth_of(
                    old(scope)@,
                    name@,
                )->Some_0 <= POSTFIX_MAX && old(program).spec_current_pc() + 1 <= CODE_MAX ==> r
                    is Ok && final(program)@.code == old(program)@.code + seq![
                    ((0x20 + spec_depth_of(old(scope)@, name@)->Some_0) as u8),
                ])
            }),
        decreases expr_size(*self), 0int,
    {
        proof {
            if spec_fully_constant(*self) {
                lemma_constant_folding(*self);
            }
        }
        if let Some(c) = self.const_value() {
            program.push(c)?;
            scope.level_up();
            return Ok(());
        }
        match self {
            Expression::Literal(u) => {
                program.push(*u)?;
                scope.level_up();
            },
            Expression::User(s) => {
                let delta: i64 = match s {
                    instructions::UserCommand::GET_LENGTH => 1,
                    instructions::UserCommand::GET_PRECISE_TIME => 1,
                    instructions::UserCommand::GET_WALL_TIME => 1,
                    instructions::UserCommand::BLIT => 0,
                    instructions::UserCommand::SET_PIXEL => -1,
                    instructions::UserCommand::RANDOM_INT => 0,
                    instructions::UserCommand::GET_PIXEL => 0,
                };
                if delta != 1 {
                    return Err(SyntaxError::StackSizeOutOfRange);
                }
                program.user(*s)?;
                scope.level_up();
            },
            Expression::UserCall(s, e) => {
                let delta: i64 = match s {
                    instructions::UserCommand::GET_LENGTH => 1,
                    instructions::UserCommand::GET_PRECISE_TIME => 1,
                    instructions::UserCommand::GET_WALL_TIME => 1,
                    instructions::UserCommand::BLIT => 0,
                    instructions::UserCommand::SET_PIXEL => -1,
                    instructions::UserCommand::RANDOM_INT => 0,
                    instructions::UserCommand::GET_PIXEL => 0,
                };
                if e.len() > 15 || e.len() as i64 + delta != 1 {
                    return Err(SyntaxError::StackSizeOutOfRange);
                }
                let old_level = scope.top_level();
                proof {
                    assert(program@.code =~= old(program)@.code + Seq::<u8>::empty());
                }
                let mut k: usize = 0;
                while k < e.len()
                    invariant
                        k <= e@.len(),
                        e@.len() <= 15,
                        program.wf(),
                        program@.offset == old(program)@.offset,
                        scope@.len() == old(scope)@.len() >= 1,
                        scope@.drop_last() == old(scope)@.drop_last(),
                        scope@.last().vars == old(scope)@.last().vars,
                        program@.stack_size == old(program)@.stack_size + k,
                        spec_extends(old(program)@.code, program@.code),
                        e == &self->UserCall_1,
                        self is UserCall,
                    decreases e@.len() - k,
                {
                    proof {
                        lemma_exprs_size_elem(e@, k as int);
                    }
                    let ghost before_item = program@.code;
                    let item = &e[k];
                    item.assemble(program, scope)?;
                    proof {
                        lemma_extends_trans(old(program)@.code, before_item, program@.code);
                    }
                    k += 1;
                }
                let ghost after_args = program@.code;
                program.user(*s)?;
                scope.set_top_level(old_level.saturating_add(1));
                proof {
                    lemma_extends_trans(old(program)@.code, after_args, program@.code);
                }
            },
            Expression::Unary(op, rhs) => {
                rhs.assemble(program, scope)?;
                let ghost mid = program@.code;
                program.unary(*op)?;
                proof {
                    lemma_extends_trans(old(program)@.code, mid, program@.code);
                }
            },
            Expression::Binary(lhs, op, rhs) => {
                lhs.assemble(program, scope)?;
                let ghost after_lhs = program@.code;
                rhs.assemble(program, scope)?;
                let ghost after_rhs = program@.code;
                program.binary(*op)?;
                scope.level_down();
                proof {
                    lemma_extends_trans(old(program)@.code, after_lhs, after_rhs);
                    lemma_extends_trans(old(program)@.code, after_rhs, program@.code);
                }
            },
            Expression::Load(variable_name) => {
                match scope.index_of(variable_name.as_str()) {
                    Some(relative) => {
                        proof {
                            assert(forall|i: int|
                                0 <= i < scope@.len() ==> #[trigger] scope@[i].level >= 0);
                            lemma_depth_nonneg(scope@, variable_name@);
                            let dep = spec_depth_of(scope@, variable_name@)->Some_0;
                            assert(relative == spec_clip_u32(dep));
                            if dep <= POSTFIX_MAX {
                                assert(relative == dep);
                            } else {
                                assert(relative > POSTFIX_MAX);
                            }
                        }
                        if relative > POSTFIX_MAX as u32 {
                            return Err(
                                SyntaxError::PostfixLimit(
                                    "peek",
                                    if relative > 255 {
                                        255
                                    } else {
                                        relative as u8
                                    },
                                ),
                            );
                        }
                        program.peek(relative as u8)?;
                        scope.level_up();
                    },
                    None => {
                        return Err(SyntaxError::UndefinedVariable(variable_name.clone()));
                    },
                }
            },
            Expression::Intrinsic(intrinsic) => {
                match intrinsic {
                    Intrinsic::Clamp(value, min, max) => {
                        let old_level = scope.top_level();
                        let ghost mut seen: Seq<u8> = program@.code;
                        proof {
                            assert(seen =~= old(program)@.code + Seq::<u8>::empty());
                        }
                        // [value]
                        value.assemble(program, scope)?;
                        proof {
                            lemma_extends_trans(old(program)@.code, seen, program@.code);
                            seen = program@.code;
                        }
                        // [min, value]
                        min.assemble(program, scope)?;
                        proof {
                            lemma_extends_trans(old(program)@.code, seen, program@.code);
                            seen = program@.code;
                        }
                        // [value, min, value]
                        program.peek(1)?;
                        // [min, value, min, value]
                        program.peek(1)?;
                        // [value < min, min, value]
                        program.binary(instructions::Binary::LT)?;
                        // value < min: keep min
                        let mut low = program.branch_fragment()?;
                        low.pop(1)?;
                        low.swap(1)?;
                        low.pop(1)?;
                        low.leave_on_stack(-2)?;
                        program.if_not_zero(low)?;
                        // value >= min: keep value
                        let mut high = program.branch_fragment()?;
                        high.pop(2)?;
                        high.leave_on_stack(-2)?;
                        program.if_zero(high)?;
                        // both arms left one value less than the counter saw
                        program.leave_on_stack(2)?;
                        proof {
                            assert(program@.code =~= seen + program@.code.skip(
                                seen.len() as int,
                            ));
                            lemma_extends_trans(old(program)@.code, seen, program@.code);
                            seen = program@.code;
                        }
                        // [max, lower_result]
                        max.assemble(program, scope)?;
                        proof {
                            lemma_extends_trans(old(program)@.code, seen, program@.code);
                            seen = program@.code;
                        }
                        // [lower_result, max, lower_result]
                        program.peek(1)?;
                        // [max, lower_result, max, lower_result]
                        program.peek(1)?;
                        // [lower_result > max, max, lower_result]
                        program.binary(instructions::Binary::GT)?;
                        // lower_result > max: keep max
                        let mut over = program.branch_fragment()?;
                        over.pop(1)?;
                        over.swap(1)?;
                        over.pop(1)?;
                        over.leave_on_stack(-2)?;
                        program.if_not_zero(over)?;
                        // lower_result <= max: keep it
                        let mut under = program.branch_fragment()?;
                        under.pop(2)?;
                        under.leave_on_stack(-2)?;
                        program.if_zero(under)?;
                        program.leave_on_stack(2)?;
                        proof {
                            assert(program@.code =~= seen + program@.code.skip(
                                seen.len() as int,
                            ));
                            lemma_extends_trans(old(program)@.code, seen, program@.code);
                            seen = program@.code;
                        }
                        scope.set_top_level(old_level.saturating_add(1));
                    },
                }
            },
        }
        Ok(())
    }
}

/// Appending a name a sequence does not contain puts its first occurrence
/// at the end.
proof fn lemma_first_position_append(vars: Seq<Seq<char>>, name: Seq<char>)
    requires
        spec_first_position(vars, name) is None,
    ensures
        spec_first_position(vars + seq![name], name) == Some(vars.len() as int),
    decreases vars.len(),
{
    let appended = vars + seq![name];
    if vars.len() == 0 {
        assert(appended[0] == name);
    } else {
        assert(appended[0] == vars[0]);
        assert(appended.skip(1) =~= vars.skip(1) + seq![name]);
        lemma_first_position_append(vars.skip(1), name);
    }
}

/// Lower a statement list in the current scope. On success the net change
/// to the static stack size equals the number of variables the list
/// declared in the innermost scope, whose earlier variables keep their
/// places; outer scopes are untouched.
fn assemble_nodes(nodes: &Vec<Node>, program: &mut Program, scope: &mut Scope) -> (r: Result<
    (),
    SyntaxError,
>)
    requires
        old(program).wf(),
        old(scope)@.len() >= 1,
    ensures
        final(program).wf(),
        final(program)@.offset == old(program)@.offset,
        final(scope)@.len() >= 1,
        match r {
            Ok(()) => {
                &&& final(scope)@.len() == old(scope)@.len()
                &&& final(scope)@.drop_last() == old(scope)@.drop_last()
                &&& old(scope)@.last().vars.is_prefix_of(final(scope)@.last().vars)
                &&& final(program)@.stack_size - old(program)@.stack_size == final(scope)@.last().vars.len() - old(scope)@.last().vars.len()
            },
            Err(e) => !(e is CouldNotParseRamainder),
        },
        (nodes@.len() == 1 ==> (nodes@[0] matches Node::Expression(e3) ==> (spec_fully_constant(
            e3,
        ) && old(program).spec_current_pc() + 6 <= CODE_MAX ==> (r is Ok && final(program)@.code
            == old(program)@.code + crate::program::spec_push_encoding(
            spec_const_value(e3)->Some_0,
        ) + seq![0x01u8] && final(scope)@.last().vars == old(scope)@.last().vars)))),
    decreases nodes_size(nodes@), 1int,
{
    let mut i: usize = 0;
    while i < nodes.len()
        invariant
            i <= nodes@.len(),
            program.wf(),
            program@.offset == old(program)@.offset,
            scope@.len() == old(scope)@.len() >= 1,
            scope@.drop_last() == old(scope)@.drop_last(),
            old(scope)@.last().vars.is_prefix_of(scope@.last().vars),
            program@.stack_size - old(program)@.stack_size == scope@.last().vars.len() - old(scope)@.last().vars.len(),
            (nodes@.len() == 1 ==> (nodes@[0] matches Node::Expression(e3) ==> (
            spec_fully_constant(e3) && old(program).spec_current_pc() + 6 <= CODE_MAX ==> (
            scope@.last().vars == old(scope)@.last().vars && ((i == 0 && program@.code == old(
                program,
            )@.code) || (i == 1 && program@.code == old(program)@.code
                + crate::program::spec_push_encoding(spec_const_value(e3)->Some_0) + seq![
                0x01u8,
            ])))))),
        decreases nodes@.len() - i,
    {
        proof {
            lemma_nodes_size_elem(nodes@, i as int);
            if nodes@[i as int] is Expression && spec_fully_constant(
                nodes@[i as int]->Expression_0,
            ) {
                lemma_constant_folding(nodes@[i as int]->Expression_0);
            }
        }
        let ghost pre_vars = scope@.last().vars;
        let node = &nodes[i];
        node.assemble(program, scope)?;
        proof {
            assert(old(scope)@.last().vars.is_prefix_of(scope@.last().vars));
        }
        i += 1;
    }
    Ok(())
}

impl Node {
    /// Lower this statement. On success the net change to the static stack
    /// size equals the number of variables it declared in the innermost
    /// scope (one for a declaration, none otherwise), earlier variables
    /// keep their places, and outer scopes are untouched. An assignment to
    /// an unbound variable and a redeclaration never compile; `dump` and
    /// `blit` always do when their byte fits; a constant expression
    /// statement compiles to its push and the discarding `POP 1`.
    #[verifier::rlimit(100)]
    pub fn assemble(&self, program: &mut Program, scope: &mut Scope) -> (r: Result<
        (),
        SyntaxError,
    >)
        requires
            old(program).wf(),
            old(scope)@.len() >= 1,
        ensures
            final(program).wf(),
            final(program)@.offset == old(program)@.offset,
            final(scope)@.len() >= 1,
            match r {
                Ok(()) => {
                    &&& final(scope)@.len() == old(scope)@.len()
                    &&& final(scope)@.drop_last() == old(scope)@.drop_last()
                    &&& old(scope)@.last().vars.is_prefix_of(final(scope)@.last().vars)
                    &&& final(program)@.stack_size - old(program)@.stack_size == final(scope)@.last().vars.len() - old(scope)@.last().vars.len()
                },
                Err(e) => !(e is CouldNotParseRamainder),
            },
            (*self matches Node::VarAssignment(name, _) && spec_depth_of(old(scope)@, name@)
                is None ==> !(r is Ok)),
            (*self matches Node::VarAssignment(name, rhs) ==> (spec_depth_of(
                old(scope)@,
                name@,
            ) is None && spec_fully_constant(rhs) && old(program).spec_current_pc() + 5
                <= CODE_MAX ==> (r matches Err(er)
                && er matches SyntaxError::UndefinedVariable(n) && n@ == name@))),
            (*self matches Node::Expression(e2) ==> (e2 matches Expression::Load(name) ==> (
            spec_depth_of(old(scope)@, name@) is None ==> (r matches Err(er)
                && er matches SyntaxError::UndefinedVariable(n) && n@ == name@)))),
            (*self matches Node::NewVarAssignment(name, _) && spec_first_position(
                old(scope)@.last().vars,
                name@,
            ) is Some ==> !(r is Ok)),
            (*self matches Node::Special(_) && old(program).spec_current_pc() + 1 <= CODE_MAX
                ==> r is Ok),
            (*self == Node::User(instructions::UserCommand::BLIT) && old(
                program,
            ).spec_current_pc() + 1 <= CODE_MAX ==> r is Ok),
            (*self matches Node::Expression(e) ==> (r is Ok ==> (spec_const_value(e)
                matches Some(v) ==> final(program)@.code == old(program)@.code
                + crate::program::spec_push_encoding(v) + seq![0x01u8]))),
            (*self matches Node::Expression(e) ==> (r is Ok ==> final(scope)@.last().vars == old(
                scope,
            )@.last().vars && final(program)@.stack_size == old(program)@.stack_size)),
            (*self matches Node::Expression(e) ==> (spec_fully_constant(e) && old(
                program,
            ).spec_current_pc() + 6 <= CODE_MAX ==> r is Ok)),
            (*self matches Node::Statements(ns) ==> (ns@.len() == 1 ==> (ns@[0] matches
                Node::Expression(e3) ==> (spec_fully_constant(e3) && old(
                program,
            ).spec_current_pc() + 6 <= CODE_MAX ==> (r is Ok && final(program)@.code == old(
                program,
            )@.code + crate::program::spec_push_encoding(spec_const_value(e3)->Some_0) + seq![
                0x01u8,
            ] && final(scope)@.last().vars == old(scope)@.last().vars))))),
            (*self matches Node::If(c, ss2) ==> (r is Ok ==> final(scope)@.last().level == old(
                scope,
            )@.last().level && spec_lowers_if(
                old(program)@.code,
                old(program).spec_current_pc(),
                final(program)@.code,
            ))),
            (*self matches Node::IfElse(c, t2, f2) ==> (r is Ok ==> final(scope)@.last().level
                == old(scope)@.last().level && spec_lowers_if_else(
                old(program)@.code,
                old(program).spec_current_pc(),
                final(program)@.code,
            ))),
            (*self matches Node::UserCall(cmd, args) ==> (r is Ok ==> (cmd
                == instructions::UserCommand::SET_PIXEL ==> spec_lowers_set_pixel(
                old(program)@.code,
                final(program)@.code,
            )))),
            (*self matches Node::UserCall(cmd, args) ==> (r is Ok ==> (cmd
                == instructions::UserCommand::SET_PIXEL && args@.len() == 5 && spec_const_value(
                args@[1],
            ) is Some && spec_const_value(args@[2]) is Some && spec_const_value(args@[3]) is Some
                && spec_const_value(args@[4]) is Some ==> spec_lowers_set_pixel_folded(
                old(program)@.code,
                spec_packed_color(
                    spec_const_value(args@[1])->Some_0,
                    spec_const_value(args@[2])->Some_0,
                    spec_const_value(args@[3])->Some_0,
                    spec_const_value(args@[4])->Some_0,
                ),
                final(program)@.code,
            )))),
        decreases node_size(*self), 0int,
    {
        match self {
            Node::Expression(e) => {
                let ghost code0 = program@.code;
                e.assemble(program, scope)?;
                proof {
                    if spec_fully_constant(*e) {
                        lemma_constant_folding(*e);
                        let v = spec_const_value(*e)->Some_0;
                        assert(crate::program::spec_push_encoding(v).len() <= 5);
                    }
                }
                program.pop(1)?;
                scope.level_down();
                proof {
                    if spec_const_value(*e) is Some {
                        let v = spec_const_value(*e)->Some_0;
                        assert(program@.code =~= code0 + crate::program::spec_push_encoding(v)
                            + seq![0x01u8]);
                    }
                }
            },
            Node::Special(s) => {
                program.special(*s)?;
            },
            Node::User(s) => {
                let delta: i64 = match s {
                    instructions::UserCommand::GET_LENGTH => 1,
                    instructions::UserCommand::GET_PRECISE_TIME => 1,
                    instructions::UserCommand::GET_WALL_TIME => 1,
                    instructions::UserCommand::BLIT => 0,
                    instructions::UserCommand::SET_PIXEL => -1,
                    instructions::UserCommand::RANDOM_INT => 0,
                    instructions::UserCommand::GET_PIXEL => 0,
                };
                if delta != 0 {
                    return Err(SyntaxError::StackSizeOutOfRange);
                }
                program.user(*s)?;
            },
            Node::UserCall(s, e) => {
                match s {
                    instructions::UserCommand::SET_PIXEL => {
                        if e.len() < 2 || e.len() > 15 {
                            return Err(
                                SyntaxError::ParseError(
                                    "set_pixel takes an index and four color arguments".to_owned(),
                                ),
                            );
                        }
                        let pre_level = scope.top_level();
                        proof {
                            lemma_exprs_size_elem(e@, 0int);
                        }
                        // the pixel index
                        let first = &e[0];
                        first.assemble(program, scope)?;
                        let ghost idx_code = choose|t: Seq<u8>|
                            program@.code == old(program)@.code + t;
                        let ghost mut packed_spec: u32 = 0;
                        // with every channel constant the packed color is one push
                        let mut folded = false;
                        if e.len() == 5 {
                            let c1o = e[1].const_value();
                            let c2o = e[2].const_value();
                            let c3o = e[3].const_value();
                            let c4o = e[4].const_value();
                            if c1o.is_some() && c2o.is_some() && c3o.is_some() && c4o.is_some() {
                                let c1 = c1o.unwrap();
                                let c2 = c2o.unwrap();
                                let c3 = c3o.unwrap();
                                let c4 = c4o.unwrap();
                                let packed: u32 = (c1 % 256) + (c2 % 256) * 256 + (c3 % 256)
                                    * 65536 + (c4 % 256) * 16777216;
                                program.push(packed)?;
                                scope.level_up();
                                proof {
                                    packed_spec = packed;
                                    assert(packed_spec == spec_packed_color(c1, c2, c3, c4));
                                }
                                folded = true;
                            }
                        }
                        if !folded {
                            proof {
                                lemma_exprs_size_elem(e@, 1int);
                            }
                            // the red channel: e[1] & 0xFF
                            let ghost mut seen: Seq<u8> = program@.code;
                            let second = &e[1];
                            second.assemble(program, scope)?;
                            proof {
                                lemma_extends_trans(old(program)@.code, seen, program@.code);
                                seen = program@.code;
                            }
                            program.push(0xFF)?;
                            scope.level_up();
                            program.binary(instructions::Binary::AND)?;
                            scope.level_down();
                            proof {
                                assert(program@.code =~= seen + program@.code.skip(
                                    seen.len() as int,
                                ));
                                lemma_extends_trans(old(program)@.code, seen, program@.code);
                                seen = program@.code;
                            }
                            // each later channel: OR in (e[n] & 0xFF) << 8*(n-1)
                            let mut n: usize = 2;
                            while n < e.len()
                                invariant
                                    2 <= n <= e@.len() <= 15,
                                    program.wf(),
                                    program@.offset == old(program)@.offset,
                                    scope@.len() == old(scope)@.len() >= 1,
                                    scope@.drop_last() == old(scope)@.drop_last(),
                                    scope@.last().vars == old(scope)@.last().vars,
                                    program@.stack_size == old(program)@.stack_size + 2,
                                    spec_extends(old(program)@.code, program@.code),
                                    e == &self->UserCall_1,
                                    self is UserCall,
                                decreases e@.len() - n,
                            {
                                proof {
                                    lemma_exprs_size_elem(e@, n as int);
                                }
                                let ghost mut inner_seen: Seq<u8> = program@.code;
                                let param = &e[n];
                                param.assemble(program, scope)?;
                                proof {
                                    lemma_extends_trans(
                                        old(program)@.code,
                                        inner_seen,
                                        program@.code,
                                    );
                                    inner_seen = program@.code;
                                }
                                program.push(0xFF)?;
                                scope.level_up();
                                program.binary(instructions::Binary::AND)?;
                                scope.level_down();
                                proof {
                                    assert(program@.code =~= inner_seen + program@.code.skip(
                                        inner_seen.len() as int,
                                    ));
                                    lemma_extends_trans(
                                        old(program)@.code,
                                        inner_seen,
                                        program@.code,
                                    );
                                    inner_seen = program@.code;
                                }
                                let mut t: usize = 0;
                                while t < n - 1
                                    invariant
                                        t <= n - 1,
                                        program.wf(),
                                        program@.offset == old(program)@.offset,
                                        program@.stack_size == old(program)@.stack_size + 3,
                                        scope@.len() == old(scope)@.len() >= 1,
                                        scope@.drop_last() == old(scope)@.drop_last(),
                                        scope@.last().vars == old(scope)@.last().vars,
                                        spec_extends(old(program)@.code, program@.code),
                                        self is UserCall,
                                    decreases n - 1 - t,
                                {
                                    let ghost before_shift = program@.code;
                                    program.unary(instructions::Unary::SHL8)?;
                                    proof {
                                        lemma_extends_trans(
                                            old(program)@.code,
                                            before_shift,
                                            program@.code,
                                        );
                                    }
                                    t += 1;
                                }
                                let ghost before_or = program@.code;
                                program.binary(instructions::Binary::OR)?;
                                scope.level_down();
                                proof {
                                    lemma_extends_trans(
                                        old(program)@.code,
                                        before_or,
                                        program@.code,
                                    );
                                }
                                n += 1;
                            }
                        }
                        scope.set_top_level(pre_level);
                        let ghost pre_user = program@.code;
                        proof {
                            if folded {
                                assert(pre_user =~= old(program)@.code + (idx_code
                                    + crate::program::spec_push_encoding(packed_spec)));
                            }
                            assert(spec_extends(old(program)@.code, pre_user));
                        }
                        program.user(instructions::UserCommand::SET_PIXEL)?;
                        program.pop(1)?;
                        proof {
                            let t0 = choose|t: Seq<u8>| pre_user == old(program)@.code + t;
                            assert(spec_set_pixel_tail(old(program)@.code, t0, program@.code)) by {
                                assert(program@.code =~= old(program)@.code + t0 + seq![
                                    0xE3u8,
                                    0x01u8,
                                ]);
                            };
                            if folded {
                                assert(spec_set_pixel_folded(
                                    old(program)@.code,
                                    idx_code,
                                    packed_spec,
                                    program@.code,
                                )) by {
                                    assert(program@.code =~= old(program)@.code + idx_code
                                        + crate::program::spec_push_encoding(packed_spec) + seq![
                                        0xE3u8,
                                        0x01u8,
                                    ]);
                                };
                            }
                        }
                    },
                    _ => {
                        let delta: i64 = match s {
                            instructions::UserCommand::GET_LENGTH => 1,
                            instructions::UserCommand::GET_PRECISE_TIME => 1,
                            instructions::UserCommand::GET_WALL_TIME => 1,
                            instructions::UserCommand::BLIT => 0,
                            instructions::UserCommand::SET_PIXEL => -1,
                            instructions::UserCommand::RANDOM_INT => 0,
                            instructions::UserCommand::GET_PIXEL => 0,
                        };
                        if e.len() > 15 {
                            return Err(SyntaxError::StackSizeOutOfRange);
                        }
                        let net: i64 = e.len() as i64 + delta;
                        if net < 0 || net > POSTFIX_MAX as i64 {
                            return Err(SyntaxError::StackSizeOutOfRange);
                        }
                        let pre_level = scope.top_level();
                        let mut k: usize = 0;
                        while k < e.len()
                            invariant
                                k <= e@.len() <= 15,
                                program.wf(),
                                program@.offset == old(program)@.offset,
                                scope@.len() == old(scope)@.len() >= 1,
                                scope@.drop_last() == old(scope)@.drop_last(),
                                scope@.last().vars == old(scope)@.last().vars,
                                program@.stack_size == old(program)@.stack_size + k,
                                e == &self->UserCall_1,
                                self is UserCall,
                            decreases e@.len() - k,
                        {
                            proof {
                                lemma_exprs_size_elem(e@, k as int);
                            }
                            let param = &e[k];
                            param.assemble(program, scope)?;
                            k += 1;
                        }
                        program.user(*s)?;
                        if net > 0 {
                            program.pop(net as u8)?;
                        }
                        scope.set_top_level(pre_level);
                    },
                }
            },
            Node::Statements(stmts) => {
                assemble_nodes(stmts, program, scope)?;
            },
            Node::Loop(stmts) => {
                let mut fragment = program.loop_fragment();
                scope.nest();
                assemble_nodes(stmts, &mut fragment, scope)?;
                scope.unnest(&mut fragment)?;
                program.repeat_forever(fragment)?;
            },
            Node::For(variable_name, expression, stmts) => {
                expression.assemble(program, scope)?;
                scope.define_variable(variable_name.as_str())?;
                let ghost outer_after_define = scope@;
                let mut fragment = program.branch_fragment()?;
                scope.nest();
                assemble_nodes(stmts, &mut fragment, scope)?;
                scope.unnest(&mut fragment)?;
                proof {
                    assert(scope@ =~~= outer_after_define);
                }
                program.repeat(fragment)?;
                proof {
                    lemma_first_position_append(
                        old(scope)@.last().vars,
                        variable_name@,
                    );
                }
                scope.undefine_variable(variable_name.as_str())?;
                proof {
                    assert(scope@.last().vars =~~= (old(scope)@.last().vars + seq![
                        variable_name@,
                    ]).remove(old(scope)@.last().vars.len() as int));
                    assert(scope@.last().vars =~~= old(scope)@.last().vars);
                }
                scope.level_down();
                program.pop(1)?;
            },
            Node::If(e, ss) => {
                let old_level = scope.top_level();
                e.assemble(program, scope)?;
                let ghost cond_code = choose|t: Seq<u8>|
                    program@.code == old(program)@.code + t;
                let mut fragment = program.branch_fragment()?;
                scope.nest();
                assemble_nodes(ss, &mut fragment, scope)?;
                scope.unnest(&mut fragment)?;
                let ghost body_code = fragment@.code;
                program.if_not_zero(fragment)?;
                program.pop(1)?;
                scope.set_top_level(old_level);
                proof {
                    assert(spec_if_lowering(
                        old(program)@.code,
                        cond_code,
                        body_code,
                        old(program).spec_current_pc(),
                        program@.code,
                    )) by {
                        assert(program@.code =~= old(program)@.code + cond_code + seq![0x50u8]
                            + crate::program::spec_addr_bytes(
                            old(program).spec_current_pc() + cond_code.len() + 3
                                + body_code.len(),
                        ) + body_code + seq![0x01u8]);
                    };
                    assert(spec_lowers_if(
                        old(program)@.code,
                        old(program).spec_current_pc(),
                        program@.code,
                    ));
                }
            },
            Node::IfElse(e, if_statements, else_statements) => {
                let old_level = scope.top_level();
                e.assemble(program, scope)?;
                let ghost cond_code = choose|t: Seq<u8>|
                    program@.code == old(program)@.code + t;
                let mut fragment = program.branch_fragment()?;
                scope.nest();
                assemble_nodes(if_statements, &mut fragment, scope)?;
                scope.unnest(&mut fragment)?;
                let ghost then_code = fragment@.code;
                program.if_not_zero(fragment)?;
                let mut else_fragment = program.branch_fragment()?;
                scope.nest();
                assemble_nodes(else_statements, &mut else_fragment, scope)?;
                scope.unnest(&mut else_fragment)?;
                let ghost else_code = else_fragment@.code;
                program.if_zero(else_fragment)?;
                program.pop(1)?;
                scope.set_top_level(old_level);
                proof {
                    assert(spec_if_else_lowering(
                        old(program)@.code,
                        cond_code,
                        then_code,
                        else_code,
                        old(program).spec_current_pc(),
                        program@.code,
                    )) by {
                        assert(program@.code =~= old(program)@.code + cond_code + seq![0x50u8]
                            + crate::program::spec_addr_bytes(
                            old(program).spec_current_pc() + cond_code.len() + 3
                                + then_code.len(),
                        ) + then_code + seq![0x60u8] + crate::program::spec_addr_bytes(
                            old(program).spec_current_pc() + cond_code.len() + 3
                                + then_code.len() + 3 + else_code.len(),
                        ) + else_code + seq![0x01u8]);
                    };
                    assert(spec_lowers_if_else(
                        old(program)@.code,
                        old(program).spec_current_pc(),
                        program@.code,
                    ));
                }
            },
            Node::NewVarAssignment(variable_name, expression) => {
                expression.assemble(program, scope)?;
                scope.define_variable(variable_name.as_str())?;
            },
            Node::VarAssignment(variable_name, expression) => {
                let old_level = scope.top_level();
                expression.assemble(program, scope)?;
                proof {
                    assert forall|i: int|
                        0 <= i < scope@.len() implies #[trigger] scope@[i].vars == old(
                        scope,
                    )@[i].vars by {
                        if i < scope@.len() - 1 {
                            assert(scope@.drop_last()[i] == scope@[i]);
                            assert(old(scope)@.drop_last()[i] == old(scope)@[i]);
                        }
                    }
                    lemma_depth_found_by_vars(scope@, old(scope)@, variable_name@);
                }
                match scope.index_of(variable_name.as_str()) {
                    Some(relative) => {
                        if relative > POSTFIX_MAX as u32 {
                            return Err(
                                SyntaxError::PostfixLimit(
                                    "swap",
                                    if relative > 255 {
                                        255
                                    } else {
                                        relative as u8
                                    },
                                ),
                            );
                        }
                        program.swap(relative as u8)?;
                        program.pop(1)?;
                    },
                    None => {
                        return Err(SyntaxError::UndefinedVariable(variable_name.clone()));
                    },
                }
                scope.set_top_level(old_level);
            },
        }
        Ok(())
    }
}

impl Default for Scope {
    /// The same fresh chain `Scope::new` gives.
    fn default() -> (r: Scope)
        ensures
            r@.len() == 1,
            r@[0].vars == Seq::<Seq<char>>::empty(),
            r@[0].level == 0,
    {
        Scope::new()
    }
}

} // verus!
