//! The structured disassembler: decodes a bytecode buffer back into
//! instructions, with the round-trip guarantee that decoding recovers
//! exactly the instructions whose encodings were emitted.

use vstd::prelude::*;

verus! {

use vstd::assert_seqs_equal;

use crate::instructions::{Binary, Special, Unary, UserCommand};

/// One decoded instruction, with its operands.
#[derive(Debug, Clone, PartialEq, Eq)]
pub enum Instr {
    /// Discard the given number of stack values.
    Pop(u8),
    /// Push each operand byte zero-extended to a word; with no operands,
    /// push a single zero word.
    PushB(Vec<u8>),
    /// Duplicate the stack element at the given depth.
    Peek(u8),
    /// Push each operand word.
    PushI(Vec<u32>),
    /// Jump to the absolute address.
    Jmp(u16),
    /// Jump if the stack top is zero (not consumed).
    Jz(u16),
    /// Jump if the stack top is nonzero (not consumed).
    Jnz(u16),
    /// Apply a unary operation to the stack top.
    UnaryOp(Unary),
    /// Apply a binary operation to the two top stack values.
    BinaryOp(Binary),
    /// Swap the stack top with the element at the given depth.
    Swap(u8),
    /// Call into the host.
    UserOp(UserCommand),
    /// A special instruction.
    SpecialOp(Special),
}

/// The mathematical form of an instruction, with sequences for operands.
pub enum InstrModel {
    Pop(u8),
    PushB(Seq<u8>),
    Peek(u8),
    PushI(Seq<u32>),
    Jmp(u16),
    Jz(u16),
    Jnz(u16),
    UnaryOp(Unary),
    BinaryOp(Binary),
    Swap(u8),
    UserOp(UserCommand),
    SpecialOp(Special),
}

impl View for Instr {
    type V = InstrModel;

    open spec fn view(&self) -> InstrModel {
        match self {
            Instr::Pop(n) => InstrModel::Pop(*n),
            Instr::PushB(bs) => InstrModel::PushB(bs@),
            Instr::Peek(n) => InstrModel::Peek(*n),
            Instr::PushI(ws) => InstrModel::PushI(ws@),
            Instr::Jmp(t) => InstrModel::Jmp(*t),
            Instr::Jz(t) => InstrModel::Jz(*t),
            Instr::Jnz(t) => InstrModel::Jnz(*t),
            Instr::UnaryOp(u) => InstrModel::UnaryOp(*u),
            Instr::BinaryOp(b) => InstrModel::BinaryOp(*b),
            Instr::Swap(n) => InstrModel::Swap(*n),
            Instr::UserOp(u) => InstrModel::UserOp(*u),
            Instr::SpecialOp(s) => InstrModel::SpecialOp(*s),
        }
    }
}

/// The instruction models of a decoded instruction sequence.
pub open spec fn instr_models(v: Seq<Instr>) -> Seq<InstrModel> {
    v.map(|i: int, x: Instr| x@)
}

/// An instruction that the encoding can represent: counts and depths fit
/// the postfix nibble.
pub open spec fn instr_wf(i: InstrModel) -> bool {
    match i {
        InstrModel::Pop(n) => n <= 15,
        InstrModel::PushB(bs) => bs.len() <= 15,
        InstrModel::Peek(n) => n <= 15,
        InstrModel::PushI(ws) => ws.len() <= 15,
        InstrModel::Jmp(_) => true,
        InstrModel::Jz(_) => true,
        InstrModel::Jnz(_) => true,
        InstrModel::UnaryOp(_) => true,
        InstrModel::BinaryOp(_) => true,
        InstrModel::Swap(n) => n <= 15,
        InstrModel::UserOp(_) => true,
        InstrModel::SpecialOp(_) => true,
    }
}

/// The four little-endian bytes of a word.
pub open spec fn spec_word_bytes(w: u32) -> Seq<u8> {
    seq![
        (w % 256) as u8,
        ((w / 256) % 256) as u8,
        ((w / 65536) % 256) as u8,
        ((w / 16777216) % 256) as u8,
    ]
}

/// The little-endian bytes of a sequence of words.
pub open spec fn spec_words_bytes(ws: Seq<u32>) -> Seq<u8>
    decreases ws.len(),
{
    if ws.len() == 0 {
        Seq::empty()
    } else {
        spec_word_bytes(ws[0]) + spec_words_bytes(ws.skip(1))
    }
}

/// The word read from four little-endian bytes.
pub open spec fn spec_word_of(b0: u8, b1: u8, b2: u8, b3: u8) -> u32 {
    (b0 + b1 * 256 + b2 * 65536 + b3 * 16777216) as u32
}

/// The words read from little-endian bytes, four per word.
pub open spec fn spec_words_of(bs: Seq<u8>) -> Seq<u32>
    recommends
        bs.len() % 4 == 0,
    decreases bs.len(),
{
    if bs.len() < 4 {
        Seq::empty()
    } else {
        seq![spec_word_of(bs[0], bs[1], bs[2], bs[3])] + spec_words_of(bs.skip(4))
    }
}

/// The byte encoding of one instruction: the prefix in the high nibble,
/// the postfix (count, depth or sub-opcode) in the low nibble, then any
/// operand bytes.
pub open spec fn spec_encode_instr(i: InstrModel) -> Seq<u8> {
    match i {
        InstrModel::Pop(n) => seq![n],
        InstrModel::PushB(bs) => seq![(0x10 + bs.len()) as u8] + bs,
        InstrModel::Peek(n) => seq![(0x20 + n) as u8],
        InstrModel::PushI(ws) => seq![(0x30 + ws.len()) as u8] + spec_words_bytes(ws),
        InstrModel::Jmp(t) => seq![0x40u8, (t % 256) as u8, (t / 256) as u8],
        InstrModel::Jz(t) => seq![0x50u8, (t % 256) as u8, (t / 256) as u8],
        InstrModel::Jnz(t) => seq![0x60u8, (t % 256) as u8, (t / 256) as u8],
        InstrModel::UnaryOp(u) => seq![(0x70 + u.spec_code()) as u8],
        InstrModel::BinaryOp(b) => seq![(0x80 + b.spec_code()) as u8],
        InstrModel::Swap(n) => seq![(0x90 + n) as u8],
        InstrModel::UserOp(u) => seq![(0xE0 + u.spec_code()) as u8],
        InstrModel::SpecialOp(s) => seq![(0xF0 + s.spec_code()) as u8],
    }
}

/// The byte encoding of an instruction sequence: the concatenation of the
/// instructions' encodings.
pub open spec fn spec_encode(l: Seq<InstrModel>) -> Seq<u8>
    decreases l.len(),
{
    if l.len() == 0 {
        Seq::empty()
    } else {
        spec_encode_instr(l[0]) + spec_encode(l.skip(1))
    }
}

/// Prepend a decoded instruction to the decoding of the rest.
pub open spec fn spec_decode_cons(i: InstrModel, rest: Option<Seq<InstrModel>>) -> Option<
    Seq<InstrModel>,
> {
    match rest {
        Some(l) => Some(seq![i] + l),
        None => None,
    }
}

/// Decode a whole buffer into instructions. `None` when a byte does not
/// name an instruction or an operand would overrun the buffer.
pub open spec fn spec_decode(code: Seq<u8>) -> Option<Seq<InstrModel>>
    decreases code.len(),
{
    if code.len() == 0 {
        Some(Seq::empty())
    } else {
        let b = code[0];
        let postfix = b % 16;
        if b / 16 == 0x0 {
            spec_decode_cons(InstrModel::Pop(postfix), spec_decode(code.skip(1)))
        } else if b / 16 == 0x1 {
            if code.len() >= 1 + postfix {
                spec_decode_cons(
                    InstrModel::PushB(code.subrange(1, 1 + postfix as int)),
                    spec_decode(code.skip(1 + postfix as int)),
                )
            } else {
                None
            }
        } else if b / 16 == 0x2 {
            spec_decode_cons(InstrModel::Peek(postfix), spec_decode(code.skip(1)))
        } else if b / 16 == 0x3 {
            if code.len() >= 1 + 4 * postfix {
                spec_decode_cons(
                    InstrModel::PushI(spec_words_of(code.subrange(1, 1 + 4 * postfix as int))),
                    spec_decode(code.skip(1 + 4 * postfix as int)),
                )
            } else {
                None
            }
        } else if b / 16 == 0x4 || b / 16 == 0x5 || b / 16 == 0x6 {
            if code.len() >= 3 {
                let t = (code[1] + code[2] * 256) as u16;
                let i = if b / 16 == 0x4 {
                    InstrModel::Jmp(t)
                } else if b / 16 == 0x5 {
                    InstrModel::Jz(t)
                } else {
                    InstrModel::Jnz(t)
                };
                spec_decode_cons(i, spec_decode(code.skip(3)))
            } else {
                None
            }
        } else if b / 16 == 0x7 {
            match Unary::spec_from(postfix) {
                Some(u) => spec_decode_cons(InstrModel::UnaryOp(u), spec_decode(code.skip(1))),
                None => None,
            }
        } else if b / 16 == 0x8 {
            match Binary::spec_from(postfix) {
                Some(op) => spec_decode_cons(InstrModel::BinaryOp(op), spec_decode(code.skip(1))),
                None => None,
            }
        } else if b / 16 == 0x9 {
            spec_decode_cons(InstrModel::Swap(postfix), spec_decode(code.skip(1)))
        } else if b / 16 == 0xE {
            match UserCommand::spec_from(postfix) {
                Some(u) => spec_decode_cons(InstrModel::UserOp(u), spec_decode(code.skip(1))),
                None => None,
            }
        } else if b / 16 == 0xF {
            match Special::spec_from(postfix) {
                Some(s) => spec_decode_cons(InstrModel::SpecialOp(s), spec_decode(code.skip(1))),
                None => None,
            }
        } else {
            None
        }
    }
}

/// Reading four little-endian bytes back gives the word they encode.
proof fn lemma_word_roundtrip(w: u32)
    ensures
        spec_word_of(
            (w % 256) as u8,
            ((w / 256) % 256) as u8,
            ((w / 65536) % 256) as u8,
            ((w / 16777216) % 256) as u8,
        ) == w,
{
    assert(w % 256 + ((w / 256) % 256) * 256 + ((w / 65536) % 256) * 65536 + ((w / 16777216) % 256)
        * 16777216 == w) by (nonlinear_arith);
}

/// Reading little-endian bytes back gives the words they encode.
proof fn lemma_words_roundtrip(ws: Seq<u32>)
    ensures
        spec_words_bytes(ws).len() == 4 * ws.len(),
        spec_words_of(spec_words_bytes(ws)) == ws,
    decreases ws.len(),
{
    if ws.len() == 0 {
        assert(spec_words_of(spec_words_bytes(ws)) =~= ws);
    } else {
        lemma_words_roundtrip(ws.skip(1));
        lemma_word_roundtrip(ws[0]);
        let bs = spec_words_bytes(ws);
        assert(bs =~= spec_word_bytes(ws[0]) + spec_words_bytes(ws.skip(1)));
        assert(bs.skip(4) =~= spec_words_bytes(ws.skip(1)));
        assert(spec_words_of(bs) =~= ws);
    }
}

/// Appending four bytes to a whole number of words appends their word.
pub(crate) proof fn lemma_words_of_snoc(bs: Seq<u8>, b0: u8, b1: u8, b2: u8, b3: u8)
    requires
        bs.len() % 4 == 0,
    ensures
        spec_words_of(bs + seq![b0, b1, b2, b3]) == spec_words_of(bs).push(
            spec_word_of(b0, b1, b2, b3),
        ),
    decreases bs.len(),
{
    reveal_with_fuel(spec_words_of, 3);
    let whole = bs + seq![b0, b1, b2, b3];
    if bs.len() == 0 {
        assert(whole.skip(4) =~= Seq::<u8>::empty());
        assert(whole[0] == b0 && whole[1] == b1 && whole[2] == b2 && whole[3] == b3);
        assert(spec_words_of(whole) =~= spec_words_of(bs).push(spec_word_of(b0, b1, b2, b3)));
    } else {
        lemma_words_of_snoc(bs.skip(4), b0, b1, b2, b3);
        assert(whole.skip(4) =~= bs.skip(4) + seq![b0, b1, b2, b3]);
        assert(whole[0] == bs[0] && whole[1] == bs[1] && whole[2] == bs[2] && whole[3] == bs[3]);
        assert(spec_words_of(whole) =~= spec_words_of(bs).push(spec_word_of(b0, b1, b2, b3)));
    }
}

/// Decoding a buffer that begins with one well-formed instruction's
/// encoding yields that instruction, then the decoding of the rest.
proof fn lemma_decode_prepend(i: InstrModel, rest: Seq<u8>)
    requires
        instr_wf(i),
    ensures
        spec_decode(spec_encode_instr(i) + rest) == spec_decode_cons(i, spec_decode(rest)),
{
    let enc = spec_encode_instr(i);
    let code = enc + rest;
    match i {
        InstrModel::Pop(n) => {
            assert(code[0] / 16 == 0x0 && code[0] % 16 == n);
            assert(code.skip(1) =~= rest);
        },
        InstrModel::PushB(bs) => {
            assert(code[0] == (0x10 + bs.len()) as u8);
            assert(code[0] / 16 == 0x1 && code[0] % 16 == bs.len());
            assert(code.subrange(1, 1 + bs.len() as int) =~= bs);
            assert(code.skip(1 + bs.len() as int) =~= rest);
        },
        InstrModel::Peek(n) => {
            assert(code[0] / 16 == 0x2 && code[0] % 16 == n);
            assert(code.skip(1) =~= rest);
        },
        InstrModel::PushI(ws) => {
            lemma_words_roundtrip(ws);
            assert(code[0] == (0x30 + ws.len()) as u8);
            assert(code[0] / 16 == 0x3 && code[0] % 16 == ws.len());
            assert(code.subrange(1, 1 + 4 * ws.len() as int) =~= spec_words_bytes(ws));
            assert(code.skip(1 + 4 * ws.len() as int) =~= rest);
        },
        InstrModel::Jmp(t) => {
            assert(code[0] / 16 == 0x4);
            assert(code[1] == (t % 256) as u8 && code[2] == (t / 256) as u8);
            assert(t % 256 + (t / 256) * 256 == t) by (nonlinear_arith);
            assert(code.skip(3) =~= rest);
        },
        InstrModel::Jz(t) => {
            assert(code[0] / 16 == 0x5);
            assert(t % 256 + (t / 256) * 256 == t) by (nonlinear_arith);
            assert(code.skip(3) =~= rest);
        },
        InstrModel::Jnz(t) => {
            assert(code[0] / 16 == 0x6);
            assert(t % 256 + (t / 256) * 256 == t) by (nonlinear_arith);
            assert(code.skip(3) =~= rest);
        },
        InstrModel::UnaryOp(u) => {
            assert(code[0] / 16 == 0x7 && code[0] % 16 == u.spec_code());
            assert(Unary::spec_from(u.spec_code()) == Some(u));
            assert(code.skip(1) =~= rest);
        },
        InstrModel::BinaryOp(b) => {
            assert(code[0] / 16 == 0x8 && code[0] % 16 == b.spec_code());
            assert(Binary::spec_from(b.spec_code()) == Some(b));
            assert(code.skip(1) =~= rest);
        },
        InstrModel::Swap(n) => {
            assert(code[0] / 16 == 0x9 && code[0] % 16 == n);
            assert(code.skip(1) =~= rest);
        },
        InstrModel::UserOp(u) => {
            assert(code[0] / 16 == 0xE && code[0] % 16 == u.spec_code());
            assert(UserCommand::spec_from(u.spec_code()) == Some(u));
            assert(code.skip(1) =~= rest);
        },
        InstrModel::SpecialOp(s) => {
            assert(code[0] / 16 == 0xF && code[0] % 16 == s.spec_code());
            assert(Special::spec_from(s.spec_code()) == Some(s));
            assert(code.skip(1) =~= rest);
        },
    }
}

/// The encoding round-trip: a sequence of well-formed instructions,
/// encoded to bytes as the program builder emits them and then decoded,
/// comes back exactly as it was — every opcode and every operand.
pub proof fn lemma_round_trip(l: Seq<InstrModel>)
    requires
        forall|k: int| 0 <= k < l.len() ==> instr_wf(l[k]),
    ensures
        spec_decode(spec_encode(l)) == Some(l),
    decreases l.len(),
{
    if l.len() == 0 {
        assert(spec_decode(spec_encode(l)) =~= Some(Seq::<InstrModel>::empty()));
        assert(Seq::<InstrModel>::empty() =~= l);
    } else {
        lemma_round_trip(l.skip(1));
        lemma_decode_prepend(l[0], spec_encode(l.skip(1)));
        assert(seq![l[0]] + l.skip(1) =~= l);
    }
}

/// Read `count` words of four little-endian bytes each, starting at
/// `start`.
fn read_words(code: &Vec<u8>, start: usize, count: u8) -> (r: Vec<u32>)
    requires
        start + 4 * count <= code@.len(),
        code@.len() <= usize::MAX,
    ensures
        r@ == spec_words_of(code@.subrange(start as int, start + 4 * count)),
        r@.len() == count,
    decreases count,
{
    if count == 0 {
        let r = Vec::new();
        proof {
            assert(code@.subrange(start as int, start as int).len() == 0);
            assert(r@ =~= spec_words_of(code@.subrange(start as int, start as int)));
        }
        r
    } else {
        let w: u32 = code[start] as u32 + (code[start + 1] as u32) * 256 + (code[start + 2] as u32)
            * 65536 + (code[start + 3] as u32) * 16777216;
        let mut rest = read_words(code, start + 4, count - 1);
        rest.insert(0, w);
        proof {
            let region = code@.subrange(start as int, start + 4 * count);
            assert(region.skip(4) =~= code@.subrange(start + 4 as int, start + 4 + 4 * (count - 1)));
            assert(region[0] == code@[start as int] && region[1] == code@[start + 1] && region[2]
                == code@[start + 2] && region[3] == code@[start + 3]);
            assert(w == spec_word_of(region[0], region[1], region[2], region[3]));
            assert(rest@ =~= spec_words_of(region));
        }
        rest
    }
}

/// Decode a whole bytecode buffer into instructions, walking it from the
/// start. Fails with the offending byte when one does not name an
/// instruction or its operands would overrun the buffer — exactly when the
/// buffer has no decoding at all.
pub fn disassemble(code: &Vec<u8>) -> (r: Result<Vec<Instr>, u8>)
    ensures
        match r {
            Ok(v) => spec_decode(code@) == Some(instr_models(v@)),
            Err(_) => spec_decode(code@) is None,
        },
{
    let n = code.len();
    let mut pc: usize = 0;
    let mut out: Vec<Instr> = Vec::new();
    proof {
        assert(code@.len() == n);
        assert(code@.skip(0) =~= code@);
    }
    while pc < code.len()
        invariant
            pc <= code@.len(),
            code@.len() <= usize::MAX,
            spec_decode(code@) == (match spec_decode(code@.skip(pc as int)) {
                Some(l) => Some(instr_models(out@) + l),
                None => None,
            }),
        decreases code@.len() - pc,
    {
        let ghost tail = code@.skip(pc as int);
        let b = code[pc];
        let postfix = b % 16;
        let prefix = b / 16;
        let step: usize;
        let instr: Instr;
        if prefix == 0x0 {
            instr = Instr::Pop(postfix);
            step = 1;
        } else if prefix == 0x1 {
            if code.len() - pc < 1 + postfix as usize {
                proof {
                    assert(spec_decode(tail) is None);
                }
                return Err(b);
            }
            let mut bs: Vec<u8> = Vec::new();
            let mut j: usize = 0;
            while j < postfix as usize
                invariant
                    j <= postfix as usize,
                    pc + 1 + postfix as usize <= code@.len(),
                    code@.len() <= usize::MAX,
                    bs@ == code@.subrange(pc + 1 as int, pc + 1 + j),
                decreases postfix as usize - j,
            {
                bs.push(code[pc + 1 + j]);
                proof {
                    assert(bs@ =~= code@.subrange(pc + 1 as int, pc + 1 + (j + 1)));
                }
                j += 1;
            }
            proof {
                assert(tail.subrange(1, 1 + postfix as int) =~= code@.subrange(
                    pc + 1 as int,
                    pc + 1 + postfix as int,
                ));
            }
            instr = Instr::PushB(bs);
            step = 1 + postfix as usize;
        } else if prefix == 0x2 {
            instr = Instr::Peek(postfix);
            step = 1;
        } else if prefix == 0x3 {
            if (code.len() - pc - 1) / 4 < postfix as usize {
                proof {
                    assert(tail.len() < 1 + 4 * postfix);
                    assert(spec_decode(tail) is None);
                }
                return Err(b);
            }
            let ws = read_words(code, pc + 1, postfix);
            proof {
                assert(tail.subrange(1, 1 + 4 * postfix as int) =~= code@.subrange(
                    pc + 1 as int,
                    pc + 1 + 4 * postfix as int,
                ));
            }
            instr = Instr::PushI(ws);
            step = 1 + 4 * postfix as usize;
        } else if prefix == 0x4 || prefix == 0x5 || prefix == 0x6 {
            if code.len() - pc < 3 {
                proof {
                    assert(spec_decode(tail) is None);
                }
                return Err(b);
            }
            let t: u16 = code[pc + 1] as u16 + (code[pc + 2] as u16) * 256;
            instr = if prefix == 0x4 {
                Instr::Jmp(t)
            } else if prefix == 0x5 {
                Instr::Jz(t)
            } else {
                Instr::Jnz(t)
            };
            step = 3;
        } else if prefix == 0x7 {
            match Unary::from(postfix) {
                Some(u) => {
                    instr = Instr::UnaryOp(u);
                    step = 1;
                },
                None => {
                    proof {
                        assert(spec_decode(tail) is None);
                    }
                    return Err(b);
                },
            }
        } else if prefix == 0x8 {
            match Binary::from(postfix) {
                Some(op) => {
                    instr = Instr::BinaryOp(op);
                    step = 1;
                },
                None => {
                    proof {
                        assert(spec_decode(tail) is None);
                    }
                    return Err(b);
                },
            }
        } else if prefix == 0x9 {
            instr = Instr::Swap(postfix);
            step = 1;
        } else if prefix == 0xE {
            match UserCommand::from(postfix) {
                Some(u) => {
                    instr = Instr::UserOp(u);
                    step = 1;
                },
                None => {
                    proof {
                        assert(spec_decode(tail) is None);
                    }
                    return Err(b);
                },
            }
        } else if prefix == 0xF {
            match Special::from(postfix) {
                Some(s) => {
                    instr = Instr::SpecialOp(s);
                    step = 1;
                },
                None => {
                    proof {
                        assert(spec_decode(tail) is None);
                    }
                    return Err(b);
                },
            }
        } else {
            proof {
                assert(spec_decode(tail) is None);
            }
            return Err(b);
        }
        proof {
            assert(tail.skip(step as int) =~= code@.skip(pc + step));
            assert(spec_decode(tail) == spec_decode_cons(
                instr@,
                spec_decode(code@.skip(pc + step)),
            ));
        }
        let ghost old_out = out@;
        out.push(instr);
        proof {
            assert(instr_models(out@) =~= instr_models(old_out) + seq![instr@]);
            if spec_decode(code@.skip(pc + step)) is Some {
                let l = spec_decode(code@.skip(pc + step)).unwrap();
                assert(instr_models(old_out) + (seq![instr@] + l) =~= instr_models(out@) + l);
            }
        }
        pc += step;
    }
    proof {
        assert(code@.skip(pc as int) =~= Seq::<u8>::empty());
        assert(spec_decode(code@) == Some(instr_models(out@) + Seq::<InstrModel>::empty()));
        assert(instr_models(out@) + Seq::<InstrModel>::empty() =~= instr_models(out@));
    }
    Ok(out)
}

} // verus!
