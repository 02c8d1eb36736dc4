//! The recursive-descent parser: from source text to the abstract syntax
//! tree. Each grammar function takes the input and a character position
//! and, on a match, returns the position past what it consumed together
//! with what it parsed; on no match it returns `None` and the caller tries
//! its next alternative from where it stood.

use vstd::prelude::*;

verus! {

use crate::ast::{Expression, Intrinsic, Node};
use crate::instructions;
use crate::program::SyntaxError;

/// Whether the character has the Unicode `Alphabetic` property.
pub uninterp spec fn unicode_alphabetic(c: char) -> bool;

/// Relies on `char::is_alphabetic` of std: the result depends on the
/// character alone. ASCII letters are alphabetic; no other ASCII
/// character is.
pub assume_specification[ char::is_alphabetic ](c: char) -> (r: bool)
    ensures
        r == unicode_alphabetic(c),
        (97 <= c as u32 && c as u32 <= 122) || (65 <= c as u32 && c as u32 <= 90) ==> r,
        (c as u32) < 128 && !((97 <= c as u32 && c as u32 <= 122) || (65 <= c as u32 && c as u32
            <= 90)) ==> !r,
;

/// Whether the character is a decimal digit.
pub open spec fn spec_is_dec_digit(c: char) -> bool {
    48 <= c as u32 && c as u32 <= 57
}

/// Whether the character is a hexadecimal digit.
pub open spec fn spec_is_hex_digit(c: char) -> bool {
    ||| spec_is_dec_digit(c)
    ||| 97 <= c as u32 && c as u32 <= 102
    ||| 65 <= c as u32 && c as u32 <= 70
}

/// The value of a decimal digit character.
pub open spec fn spec_dec_digit_val(c: char) -> int {
    c as u32 - 48
}

/// The value of a hexadecimal digit character.
pub open spec fn spec_hex_digit_val(c: char) -> int {
    if 97 <= c as u32 {
        c as u32 - 87
    } else if 65 <= c as u32 {
        c as u32 - 55
    } else {
        c as u32 - 48
    }
}

/// The number a string of decimal digits denotes.
pub open spec fn spec_dec_val(s: Seq<char>) -> int
    decreases s.len(),
{
    if s.len() == 0 {
        0
    } else {
        spec_dec_val(s.drop_last()) * 10 + spec_dec_digit_val(s.last())
    }
}

/// The number a string of hexadecimal digits denotes.
pub open spec fn spec_hex_val(s: Seq<char>) -> int
    decreases s.len(),
{
    if s.len() == 0 {
        0
    } else {
        spec_hex_val(s.drop_last()) * 16 + spec_hex_digit_val(s.last())
    }
}

/// The four characters consumed between tokens.
pub open spec fn spec_is_space(c: char) -> bool {
    c == ' ' || c == '\t' || c == '\r' || c == '\n'
}

/// The input from `pos` on is one decimal numeral that fits a word.
pub open spec fn spec_numeral_tail(s: Seq<char>, pos: int) -> bool {
    &&& 0 <= pos < s.len()
    &&& forall|k: int| pos <= k < s.len() ==> spec_is_dec_digit(#[trigger] s[k])
    &&& spec_dec_val(s.subrange(pos, s.len() as int)) <= u32::MAX
}

/// A whole-numeral input is owed a parse, to exactly its literal, with
/// everything consumed — at every level of the expression grammar.
pub open spec fn spec_numeral_result(s: Seq<char>, pos: int, r: Option<(usize, Expression)>) -> bool {
    spec_numeral_tail(s, pos) ==> (r matches Some((p, e)) && p == s.len() && e
        == Expression::Literal(spec_dec_val(s.subrange(pos, s.len() as int)) as u32))
}

/// Whether the character is a decimal digit.
pub fn is_dec_digit(c: char) -> (r: bool)
    ensures
        r == spec_is_dec_digit(c),
{
    let u = c as u32;
    48 <= u && u <= 57
}

/// Whether the character is a hexadecimal digit.
pub fn is_hex_digit(c: char) -> (r: bool)
    ensures
        r == spec_is_hex_digit(c),
{
    let u = c as u32;
    (48 <= u && u <= 57) || (97 <= u && u <= 102) || (65 <= u && u <= 70)
}

/// Read a whole string of decimal digits as a number. Fails on an empty
/// string, a character that is no decimal digit, or a value past the
/// 32-bit range — exactly then.
pub fn from_dec(input: &str) -> (r: Result<u32, SyntaxError>)
    ensures
        match r {
            Ok(v) => {
                &&& input@.len() > 0
                &&& forall|i: int| 0 <= i < input@.len() ==> spec_is_dec_digit(#[trigger] input@[i])
                &&& spec_dec_val(input@) <= u32::MAX
                &&& v == spec_dec_val(input@)
            },
            Err(_) => {
                ||| input@.len() == 0
                ||| exists|i: int| 0 <= i < input@.len() && !spec_is_dec_digit(#[trigger] input@[i])
                ||| spec_dec_val(input@) > u32::MAX
            },
        },
{
    let n = input.unicode_len();
    if n == 0 {
        return Err(SyntaxError::ParseError("empty number".to_owned()));
    }
    let mut acc: u64 = 0;
    let mut i: usize = 0;
    while i < n
        invariant
            i <= n == input@.len(),
            acc == spec_dec_val(input@.subrange(0, i as int)),
            acc <= u32::MAX,
            forall|k: int| 0 <= k < i ==> spec_is_dec_digit(#[trigger] input@[k]),
        decreases n - i,
    {
        let c = input.get_char(i);
        if !is_dec_digit(c) {
            return Err(SyntaxError::ParseError("not a decimal digit".to_owned()));
        }
        let d: u64 = (c as u32) as u64 - 48;
        let next: u64 = acc * 10 + d;
        proof {
            assert(input@.subrange(0, i + 1).drop_last() =~= input@.subrange(0, i as int));
            assert(input@.subrange(0, i + 1).last() == input@[i as int]);
        }
        if next > 0xFFFF_FFFF {
            proof {
                if forall|k: int| i + 1 <= k < input@.len() ==> spec_is_dec_digit(
                    #[trigger] input@[k],
                ) {
                    lemma_dec_val_overflow(input@, i + 1);
                }
            }
            return Err(SyntaxError::ParseError("number too large".to_owned()));
        }
        acc = next;
        i += 1;
    }
    proof {
        assert(input@.subrange(0, n as int) =~= input@);
    }
    Ok(acc as u32)
}

/// Once a digit-string prefix's value exceeds the 32-bit range, the whole
/// string's value does too.
proof fn lemma_dec_val_overflow(s: Seq<char>, i: int)
    requires
        0 <= i <= s.len(),
        forall|k: int| i <= k < s.len() ==> spec_is_dec_digit(#[trigger] s[k]),
        spec_dec_val(s.subrange(0, i)) > u32::MAX,
    ensures
        spec_dec_val(s) > u32::MAX,
    decreases s.len() - i,
{
    if i < s.len() {
        let pre = s.subrange(0, i);
        let nxt = s.subrange(0, i + 1);
        assert(nxt.drop_last() =~= pre);
        lemma_dec_val_overflow(s, i + 1);
    } else {
        assert(s.subrange(0, i) =~= s);
    }
}

/// Once a hex-digit-string prefix's value exceeds the 32-bit range, the
/// whole string's value does too.
proof fn lemma_hex_val_overflow(s: Seq<char>, i: int)
    requires
        0 <= i <= s.len(),
        forall|k: int| i <= k < s.len() ==> spec_is_hex_digit(#[trigger] s[k]),
        spec_hex_val(s.subrange(0, i)) > u32::MAX,
    ensures
        spec_hex_val(s) > u32::MAX,
    decreases s.len() - i,
{
    if i < s.len() {
        let pre = s.subrange(0, i);
        let nxt = s.subrange(0, i + 1);
        assert(nxt.drop_last() =~= pre);
        lemma_hex_val_overflow(s, i + 1);
    } else {
        assert(s.subrange(0, i) =~= s);
    }
}

/// Read a whole string of hexadecimal digits as a number. Fails on an
/// empty string, a character that is no hexadecimal digit, or a value
/// past the 32-bit range — exactly then.
pub fn from_hex(input: &str) -> (r: Result<u32, SyntaxError>)
    ensures
        match r {
            Ok(v) => {
                &&& input@.len() > 0
                &&& forall|i: int| 0 <= i < input@.len() ==> spec_is_hex_digit(#[trigger] input@[i])
                &&& spec_hex_val(input@) <= u32::MAX
                &&& v == spec_hex_val(input@)
            },
            Err(_) => {
                ||| input@.len() == 0
                ||| exists|i: int| 0 <= i < input@.len() && !spec_is_hex_digit(#[trigger] input@[i])
                ||| spec_hex_val(input@) > u32::MAX
            },
        },
{
    let n = input.unicode_len();
    if n == 0 {
        return Err(SyntaxError::ParseError("empty number".to_owned()));
    }
    let mut acc: u64 = 0;
    let mut i: usize = 0;
    while i < n
        invariant
            i <= n == input@.len(),
            acc == spec_hex_val(input@.subrange(0, i as int)),
            acc <= u32::MAX,
            forall|k: int| 0 <= k < i ==> spec_is_hex_digit(#[trigger] input@[k]),
        decreases n - i,
    {
        let c = input.get_char(i);
        if !is_hex_digit(c) {
            return Err(SyntaxError::ParseError("not a hexadecimal digit".to_owned()));
        }
        let u = c as u32;
        let d: u64 = if 97 <= u {
            (u - 87) as u64
        } else if 65 <= u {
            (u - 55) as u64
        } else {
            (u - 48) as u64
        };
        let next: u64 = acc * 16 + d;
        proof {
            assert(input@.subrange(0, i + 1).drop_last() =~= input@.subrange(0, i as int));
            assert(input@.subrange(0, i + 1).last() == input@[i as int]);
        }
        if next > 0xFFFF_FFFF {
            proof {
                if forall|k: int| i + 1 <= k < input@.len() ==> spec_is_hex_digit(
                    #[trigger] input@[k],
                ) {
                    lemma_hex_val_overflow(input@, i + 1);
                }
            }
            return Err(SyntaxError::ParseError("number too large".to_owned()));
        }
        acc = next;
        i += 1;
    }
    proof {
        assert(input@.subrange(0, n as int) =~= input@);
    }
    Ok(acc as u32)
}

/// Match the nonempty literal `t` at `pos`; on a match, the position past
/// it.
fn tag(input: &str, pos: usize, t: &str) -> (r: Option<usize>)
    requires
        pos <= input@.len(),
    ensures
        match r {
            Some(p) => {
                &&& pos < p <= input@.len()
                &&& p == pos + t@.len()
                &&& input@.subrange(pos as int, p as int) == t@
            },
            None => true,
        },
{
    let n = input.unicode_len();
    let tlen = t.unicode_len();
    if tlen == 0 || n - pos < tlen {
        return None;
    }
    let mut j: usize = 0;
    while j < tlen
        invariant
            j <= tlen == t@.len(),
            pos + tlen <= n == input@.len(),
            forall|k: int| 0 <= k < j ==> input@[pos + k] == t@[k],
        decreases tlen - j,
    {
        if input.get_char(pos + j) != t.get_char(j) {
            return None;
        }
        j += 1;
    }
    proof {
        assert(input@.subrange(pos as int, (pos + tlen) as int) =~= t@);
    }
    Some(pos + tlen)
}

/// Consume any run of spaces, tabs, carriage returns and line feeds.
pub fn whitespace(input: &str, pos: usize) -> (r: usize)
    requires
        pos <= input@.len(),
    ensures
        pos <= r <= input@.len(),
        pos < input@.len() && !spec_is_space(input@[pos as int]) ==> r == pos,
{
    let n = input.unicode_len();
    let mut p = pos;
    while p < n
        invariant
            pos <= p <= n == input@.len(),
            p > pos ==> spec_is_space(input@[pos as int]),
        decreases n - p,
    {
        let c = input.get_char(p);
        if c == ' ' || c == '\t' || c == '\r' || c == '\n' {
            p += 1;
        } else {
            return p;
        }
    }
    p
}

/// A comment delimited by `/*` and `*/` whose text holds at least one
/// character and neither `*` nor `/`.
pub fn multi_line_comment(input: &str, pos: usize) -> (r: Option<usize>)
    requires
        pos <= input@.len(),
    ensures
        r matches Some(p) ==> pos < p <= input@.len() && input@[pos as int] == '/',
{
    proof {
        reveal_strlit("/*");
        reveal_strlit("//");
    }
    let n = input.unicode_len();
    let p = match tag(input, pos, "/*") {
        Some(p) => p,
        None => {
            return None;
        },
    };
    proof {
        assert(input@.subrange(pos as int, p as int)[0] == input@[pos as int]);
    }
    let mut q = p;
    while q < n
        invariant
            pos <= p <= q <= n == input@.len(),
        decreases n - q,
    {
        let c = input.get_char(q);
        if c == '*' || c == '/' {
            break ;
        }
        q += 1;
    }
    if q == p {
        return None;
    }
    match tag(input, q, "*/") {
        Some(e) => Some(e),
        None => None,
    }
}

/// A comment from `//` to the end of the line, holding at least one
/// character and closed by a line feed.
pub fn single_line_comment(input: &str, pos: usize) -> (r: Option<usize>)
    requires
        pos <= input@.len(),
    ensures
        r matches Some(p) ==> pos < p <= input@.len() && input@[pos as int] == '/',
{
    proof {
        reveal_strlit("/*");
        reveal_strlit("//");
    }
    let n = input.unicode_len();
    let p = match tag(input, pos, "//") {
        Some(p) => p,
        None => {
            return None;
        },
    };
    proof {
        assert(input@.subrange(pos as int, p as int)[0] == input@[pos as int]);
    }
    let mut q = p;
    while q < n
        invariant
            pos <= p <= q <= n == input@.len(),
        decreases n - q,
    {
        let c = input.get_char(q);
        if c == '\n' {
            break ;
        }
        q += 1;
    }
    if q == p {
        return None;
    }
    match tag(input, q, "\n") {
        Some(e) => Some(e),
        None => None,
    }
}

/// Either kind of comment.
pub fn comment(input: &str, pos: usize) -> (r: Option<usize>)
    requires
        pos <= input@.len(),
    ensures
        r matches Some(p) ==> pos < p <= input@.len() && input@[pos as int] == '/',
{
    match multi_line_comment(input, pos) {
        Some(p) => Some(p),
        None => single_line_comment(input, pos),
    }
}

/// Consume whitespace and comments until neither makes progress.
pub fn sp(input: &str, pos: usize) -> (r: usize)
    requires
        pos <= input@.len(),
    ensures
        pos <= r <= input@.len(),
        pos < input@.len() && !spec_is_space(input@[pos as int]) && input@[pos as int] != '/'
            ==> r == pos,
{
    let mut p = pos;
    loop
        invariant
            pos <= p <= input@.len(),
            pos < input@.len() && !spec_is_space(input@[pos as int]) && input@[pos as int] != '/'
                ==> p == pos,
        ensures
            pos <= p <= input@.len(),
            pos < input@.len() && !spec_is_space(input@[pos as int]) && input@[pos as int] != '/'
                ==> p == pos,
        decreases input@.len() - p,
    {
        let start = p;
        p = whitespace(input, p);
        match comment(input, p) {
            Some(q) => {
                p = q;
            },
            None => {},
        }
        p = whitespace(input, p);
        if p == start {
            return p;
        }
    }
}

/// The longest run of decimal digits at `pos`, read as a number; no run
/// or a value past the 32-bit range is no match.
pub fn dec_number(input: &str, pos: usize) -> (r: Option<(usize, u32)>)
    requires
        pos <= input@.len(),
    ensures
        r matches Some((p, v)) ==> {
            &&& pos < p <= input@.len()
            &&& forall|k: int| pos <= k < p ==> spec_is_dec_digit(#[trigger] input@[k])
            &&& (p < input@.len() ==> !spec_is_dec_digit(input@[p as int]))
            &&& v == spec_dec_val(input@.subrange(pos as int, p as int))
        },
        spec_numeral_tail(input@, pos as int) ==> r is Some,
{
    let n = input.unicode_len();
    let mut q = pos;
    while q < n
        invariant
            pos <= q <= n == input@.len(),
        ensures
            pos <= q <= n,
            q < n ==> !spec_is_dec_digit(input@[q as int]),
        decreases n - q,
    {
        if !is_dec_digit(input.get_char(q)) {
            break ;
        }
        q += 1;
    }
    if q == pos {
        return None;
    }
    let span = input.substring_char(pos, q);
    match from_dec(span) {
        Ok(v) => {
            proof {
                assert forall|k: int| pos <= k < q implies spec_is_dec_digit(
                    #[trigger] input@[k],
                ) by {
                    assert(input@.subrange(pos as int, q as int)[k - pos] == input@[k]);
                }
            }
            Some((q, v))
        },
        Err(_) => {
            proof {
                if spec_numeral_tail(input@, pos as int) {
                    assert forall|i: int| 0 <= i < span@.len() implies spec_is_dec_digit(
                        #[trigger] span@[i],
                    ) by {
                        assert(span@[i] == input@[pos + i]);
                    }
                    assert(span@ =~= input@.subrange(pos as int, input@.len() as int));
                }
            }
            None
        },
    }
}

/// The longest run of hexadecimal digits at `pos`, read as a number.
pub fn hex_number(input: &str, pos: usize) -> (r: Option<(usize, u32)>)
    requires
        pos <= input@.len(),
    ensures
        r matches Some((p, v)) ==> {
            &&& pos < p <= input@.len()
            &&& forall|k: int| pos <= k < p ==> spec_is_hex_digit(#[trigger] input@[k])
            &&& (p < input@.len() ==> !spec_is_hex_digit(input@[p as int]))
            &&& v == spec_hex_val(input@.subrange(pos as int, p as int))
        },
{
    let n = input.unicode_len();
    let mut q = pos;
    while q < n
        invariant
            pos <= q <= n == input@.len(),
        ensures
            pos <= q <= n,
            q < n ==> !spec_is_hex_digit(input@[q as int]),
        decreases n - q,
    {
        if !is_hex_digit(input.get_char(q)) {
            break ;
        }
        q += 1;
    }
    if q == pos {
        return None;
    }
    let span = input.substring_char(pos, q);
    match from_hex(span) {
        Ok(v) => {
            proof {
                assert forall|k: int| pos <= k < q implies spec_is_hex_digit(
                    #[trigger] input@[k],
                ) by {
                    assert(input@.subrange(pos as int, q as int)[k - pos] == input@[k]);
                }
            }
            Some((q, v))
        },
        Err(_) => None,
    }
}

/// A hexadecimal literal: `0x` followed by hexadecimal digits.
pub fn hex_literal(input: &str, pos: usize) -> (r: Option<(usize, u32)>)
    requires
        pos <= input@.len(),
    ensures
        r matches Some((p, v)) ==> {
            &&& pos + 2 < p <= input@.len()
            &&& input@.subrange(pos as int, pos + 2) == "0x"@
            &&& v == spec_hex_val(input@.subrange(pos + 2, p as int))
        },
{
    proof {
        reveal_strlit("0x");
    }
    let p = match tag(input, pos, "0x") {
        Some(p) => p,
        None => {
            return None;
        },
    };
    match hex_number(input, p) {
        Some((q, v)) => Some((q, v)),
        None => None,
    }
}

/// A numeric literal, hexadecimal or decimal.
pub fn literal(input: &str, pos: usize) -> (r: Option<(usize, Expression)>)
    requires
        pos <= input@.len(),
    ensures
        r matches Some((p, e)) ==> {
            &&& pos < p <= input@.len()
            &&& (e matches Expression::Literal(v) && ((input@.len() >= pos + 2 && input@.subrange(
                pos as int,
                pos + 2,
            ) == "0x"@ && v == spec_hex_val(input@.subrange(pos + 2, p as int))) || v
                == spec_dec_val(input@.subrange(pos as int, p as int))))
        },
        spec_numeral_result(input@, pos as int, r),
{
    proof {
        reveal_strlit("0x");
    }
    match hex_literal(input, pos) {
        Some((p, v)) => {
            proof {
                if spec_numeral_tail(input@, pos as int) {
                    assert(input@.subrange(pos as int, pos + 2)[1] == input@[pos + 1]);
                    assert(false);
                }
            }
            Some((p, Expression::Literal(v)))
        },
        None => match dec_number(input, pos) {
            Some((p, v)) => Some((p, Expression::Literal(v))),
            None => None,
        },
    }
}

/// The longest run of alphabetic characters at `pos`.
pub fn variable_name(input: &str, pos: usize) -> (r: Option<(usize, String)>)
    requires
        pos <= input@.len(),
    ensures
        r matches Some((p, name)) ==> {
            &&& pos < p <= input@.len()
            &&& name@ == input@.subrange(pos as int, p as int)
            &&& forall|k: int| pos <= k < p ==> unicode_alphabetic(#[trigger] input@[k])
            &&& (p < input@.len() ==> !unicode_alphabetic(input@[p as int]))
        },
{
    let n = input.unicode_len();
    let mut q = pos;
    while q < n
        invariant
            pos <= q <= n == input@.len(),
            forall|k: int| pos <= k < q ==> unicode_alphabetic(#[trigger] input@[k]),
        ensures
            pos <= q <= n,
            forall|k: int| pos <= k < q ==> unicode_alphabetic(#[trigger] input@[k]),
            q < n ==> !unicode_alphabetic(input@[q as int]),
        decreases n - q,
    {
        if !input.get_char(q).is_alphabetic() {
            break ;
        }
        q += 1;
    }
    if q == pos {
        return None;
    }
    let name = input.substring_char(pos, q);
    Some((q, name.to_owned()))
}

/// A variable read.
pub fn load_expression(input: &str, pos: usize) -> (r: Option<(usize, Expression)>)
    requires
        pos <= input@.len(),
    ensures
        r matches Some((p, _)) ==> pos < p <= input@.len(),
{
    match variable_name(input, pos) {
        Some((p, name)) => Some((p, Expression::Load(name))),
        None => None,
    }
}

/// A parenthesized expression.
pub fn bracketed_expression(input: &str, pos: usize) -> (r: Option<(usize, Expression)>)
    requires
        pos <= input@.len(),
    ensures
        r matches Some((p, _)) ==> pos < p <= input@.len(),
    decreases input@.len() - pos, 2int,
{
    let p = tag(input, pos, "(")?;
    let (p, e) = expression_at(input, p)?;
    let p = tag(input, p, ")")?;
    Some((p, e))
}

/// A comma between two expressions inside a call's parentheses, with
/// space around both.
fn call_comma(input: &str, pos: usize) -> (r: Option<usize>)
    requires
        pos <= input@.len(),
    ensures
        r matches Some(p) ==> pos <= p <= input@.len(),
{
    let p = sp(input, pos);
    let p = tag(input, p, ",")?;
    Some(sp(input, p))
}

/// A host-call or intrinsic expression: `random`, `get_pixel`,
/// `get_length`, `get_wall_time`, `get_precise_time`, and the lowered
/// forms `rgb`, `clamp`, `red`, `green` and `blue`.
pub fn user_expression(input: &str, pos: usize) -> (r: Option<(usize, Expression)>)
    requires
        pos <= input@.len(),
    ensures
        r matches Some((p, _)) ==> pos < p <= input@.len(),
    decreases input@.len() - pos, 2int,
{
    if let Some(p) = tag(input, pos, "random(") {
        let (p, e) = expression_at(input, p)?;
        let p = tag(input, p, ")")?;
        return Some((p, Expression::UserCall(instructions::UserCommand::RANDOM_INT, vec![e])));
    }
    if let Some(p) = tag(input, pos, "get_pixel(") {
        let (p, e) = expression_at(input, p)?;
        let p = tag(input, p, ")")?;
        return Some((p, Expression::UserCall(instructions::UserCommand::GET_PIXEL, vec![e])));
    }
    if let Some(p) = tag(input, pos, "get_length") {
        return Some((p, Expression::User(instructions::UserCommand::GET_LENGTH)));
    }
    if let Some(p) = tag(input, pos, "get_wall_time") {
        return Some((p, Expression::User(instructions::UserCommand::GET_WALL_TIME)));
    }
    if let Some(p) = tag(input, pos, "get_precise_time") {
        return Some((p, Expression::User(instructions::UserCommand::GET_PRECISE_TIME)));
    }
    if let Some(p) = tag(input, pos, "rgb(") {
        // rgb(r, g, b) lowers to (r & 0xFF) | ((g & 0xFF) << 8) | ((b & 0xFF) << 16)
        let p = sp(input, p);
        let (p, red) = expression_at(input, p)?;
        let p = call_comma(input, p)?;
        let (p, green) = expression_at(input, p)?;
        let p = call_comma(input, p)?;
        let (p, blue) = expression_at(input, p)?;
        let p = sp(input, p);
        let p = tag(input, p, ")")?;
        let low = Expression::Binary(
            Box::new(red),
            instructions::Binary::AND,
            Box::new(Expression::Literal(0xFF)),
        );
        let mid = Expression::Binary(
            Box::new(
                Expression::Binary(
                    Box::new(green),
                    instructions::Binary::AND,
                    Box::new(Expression::Literal(0xFF)),
                ),
            ),
            instructions::Binary::SHL,
            Box::new(Expression::Literal(8)),
        );
        let high = Expression::Binary(
            Box::new(
                Expression::Binary(
                    Box::new(blue),
                    instructions::Binary::AND,
                    Box::new(Expression::Literal(0xFF)),
                ),
            ),
            instructions::Binary::SHL,
            Box::new(Expression::Literal(16)),
        );
        let packed = Expression::Binary(
            Box::new(Expression::Binary(Box::new(low), instructions::Binary::OR, Box::new(mid))),
            instructions::Binary::OR,
            Box::new(high),
        );
        return Some((p, packed));
    }
    if let Some(p) = tag(input, pos, "clamp(") {
        let p = sp(input, p);
        let (p, value) = expression_at(input, p)?;
        let p = call_comma(input, p)?;
        let (p, lo) = expression_at(input, p)?;
        let p = call_comma(input, p)?;
        let (p, hi) = expression_at(input, p)?;
        let p = sp(input, p);
        let p = tag(input, p, ")")?;
        return Some(
            (
                p,
                Expression::Intrinsic(
                    Intrinsic::Clamp(Box::new(value), Box::new(lo), Box::new(hi)),
                ),
            ),
        );
    }
    if let Some(p) = tag(input, pos, "red(") {
        let (p, e) = expression_at(input, p)?;
        let p = tag(input, p, ")")?;
        return Some(
            (
                p,
                Expression::Binary(
                    Box::new(e),
                    instructions::Binary::AND,
                    Box::new(Expression::Literal(0xFF)),
                ),
            ),
        );
    }
    if let Some(p) = tag(input, pos, "green(") {
        let (p, e) = expression_at(input, p)?;
        let p = tag(input, p, ")")?;
        return Some(
            (
                p,
                Expression::Binary(
                    Box::new(Expression::Unary(instructions::Unary::SHR8, Box::new(e))),
                    instructions::Binary::AND,
                    Box::new(Expression::Literal(0xFF)),
                ),
            ),
        );
    }
    if let Some(p) = tag(input, pos, "blue(") {
        let (p, e) = expression_at(input, p)?;
        let p = tag(input, p, ")")?;
        return Some(
            (
                p,
                Expression::Binary(
                    Box::new(
                        Expression::Unary(
                            instructions::Unary::SHR8,
                            Box::new(Expression::Unary(instructions::Unary::SHR8, Box::new(e))),
                        ),
                    ),
                    instructions::Binary::AND,
                    Box::new(Expression::Literal(0xFF)),
                ),
            ),
        );
    }
    None
}

/// One term: a literal, a host-call expression, a variable read, or a
/// parenthesized expression.
pub fn term(input: &str, pos: usize) -> (r: Option<(usize, Expression)>)
    requires
        pos <= input@.len(),
    ensures
        r matches Some((p, _)) ==> pos < p <= input@.len(),
        spec_numeral_result(input@, pos as int, r),
    decreases input@.len() - pos, 3int,
{
    if let Some(r) = literal(input, pos) {
        return Some(r);
    }
    if let Some(r) = user_expression(input, pos) {
        return Some(r);
    }
    if let Some(r) = load_expression(input, pos) {
        return Some(r);
    }
    bracketed_expression(input, pos)
}

/// Multiplicative operators, left-associative; a shift by a literal
/// multiple of eight is rewritten into a chain of one-byte shifts, which
/// shrinks the code and lets constant folding through.
pub fn multiplication(input: &str, pos: usize) -> (r: Option<(usize, Expression)>)
    requires
        pos <= input@.len(),
    ensures
        r matches Some((p, _)) ==> pos < p <= input@.len(),
        spec_numeral_result(input@, pos as int, r),
    decreases input@.len() - pos, 4int,
{
    let (first, init) = term(input, pos)?;
    let mut p = first;
    let mut acc = init;
    loop
        invariant
            pos < first <= p <= input@.len(),
            spec_numeral_tail(input@, pos as int) ==> (p == input@.len() && acc
                == Expression::Literal(
                spec_dec_val(input@.subrange(pos as int, input@.len() as int)) as u32,
            )),
        ensures
            pos < p <= input@.len(),
            spec_numeral_tail(input@, pos as int) ==> (p == input@.len() && acc
                == Expression::Literal(
                spec_dec_val(input@.subrange(pos as int, input@.len() as int)) as u32,
            )),
        decreases input@.len() - p,
    {
        let save = p;
        let p1 = sp(input, p);
        let op: u8;
        let p2: usize;
        if let Some(q) = tag(input, p1, "*") {
            op = 0;
            p2 = q;
        } else if let Some(q) = tag(input, p1, "/") {
            op = 1;
            p2 = q;
        } else if let Some(q) = tag(input, p1, "%") {
            op = 2;
            p2 = q;
        } else if let Some(q) = tag(input, p1, "<<") {
            op = 3;
            p2 = q;
        } else if let Some(q) = tag(input, p1, ">>") {
            op = 4;
            p2 = q;
        } else {
            p = save;
            break ;
        }
        let p3 = sp(input, p2);
        match term(input, p3) {
            Some((p4, val)) => {
                if op == 0 {
                    acc = Expression::Binary(Box::new(acc), instructions::Binary::MUL, Box::new(val));
                } else if op == 1 {
                    acc = Expression::Binary(Box::new(acc), instructions::Binary::DIV, Box::new(val));
                } else if op == 2 {
                    acc = Expression::Binary(Box::new(acc), instructions::Binary::MOD, Box::new(val));
                } else {
                    let binary_op = if op == 3 {
                        instructions::Binary::SHL
                    } else {
                        instructions::Binary::SHR
                    };
                    let unary_op = if op == 3 {
                        instructions::Unary::SHL8
                    } else {
                        instructions::Unary::SHR8
                    };
                    match val {
                        Expression::Literal(shift) => {
                            if shift % 8 == 0 {
                                let times = shift / 8;
                                let mut t: u32 = 0;
                                while t < times
                                    invariant
                                        t <= times,
                                    decreases times - t,
                                {
                                    acc = Expression::Unary(unary_op, Box::new(acc));
                                    t += 1;
                                }
                            } else {
                                acc = Expression::Binary(
                                    Box::new(acc),
                                    binary_op,
                                    Box::new(Expression::Literal(shift)),
                                );
                            }
                        },
                        _ => {
                            acc = Expression::Binary(Box::new(acc), binary_op, Box::new(val));
                        },
                    }
                }
                p = p4;
            },
            None => {
                p = save;
                break ;
            },
        }
    }
    Some((p, acc))
}

/// Additive operators, left-associative.
pub fn addition(input: &str, pos: usize) -> (r: Option<(usize, Expression)>)
    requires
        pos <= input@.len(),
    ensures
        r matches Some((p, _)) ==> pos < p <= input@.len(),
        spec_numeral_result(input@, pos as int, r),
    decreases input@.len() - pos, 5int,
{
    let (first, init) = multiplication(input, pos)?;
    let mut p = first;
    let mut acc = init;
    loop
        invariant
            pos < first <= p <= input@.len(),
            spec_numeral_tail(input@, pos as int) ==> (p == input@.len() && acc
                == Expression::Literal(
                spec_dec_val(input@.subrange(pos as int, input@.len() as int)) as u32,
            )),
        ensures
            pos < p <= input@.len(),
            spec_numeral_tail(input@, pos as int) ==> (p == input@.len() && acc
                == Expression::Literal(
                spec_dec_val(input@.subrange(pos as int, input@.len() as int)) as u32,
            )),
        decreases input@.len() - p,
    {
        let save = p;
        let p1 = sp(input, p);
        let add_op: bool;
        let p2: usize;
        if let Some(q) = tag(input, p1, "+") {
            add_op = true;
            p2 = q;
        } else if let Some(q) = tag(input, p1, "-") {
            add_op = false;
            p2 = q;
        } else {
            p = save;
            break ;
        }
        let p3 = sp(input, p2);
        match multiplication(input, p3) {
            Some((p4, val)) => {
                acc = Expression::Binary(
                    Box::new(acc),
                    if add_op {
                        instructions::Binary::ADD
                    } else {
                        instructions::Binary::SUB
                    },
                    Box::new(val),
                );
                p = p4;
            },
            None => {
                p = save;
                break ;
            },
        }
    }
    Some((p, acc))
}

/// Bitwise and shift operators, left-associative.
pub fn binaries(input: &str, pos: usize) -> (r: Option<(usize, Expression)>)
    requires
        pos <= input@.len(),
    ensures
        r matches Some((p, _)) ==> pos < p <= input@.len(),
        spec_numeral_result(input@, pos as int, r),
    decreases input@.len() - pos, 6int,
{
    let (first, init) = addition(input, pos)?;
    let mut p = first;
    let mut acc = init;
    loop
        invariant
            pos < first <= p <= input@.len(),
            spec_numeral_tail(input@, pos as int) ==> (p == input@.len() && acc
                == Expression::Literal(
                spec_dec_val(input@.subrange(pos as int, input@.len() as int)) as u32,
            )),
        ensures
            pos < p <= input@.len(),
            spec_numeral_tail(input@, pos as int) ==> (p == input@.len() && acc
                == Expression::Literal(
                spec_dec_val(input@.subrange(pos as int, input@.len() as int)) as u32,
            )),
        decreases input@.len() - p,
    {
        let save = p;
        let p1 = sp(input, p);
        let op: instructions::Binary;
        let p2: usize;
        if let Some(q) = tag(input, p1, "|") {
            op = instructions::Binary::OR;
            p2 = q;
        } else if let Some(q) = tag(input, p1, "^") {
            op = instructions::Binary::XOR;
            p2 = q;
        } else if let Some(q) = tag(input, p1, "&") {
            op = instructions::Binary::AND;
            p2 = q;
        } else if let Some(q) = tag(input, p1, ">>") {
            op = instructions::Binary::SHR;
            p2 = q;
        } else if let Some(q) = tag(input, p1, "<<") {
            op = instructions::Binary::SHL;
            p2 = q;
        } else {
            p = save;
            break ;
        }
        let p3 = sp(input, p2);
        match addition(input, p3) {
            Some((p4, val)) => {
                acc = Expression::Binary(Box::new(acc), op, Box::new(val));
                p = p4;
            },
            None => {
                p = save;
                break ;
            },
        }
    }
    Some((p, acc))
}

/// Prefix operators: arithmetic negation and bitwise complement.
pub fn unaries(input: &str, pos: usize) -> (r: Option<(usize, Expression)>)
    requires
        pos <= input@.len(),
    ensures
        r matches Some((p, _)) ==> pos < p <= input@.len(),
        spec_numeral_result(input@, pos as int, r),
    decreases input@.len() - pos, 7int,
{
    proof {
        reveal_strlit("-");
        reveal_strlit("~");
    }
    if let Some(p) = tag(input, pos, "-") {
        proof {
            if spec_numeral_tail(input@, pos as int) {
                assert(input@.subrange(pos as int, p as int)[0] == input@[pos as int]);
                assert(false);
            }
        }
        if let Some((q, e)) = unaries(input, p) {
            return Some((q, Expression::Unary(instructions::Unary::NEG, Box::new(e))));
        }
    }
    if let Some(p) = tag(input, pos, "~") {
        proof {
            if spec_numeral_tail(input@, pos as int) {
                assert(input@.subrange(pos as int, p as int)[0] == input@[pos as int]);
                assert(false);
            }
        }
        if let Some((q, e)) = unaries(input, p) {
            return Some((q, Expression::Unary(instructions::Unary::NOT, Box::new(e))));
        }
    }
    binaries(input, pos)
}

/// Comparison operators, left-associative; the loosest-binding level.
pub fn comparison(input: &str, pos: usize) -> (r: Option<(usize, Expression)>)
    requires
        pos <= input@.len(),
    ensures
        r matches Some((p, _)) ==> pos < p <= input@.len(),
        spec_numeral_result(input@, pos as int, r),
    decreases input@.len() - pos, 8int,
{
    let (first, init) = unaries(input, pos)?;
    let mut p = first;
    let mut acc = init;
    loop
        invariant
            pos < first <= p <= input@.len(),
            spec_numeral_tail(input@, pos as int) ==> (p == input@.len() && acc
                == Expression::Literal(
                spec_dec_val(input@.subrange(pos as int, input@.len() as int)) as u32,
            )),
        ensures
            pos < p <= input@.len(),
            spec_numeral_tail(input@, pos as int) ==> (p == input@.len() && acc
                == Expression::Literal(
                spec_dec_val(input@.subrange(pos as int, input@.len() as int)) as u32,
            )),
        decreases input@.len() - p,
    {
        let save = p;
        let p1 = sp(input, p);
        let op: instructions::Binary;
        let p2: usize;
        if let Some(q) = tag(input, p1, ">=") {
            op = instructions::Binary::GTE;
            p2 = q;
        } else if let Some(q) = tag(input, p1, "<=") {
            op = instructions::Binary::LTE;
            p2 = q;
        } else if let Some(q) = tag(input, p1, ">") {
            op = instructions::Binary::GT;
            p2 = q;
        } else if let Some(q) = tag(input, p1, "<") {
            op = instructions::Binary::LT;
            p2 = q;
        } else if let Some(q) = tag(input, p1, "==") {
            op = instructions::Binary::EQ;
            p2 = q;
        } else if let Some(q) = tag(input, p1, "!=") {
            op = instructions::Binary::NEQ;
            p2 = q;
        } else {
            p = save;
            break ;
        }
        let p3 = sp(input, p2);
        match unaries(input, p3) {
            Some((p4, val)) => {
                acc = Expression::Binary(Box::new(acc), op, Box::new(val));
                p = p4;
            },
            None => {
                p = save;
                break ;
            },
        }
    }
    Some((p, acc))
}

/// A whole expression at `pos`.
pub fn expression_at(input: &str, pos: usize) -> (r: Option<(usize, Expression)>)
    requires
        pos <= input@.len(),
    ensures
        r matches Some((p, _)) ==> pos < p <= input@.len(),
        spec_numeral_result(input@, pos as int, r),
    decreases input@.len() - pos, 9int,
{
    comparison(input, pos)
}

/// An expression standing alone as a statement.
pub fn expression_statement(input: &str, pos: usize) -> (r: Option<(usize, Node)>)
    requires
        pos <= input@.len(),
    ensures
        r matches Some((p, _)) ==> pos < p <= input@.len(),
        r matches Some((p, n)) ==> n is Expression,
        spec_numeral_tail(input@, pos as int) ==> (r matches Some((p, n)) && p == input@.len()
            && n == Node::Expression(
            Expression::Literal(
                spec_dec_val(input@.subrange(pos as int, input@.len() as int)) as u32,
            ),
        )),
    decreases input@.len() - pos, 10int,
{
    match expression_at(input, pos) {
        Some((p, e)) => Some((p, Node::Expression(e))),
        None => None,
    }
}

/// The `dump` statement.
pub fn special_statement(input: &str, pos: usize) -> (r: Option<(usize, Node)>)
    requires
        pos <= input@.len(),
    ensures
        r matches Some((p, _)) ==> pos < p <= input@.len(),
        r matches Some((p, n)) ==> n == Node::Special(instructions::Special::DUMP),
{
    match tag(input, pos, "dump") {
        Some(p) => Some((p, Node::Special(instructions::Special::DUMP))),
        None => None,
    }
}

/// The `blit` and `set_pixel(index, r, g, b, a)` statements.
pub fn user_statement(input: &str, pos: usize) -> (r: Option<(usize, Node)>)
    requires
        pos <= input@.len(),
    ensures
        r matches Some((p, _)) ==> pos < p <= input@.len(),
        r matches Some((p, n)) ==> (n == Node::User(instructions::UserCommand::BLIT) || (
        n matches Node::UserCall(cmd, args) && cmd == instructions::UserCommand::SET_PIXEL
            && args.len() == 5)),
    decreases input@.len() - pos, 10int,
{
    if let Some(p) = tag(input, pos, "blit") {
        return Some((p, Node::User(instructions::UserCommand::BLIT)));
    }
    let p = tag(input, pos, "set_pixel(")?;
    let p = sp(input, p);
    let (p, index) = expression_at(input, p)?;
    let p = call_comma(input, p)?;
    let (p, red) = expression_at(input, p)?;
    let p = call_comma(input, p)?;
    let (p, green) = expression_at(input, p)?;
    let p = call_comma(input, p)?;
    let (p, blue) = expression_at(input, p)?;
    let p = call_comma(input, p)?;
    let (p, alpha) = expression_at(input, p)?;
    let p = sp(input, p);
    let p = tag(input, p, ")")?;
    let mut args: Vec<Expression> = Vec::new();
    args.push(index);
    args.push(red);
    args.push(green);
    args.push(blue);
    args.push(alpha);
    Some((p, Node::UserCall(instructions::UserCommand::SET_PIXEL, args)))
}

/// The `if( cond ) { … }` statement with its optional `else { … }`.
pub fn if_statement(input: &str, pos: usize) -> (r: Option<(usize, Node)>)
    requires
        pos <= input@.len(),
    ensures
        r matches Some((p, _)) ==> pos < p <= input@.len(),
        r matches Some((p, n)) ==> n is If || n is IfElse,
    decreases input@.len() - pos, 10int,
{
    let p = tag(input, pos, "if(")?;
    let p = sp(input, p);
    let (p, cond) = expression_at(input, p)?;
    let p = sp(input, p);
    let p = tag(input, p, ")")?;
    let p = sp(input, p);
    let p = tag(input, p, "{")?;
    let p = sp(input, p);
    let (p, then_nodes) = program_at(input, p);
    let p = sp(input, p);
    let p = tag(input, p, "}")?;
    let p = sp(input, p);
    if let Some(q) = tag(input, p, "else {") {
        let q = sp(input, q);
        let (q, else_nodes) = program_at(input, q);
        let q = sp(input, q);
        let q2 = tag(input, q, "}")?;
        let q3 = sp(input, q2);
        return Some((q3, Node::IfElse(cond, then_nodes, else_nodes)));
    }
    Some((p, Node::If(cond, then_nodes)))
}

/// The `loop { … }` statement.
pub fn loop_statement(input: &str, pos: usize) -> (r: Option<(usize, Node)>)
    requires
        pos <= input@.len(),
    ensures
        r matches Some((p, _)) ==> pos < p <= input@.len(),
        r matches Some((p, n)) ==> n is Loop,
    decreases input@.len() - pos, 10int,
{
    let p = tag(input, pos, "loop")?;
    let p = sp(input, p);
    let p = tag(input, p, "{")?;
    let p = sp(input, p);
    let (p, body) = program_at(input, p);
    let p = tag(input, p, "}")?;
    Some((p, Node::Loop(body)))
}

/// The `for( name = count ) { … }` statement.
pub fn for_statement(input: &str, pos: usize) -> (r: Option<(usize, Node)>)
    requires
        pos <= input@.len(),
    ensures
        r matches Some((p, _)) ==> pos < p <= input@.len(),
        r matches Some((p, n)) ==> n is For,
    decreases input@.len() - pos, 10int,
{
    let p = tag(input, pos, "for(")?;
    let p = sp(input, p);
    let (p, name) = variable_name(input, p)?;
    let p = sp(input, p);
    let p = tag(input, p, "=")?;
    let p = sp(input, p);
    let (p, count) = expression_at(input, p)?;
    let p = sp(input, p);
    let p = tag(input, p, ")")?;
    let p = sp(input, p);
    let p = tag(input, p, "{")?;
    let p = sp(input, p);
    let (p, body) = program_at(input, p);
    let p = sp(input, p);
    let p = tag(input, p, "}")?;
    Some((p, Node::For(name, count, body)))
}

/// The `let name = expr` statement.
pub fn new_var_assigment_statement(input: &str, pos: usize) -> (r: Option<(usize, Node)>)
    requires
        pos <= input@.len(),
    ensures
        r matches Some((p, _)) ==> pos < p <= input@.len(),
        r matches Some((p, n)) ==> n is NewVarAssignment,
    decreases input@.len() - pos, 10int,
{
    let p = tag(input, pos, "let")?;
    let p = sp(input, p);
    let (p, name) = variable_name(input, p)?;
    let p = sp(input, p);
    let p = tag(input, p, "=")?;
    let p = sp(input, p);
    let (p, value) = expression_at(input, p)?;
    Some((p, Node::NewVarAssignment(name, value)))
}

/// The `name = expr` statement.
pub fn var_assigment_statement(input: &str, pos: usize) -> (r: Option<(usize, Node)>)
    requires
        pos <= input@.len(),
    ensures
        r matches Some((p, _)) ==> pos < p <= input@.len(),
        r matches Some((p, n)) ==> n is VarAssignment,
    decreases input@.len() - pos, 10int,
{
    let (p, name) = variable_name(input, pos)?;
    let p = sp(input, p);
    let p = tag(input, p, "=")?;
    let p = sp(input, p);
    let (p, value) = expression_at(input, p)?;
    Some((p, Node::VarAssignment(name, value)))
}

/// One statement, with space and comments consumed on both sides.
pub fn statement(input: &str, pos: usize) -> (r: Option<(usize, Node)>)
    requires
        pos <= input@.len(),
    ensures
        r matches Some((p, _)) ==> pos < p <= input@.len(),
        spec_numeral_tail(input@, pos as int) ==> (r matches Some((p, n)) && p == input@.len()
            && n == Node::Expression(
            Expression::Literal(
                spec_dec_val(input@.subrange(pos as int, input@.len() as int)) as u32,
            ),
        )),
    decreases input@.len() - pos, 11int,
{
    let p0 = sp(input, pos);
    let n = input.unicode_len();
    // only a letter can open a keyword or a name, so anything else can
    // only be an expression statement
    let head_alpha = if p0 < n {
        input.get_char(p0).is_alphabetic()
    } else {
        false
    };
    let parsed: Option<(usize, Node)> = if !head_alpha {
        expression_statement(input, p0)
    } else if let Some(r) = user_statement(input, p0) {
        Some(r)
    } else if let Some(r) = special_statement(input, p0) {
        Some(r)
    } else if let Some(r) = new_var_assigment_statement(input, p0) {
        Some(r)
    } else if let Some(r) = var_assigment_statement(input, p0) {
        Some(r)
    } else if let Some(r) = if_statement(input, p0) {
        Some(r)
    } else if let Some(r) = for_statement(input, p0) {
        Some(r)
    } else if let Some(r) = loop_statement(input, p0) {
        Some(r)
    } else {
        expression_statement(input, p0)
    };
    match parsed {
        Some((p, node)) => {
            if p <= pos {
                return None;
            }
            Some((sp(input, p), node))
        },
        None => None,
    }
}

/// A statement list separated by `;`, with an optional trailing `;`;
/// always succeeds, on no statement with the empty list.
pub fn program_at(input: &str, pos: usize) -> (r: (usize, Vec<Node>))
    requires
        pos <= input@.len(),
    ensures
        pos <= r.0 <= input@.len(),
        spec_numeral_tail(input@, pos as int) ==> (r.0 == input@.len() && r.1@ == seq![
            Node::Expression(
                Expression::Literal(
                    spec_dec_val(input@.subrange(pos as int, input@.len() as int)) as u32,
                ),
            ),
        ]),
    decreases input@.len() - pos, 12int,
{
    let mut items: Vec<Node> = Vec::new();
    let mut p = pos;
    match statement(input, pos) {
        None => {},
        Some((p1, first)) => {
            let ghost first_node = first;
            items.push(first);
            proof {
                assert(items@ =~= seq![first_node]);
            }
            p = p1;
            loop
                invariant
                    pos <= p <= input@.len(),
                    spec_numeral_tail(input@, pos as int) ==> (p == input@.len() && items@
                        == seq![
                        Node::Expression(
                            Expression::Literal(
                                spec_dec_val(
                                    input@.subrange(pos as int, input@.len() as int),
                                ) as u32,
                            ),
                        ),
                    ]),
                ensures
                    pos <= p <= input@.len(),
                    spec_numeral_tail(input@, pos as int) ==> (p == input@.len() && items@
                        == seq![
                        Node::Expression(
                            Expression::Literal(
                                spec_dec_val(
                                    input@.subrange(pos as int, input@.len() as int),
                                ) as u32,
                            ),
                        ),
                    ]),
                decreases input@.len() - p,
            {
                let save = p;
                let q = sp(input, p);
                match tag(input, q, ";") {
                    None => {
                        p = save;
                        break ;
                    },
                    Some(q2) => {
                        match statement(input, q2) {
                            None => {
                                p = save;
                                break ;
                            },
                            Some((q3, node)) => {
                                items.push(node);
                                p = q3;
                            },
                        }
                    },
                }
            }
        },
    }
    let p = sp(input, p);
    let p = match tag(input, p, ";") {
        Some(q) => q,
        None => p,
    };
    let p = sp(input, p);
    (p, items)
}

} // verus!
