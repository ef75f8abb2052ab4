//! The recursive-descent parser: source bytes in, syntax tree out.
//!
//! The grammar is stated twice. The `spec_*` functions are the grammar in
//! mathematical form: total functions from the input and a position to what
//! is parsed and how many bytes it consumes. The executable parsers mirror
//! them one for one, and each carries the proof that it returns exactly what
//! its `spec_*` function says.
//!
//! Alternation commits to the first alternative that succeeds, and a
//! repetition stops at the first failure, consuming nothing of it: the first
//! mismatch anywhere fails the whole parse, with the failure position
//! reported.
//!
//! Operator precedence is the tower `l4` (atoms) — `l3` (`^`) — `l2`
//! (`*` `/`) — `l1` (`+` `-`), with relational operators above all of it in
//! `conditional_expression`. `^` associates to the right; all other levels
//! fold their operands to the left. Whitespace (spaces and newlines) may
//! appear between tokens and is skipped.

use crate::ast::Arm;
use crate::ast::ArmList;
use crate::ast::CmpOp;
use crate::ast::Expr;
use crate::ast::ExprList;
use crate::ast::FunctionDef;
use crate::ast::Item;
use crate::ast::ItemList;
use crate::ast::MathOp;
use crate::ast::Node;
use crate::ast::ParamList;
use crate::ast::ParseError;
use crate::ast::SpecArm;
use crate::ast::SpecArmList;
use crate::ast::SpecExpr;
use crate::ast::SpecExprList;
use crate::ast::SpecItem;
use crate::ast::SpecItemList;
use crate::ast::SpecStmt;
use crate::ast::SpecStmtList;
use crate::ast::Stmt;
use crate::ast::StmtList;
use vstd::prelude::*;

verus! {

// ===================== Byte classes =====================

/// Whitespace: space or newline.
pub open spec fn is_ws(c: u8) -> bool {
    c == 32 || c == 10
}

/// A decimal digit.
pub open spec fn is_digit(c: u8) -> bool {
    48 <= c && c <= 57
}

/// An alphanumeric byte: a digit or an ASCII letter.
pub open spec fn is_alnum(c: u8) -> bool {
    is_digit(c) || (65 <= c && c <= 90) || (97 <= c && c <= 122)
}

/// A byte allowed inside a string literal: alphanumeric or a space.
pub open spec fn is_strchar(c: u8) -> bool {
    is_alnum(c) || c == 32
}

// ===================== Runs and positions =====================

/// What is left of the input from `pos` on; the measure every parser
/// consumes from.
pub open spec fn rem(s: Seq<u8>, pos: int) -> int {
    if 0 <= pos <= s.len() {
        s.len() - pos
    } else {
        0
    }
}

/// The number of consecutive whitespace bytes at `pos`.
pub open spec fn ws_run(s: Seq<u8>, pos: int) -> nat
    decreases rem(s, pos),
{
    if 0 <= pos < s.len() && is_ws(s[pos]) {
        1 + ws_run(s, pos + 1)
    } else {
        0
    }
}

/// The number of consecutive alphanumeric bytes at `pos`.
pub open spec fn alnum_run(s: Seq<u8>, pos: int) -> nat
    decreases rem(s, pos),
{
    if 0 <= pos < s.len() && is_alnum(s[pos]) {
        1 + alnum_run(s, pos + 1)
    } else {
        0
    }
}

/// The number of consecutive digits at `pos`.
pub open spec fn digit_run(s: Seq<u8>, pos: int) -> nat
    decreases rem(s, pos),
{
    if 0 <= pos < s.len() && is_digit(s[pos]) {
        1 + digit_run(s, pos + 1)
    } else {
        0
    }
}

/// The number of consecutive string-literal bytes at `pos`.
pub open spec fn strchar_run(s: Seq<u8>, pos: int) -> nat
    decreases rem(s, pos),
{
    if 0 <= pos < s.len() && is_strchar(s[pos]) {
        1 + strchar_run(s, pos + 1)
    } else {
        0
    }
}

/// The value of the `n` decimal digits starting at `pos`.
pub open spec fn digits_value(s: Seq<u8>, pos: int, n: nat) -> int
    decreases n,
{
    if n == 0 {
        0
    } else {
        digits_value(s, pos, (n - 1) as nat) * 10 + (s[pos + n - 1] - 48)
    }
}

/// The byte `c` stands at `pos`.
pub open spec fn at_byte(s: Seq<u8>, pos: int, c: u8) -> bool {
    0 <= pos && pos + 1 <= s.len() && s[pos] == c
}

/// `if` stands at `pos`.
pub open spec fn at_if(s: Seq<u8>, pos: int) -> bool {
    0 <= pos && pos + 2 <= s.len() && s[pos] == 105 && s[pos + 1] == 102
}

/// `else` stands at `pos`.
pub open spec fn at_else(s: Seq<u8>, pos: int) -> bool {
    0 <= pos && pos + 4 <= s.len() && s[pos] == 101 && s[pos + 1] == 108 && s[pos + 2] == 115
        && s[pos + 3] == 101
}

/// `fn ` (with its mandatory space) stands at `pos`.
pub open spec fn at_fn_sp(s: Seq<u8>, pos: int) -> bool {
    0 <= pos && pos + 3 <= s.len() && s[pos] == 102 && s[pos + 1] == 110 && s[pos + 2] == 32
}

/// `let ` (with its mandatory space) stands at `pos`.
pub open spec fn at_let_sp(s: Seq<u8>, pos: int) -> bool {
    0 <= pos && pos + 4 <= s.len() && s[pos] == 108 && s[pos + 1] == 101 && s[pos + 2] == 116 && s[
        pos + 3
    ] == 32
}

/// `return ` (with its mandatory space) stands at `pos`.
pub open spec fn at_return_sp(s: Seq<u8>, pos: int) -> bool {
    0 <= pos && pos + 7 <= s.len() && s[pos] == 114 && s[pos + 1] == 101 && s[pos + 2] == 116 && s[
        pos + 3
    ] == 117 && s[pos + 4] == 114 && s[pos + 5] == 110 && s[pos + 6] == 32
}

/// `true` stands at `pos`.
pub open spec fn at_true(s: Seq<u8>, pos: int) -> bool {
    0 <= pos && pos + 4 <= s.len() && s[pos] == 116 && s[pos + 1] == 114 && s[pos + 2] == 117 && s[
        pos + 3
    ] == 101
}

/// `false` stands at `pos`.
pub open spec fn at_false(s: Seq<u8>, pos: int) -> bool {
    0 <= pos && pos + 5 <= s.len() && s[pos] == 102 && s[pos + 1] == 97 && s[pos + 2] == 108 && s[
        pos + 3
    ] == 115 && s[pos + 4] == 101
}

// ===================== Parse outcomes =====================

/// The outcome of one grammar rule at one position: what it built and how
/// many bytes it consumed, or the position of the first byte it could not
/// consume.
pub enum Parsed<T> {
    Found { v: T, used: nat },
    Fail { pos: int },
}

// ===================== Atom rules, mathematical form =====================

/// identifier: one or more alphanumeric bytes.
pub open spec fn spec_identifier(s: Seq<u8>, pos: int) -> Parsed<SpecExpr> {
    let n = alnum_run(s, pos);
    if 0 <= pos <= s.len() && n > 0 {
        Parsed::Found { v: SpecExpr::Identifier { name: s.subrange(pos, pos + n) }, used: n }
    } else {
        Parsed::Fail { pos }
    }
}

/// number: one or more digits, a 32-bit signed value; a run whose value
/// does not fit is not a number.
pub open spec fn spec_number(s: Seq<u8>, pos: int) -> Parsed<SpecExpr> {
    let n = digit_run(s, pos);
    if 0 <= pos <= s.len() && n > 0 {
        if digits_value(s, pos, n) <= 0x7fff_ffff {
            Parsed::Found {
                v: SpecExpr::Number { value: digits_value(s, pos, n) as i32 },
                used: n,
            }
        } else {
            Parsed::Fail { pos }
        }
    } else {
        Parsed::Fail { pos }
    }
}

/// boolean: the keyword `true` or `false`.
pub open spec fn spec_boolean(s: Seq<u8>, pos: int) -> Parsed<SpecExpr> {
    if at_true(s, pos) {
        Parsed::Found { v: SpecExpr::Boolean { value: true }, used: 4 }
    } else if at_false(s, pos) {
        Parsed::Found { v: SpecExpr::Boolean { value: false }, used: 5 }
    } else {
        Parsed::Fail { pos }
    }
}

/// string: a quote, one or more alphanumeric-or-space bytes, a quote.
pub open spec fn spec_string(s: Seq<u8>, pos: int) -> Parsed<SpecExpr> {
    if at_byte(s, pos, 34) {
        let n = strchar_run(s, pos + 1);
        if n > 0 && at_byte(s, pos + 1 + n, 34) {
            Parsed::Found {
                v: SpecExpr::StringLiteral { value: s.subrange(pos + 1, pos + 1 + n) },
                used: n + 2,
            }
        } else {
            Parsed::Fail { pos: pos + 1 + n }
        }
    } else {
        Parsed::Fail { pos }
    }
}

// ===================== Executable scanning =====================

/// First position at or after `pos` that is not whitespace.
fn skip_ws(input: &[u8], pos: usize) -> (r: usize)
    requires
        pos <= input@.len(),
    ensures
        r == pos + ws_run(input@, pos as int),
        pos <= r <= input@.len(),
        input@.len() <= usize::MAX,
    decreases input@.len() - pos,
{
    if pos < input.len() && (input[pos] == 32 || input[pos] == 10) {
        skip_ws(input, pos + 1)
    } else {
        pos
    }
}

/// First position at or after `pos` that is not alphanumeric.
fn scan_alnum(input: &[u8], pos: usize) -> (r: usize)
    requires
        pos <= input@.len(),
    ensures
        r == pos + alnum_run(input@, pos as int),
        pos <= r <= input@.len(),
        input@.len() <= usize::MAX,
    decreases input@.len() - pos,
{
    if pos < input.len() && ((48 <= input[pos] && input[pos] <= 57) || (65 <= input[pos]
        && input[pos] <= 90) || (97 <= input[pos] && input[pos] <= 122)) {
        scan_alnum(input, pos + 1)
    } else {
        pos
    }
}

/// First position at or after `pos` that is not a digit.
fn scan_digits(input: &[u8], pos: usize) -> (r: usize)
    requires
        pos <= input@.len(),
    ensures
        r == pos + digit_run(input@, pos as int),
        pos <= r <= input@.len(),
        input@.len() <= usize::MAX,
    decreases input@.len() - pos,
{
    if pos < input.len() && 48 <= input[pos] && input[pos] <= 57 {
        scan_digits(input, pos + 1)
    } else {
        pos
    }
}

/// First position at or after `pos` that cannot stand in a string literal.
fn scan_strchars(input: &[u8], pos: usize) -> (r: usize)
    requires
        pos <= input@.len(),
    ensures
        r == pos + strchar_run(input@, pos as int),
        pos <= r <= input@.len(),
        input@.len() <= usize::MAX,
    decreases input@.len() - pos,
{
    if pos < input.len() && (input[pos] == 32 || (48 <= input[pos] && input[pos] <= 57) || (65
        <= input[pos] && input[pos] <= 90) || (97 <= input[pos] && input[pos] <= 122)) {
        scan_strchars(input, pos + 1)
    } else {
        pos
    }
}

/// The bytes of `input` from `from` (inclusive) to `to` (exclusive), copied.
fn take_bytes(input: &[u8], from: usize, to: usize) -> (r: Vec<u8>)
    requires
        from <= to <= input@.len(),
    ensures
        r@ == input@.subrange(from as int, to as int),
    decreases to - from,
{
    let mut out: Vec<u8> = Vec::new();
    let mut i = from;
    while i < to
        invariant
            from <= i <= to <= input@.len(),
            out@ == input@.subrange(from as int, i as int),
        decreases to - i,
    {
        out.push(input[i]);
        proof {
            assert(out@ =~= input@.subrange(from as int, i + 1 as int));
        }
        i = i + 1;
    }
    out
}

/// All bytes inside a digit run are digits.
proof fn lemma_digit_run_chars(s: Seq<u8>, pos: int, k: int)
    requires
        0 <= pos,
        0 <= k < digit_run(s, pos),
    ensures
        pos + k < s.len() && is_digit(s[pos + k]),
    decreases k,
{
    if k > 0 {
        lemma_digit_run_chars(s, pos + 1, k - 1);
    }
}

/// The value of a prefix of a digit run is never negative.
proof fn lemma_digits_value_nonneg(s: Seq<u8>, pos: int, n: nat)
    requires
        0 <= pos,
        n <= digit_run(s, pos),
    ensures
        digits_value(s, pos, n) >= 0,
    decreases n,
{
    if n > 0 {
        lemma_digits_value_nonneg(s, pos, (n - 1) as nat);
        lemma_digit_run_chars(s, pos, n - 1);
    }
}

/// A longer prefix of a digit run never has a smaller value.
proof fn lemma_digits_value_grows(s: Seq<u8>, pos: int, n1: nat, n2: nat)
    requires
        0 <= pos,
        n1 <= n2 <= digit_run(s, pos),
    ensures
        digits_value(s, pos, n1) <= digits_value(s, pos, n2),
    decreases n2,
{
    if n1 < n2 {
        lemma_digits_value_grows(s, pos, n1, (n2 - 1) as nat);
        lemma_digits_value_nonneg(s, pos, (n2 - 1) as nat);
        lemma_digit_run_chars(s, pos, n2 - 1);
    }
}

/// The value of the digit run `[pos, end)`, or nothing when it exceeds
/// `i32::MAX`.
fn digits_to_i32(input: &[u8], pos: usize, end: usize) -> (r: Option<i32>)
    requires
        pos <= end <= input@.len(),
        end - pos == digit_run(input@, pos as int),
    ensures
        match r {
            Some(v) => digits_value(input@, pos as int, (end - pos) as nat) == v as int && v >= 0,
            None => digits_value(input@, pos as int, (end - pos) as nat) > 0x7fff_ffff,
        },
{
    let mut acc: i32 = 0;
    let mut i = pos;
    while i < end
        invariant
            pos <= i <= end <= input@.len(),
            end - pos == digit_run(input@, pos as int),
            0 <= acc,
            acc as int == digits_value(input@, pos as int, (i - pos) as nat),
        decreases end - i,
    {
        proof {
            lemma_digit_run_chars(input@, pos as int, i - pos);
        }
        let d = input[i];
        proof {
            assert(is_digit(input@[i as int]));
        }
        let wide: i64 = (acc as i64) * 10 + ((d - 48) as i64);
        proof {
            assert(wide as int == digits_value(input@, pos as int, (i + 1 - pos) as nat));
        }
        if wide > 0x7fff_ffff {
            proof {
                lemma_digits_value_grows(
                    input@,
                    pos as int,
                    (i + 1 - pos) as nat,
                    (end - pos) as nat,
                );
            }
            return None;
        }
        acc = wide as i32;
        i = i + 1;
    }
    Some(acc)
}

// ===================== Atom rules, executable =====================

/// Parses an identifier: one or more alphanumeric bytes.
pub fn identifier(input: &[u8], pos: usize) -> (r: Result<(Expr, usize), ParseError>)
    requires
        pos <= input@.len(),
    ensures
        expr_res(r, pos as int, spec_identifier(input@, pos as int)),
        r matches Ok(p) ==> p.1 <= input@.len(),
{
    let end = scan_alnum(input, pos);
    if end == pos {
        Err(ParseError { pos })
    } else {
        Ok((Expr::Identifier { name: take_bytes(input, pos, end) }, end))
    }
}

/// Parses a number: one or more digits whose value fits a 32-bit signed
/// integer.
pub fn number(input: &[u8], pos: usize) -> (r: Result<(Expr, usize), ParseError>)
    requires
        pos <= input@.len(),
    ensures
        expr_res(r, pos as int, spec_number(input@, pos as int)),
        r matches Ok(p) ==> p.1 <= input@.len(),
{
    let end = scan_digits(input, pos);
    if end == pos {
        Err(ParseError { pos })
    } else {
        match digits_to_i32(input, pos, end) {
            Some(v) => Ok((Expr::Number { value: v }, end)),
            None => Err(ParseError { pos }),
        }
    }
}

/// Parses a boolean literal: `true` or `false`.
pub fn boolean(input: &[u8], pos: usize) -> (r: Result<(Expr, usize), ParseError>)
    requires
        pos <= input@.len(),
    ensures
        expr_res(r, pos as int, spec_boolean(input@, pos as int)),
        r matches Ok(p) ==> p.1 <= input@.len(),
{
    if input.len() - pos >= 4 && input[pos] == 116 && input[pos + 1] == 114 && input[pos + 2]
        == 117 && input[pos + 3] == 101 {
        Ok((Expr::Boolean { value: true }, pos + 4))
    } else if input.len() - pos >= 5 && input[pos] == 102 && input[pos + 1] == 97 && input[pos + 2]
        == 108 && input[pos + 3] == 115 && input[pos + 4] == 101 {
        Ok((Expr::Boolean { value: false }, pos + 5))
    } else {
        Err(ParseError { pos })
    }
}

/// Parses a string literal: a quote, one or more alphanumeric-or-space
/// bytes, a quote.
pub fn string(input: &[u8], pos: usize) -> (r: Result<(Expr, usize), ParseError>)
    requires
        pos <= input@.len(),
    ensures
        expr_res(r, pos as int, spec_string(input@, pos as int)),
        r matches Ok(p) ==> p.1 <= input@.len(),
{
    if pos < input.len() && input[pos] == 34 {
        let end = scan_strchars(input, pos + 1);
        if end > pos + 1 && end < input.len() && input[end] == 34 {
            Ok((Expr::StringLiteral { value: take_bytes(input, pos + 1, end) }, end + 1))
        } else {
            Err(ParseError { pos: end })
        }
    } else {
        Err(ParseError { pos })
    }
}

/// The executable outcome of an expression rule agrees with its mathematical
/// form: same tree, same end position, same failure position.
pub open spec fn expr_res(
    r: Result<(Expr, usize), ParseError>,
    pos: int,
    sp: Parsed<SpecExpr>,
) -> bool {
    match sp {
        Parsed::Found { v, used } => r matches Ok(p) && p.0.model() == v && p.1 as int == pos
            + used,
        Parsed::Fail { pos: fp } => r matches Err(e) && e.pos as int == fp,
    }
}

/// As `expr_res`, for argument lists.
pub open spec fn exprlist_res(
    r: Result<(ExprList, usize), ParseError>,
    pos: int,
    sp: Parsed<SpecExprList>,
) -> bool {
    match sp {
        Parsed::Found { v, used } => r matches Ok(p) && p.0.model() == v && p.1 as int == pos
            + used,
        Parsed::Fail { pos: fp } => r matches Err(e) && e.pos as int == fp,
    }
}

// ===================== Operators =====================

/// The comparison operator standing at `pos`, with its width; two-byte
/// operators are recognised before their one-byte prefixes.
pub open spec fn cmp_op_at(s: Seq<u8>, pos: int) -> Option<(CmpOp, nat)> {
    if at_byte(s, pos, 62) && at_byte(s, pos + 1, 61) {
        Some((CmpOp::Gte, 2 as nat))
    } else if at_byte(s, pos, 60) && at_byte(s, pos + 1, 61) {
        Some((CmpOp::Lte, 2 as nat))
    } else if at_byte(s, pos, 60) {
        Some((CmpOp::Lt, 1 as nat))
    } else if at_byte(s, pos, 62) {
        Some((CmpOp::Gt, 1 as nat))
    } else if at_byte(s, pos, 61) && at_byte(s, pos + 1, 61) {
        Some((CmpOp::Eq, 2 as nat))
    } else if at_byte(s, pos, 33) && at_byte(s, pos + 1, 61) {
        Some((CmpOp::Neq, 2 as nat))
    } else {
        None
    }
}

/// Whether byte `c` stands at `pos`.
fn has_byte(input: &[u8], pos: usize, c: u8) -> (r: bool)
    requires
        pos <= input@.len(),
    ensures
        r == at_byte(input@, pos as int, c),
        input@.len() <= usize::MAX,
{
    pos < input.len() && input[pos] == c
}

/// The executable form of `cmp_op_at`.
fn cmp_op(input: &[u8], pos: usize) -> (r: Option<(CmpOp, usize)>)
    requires
        pos <= input@.len(),
    ensures
        match cmp_op_at(input@, pos as int) {
            Some(p) => r matches Some(q) && q.0 == p.0 && q.1 as nat == p.1,
            None => r is None,
        },
        input@.len() <= usize::MAX,
{
    if input.len() - pos >= 2 && input[pos] == 62 && input[pos + 1] == 61 {
        Some((CmpOp::Gte, 2))
    } else if input.len() - pos >= 2 && input[pos] == 60 && input[pos + 1] == 61 {
        Some((CmpOp::Lte, 2))
    } else if pos < input.len() && input[pos] == 60 {
        Some((CmpOp::Lt, 1))
    } else if pos < input.len() && input[pos] == 62 {
        Some((CmpOp::Gt, 1))
    } else if input.len() - pos >= 2 && input[pos] == 61 && input[pos + 1] == 61 {
        Some((CmpOp::Eq, 2))
    } else if input.len() - pos >= 2 && input[pos] == 33 && input[pos + 1] == 61 {
        Some((CmpOp::Neq, 2))
    } else {
        None
    }
}

// ===================== The expression tower, mathematical form =====================

/// The parenthesised argument part of a call, after the opening
/// parenthesis: a possibly empty argument list and the closing parenthesis.
pub open spec fn spec_call_args(s: Seq<u8>, pos: int) -> Parsed<SpecExprList>
    decreases rem(s, pos), 10int,
{
    if !(0 <= pos <= s.len()) {
        Parsed::Fail { pos }
    } else {
        match spec_arguments(s, pos) {
            Parsed::Found { v: args, used: u } => if at_byte(s, pos + u, 41) {
                Parsed::Found { v: args, used: u + 1 }
            } else {
                Parsed::Fail { pos: pos + u }
            },
            Parsed::Fail { .. } => if at_byte(s, pos, 41) {
                Parsed::Found { v: SpecExprList::Nil, used: 1 }
            } else {
                Parsed::Fail { pos }
            },
        }
    }
}

/// function_call: a name directly followed by a parenthesised, possibly
/// empty, argument list.
pub open spec fn spec_function_call(s: Seq<u8>, pos: int) -> Parsed<SpecExpr>
    decreases rem(s, pos), 1int,
{
    if !(0 <= pos <= s.len()) {
        Parsed::Fail { pos }
    } else {
        let n = alnum_run(s, pos);
        if n == 0 {
            Parsed::Fail { pos }
        } else {
            let p = pos + n;
            if !at_byte(s, p, 40) {
                Parsed::Fail { pos: p }
            } else {
                match spec_call_args(s, p + 1) {
                    Parsed::Found { v: args, used: u } => Parsed::Found {
                        v: SpecExpr::FunctionCall { name: s.subrange(pos, pos + n), args },
                        used: n + 1 + u,
                    },
                    Parsed::Fail { pos: f } => Parsed::Fail { pos: f },
                }
            }
        }
    }
}

/// parenthetical_expression: a parenthesised expression, with whitespace
/// allowed around the parentheses.
pub open spec fn spec_parenthetical(s: Seq<u8>, pos: int) -> Parsed<SpecExpr>
    decreases rem(s, pos), 1int,
{
    if !(0 <= pos <= s.len()) {
        Parsed::Fail { pos }
    } else {
        let w0 = ws_run(s, pos);
        let p0 = pos + w0;
        if !at_byte(s, p0, 40) {
            Parsed::Fail { pos: p0 }
        } else {
            let w1 = ws_run(s, p0 + 1);
            match spec_conditional(s, p0 + 1 + w1) {
                Parsed::Fail { pos: f } => Parsed::Fail { pos: f },
                Parsed::Found { v, used: u } => {
                    let p1 = p0 + 1 + w1 + u;
                    let w2 = ws_run(s, p1);
                    if !at_byte(s, p1 + w2, 41) {
                        Parsed::Fail { pos: p1 + w2 }
                    } else {
                        let w3 = ws_run(s, p1 + w2 + 1);
                        Parsed::Found { v, used: w0 + 1 + w1 + u + w2 + 1 + w3 }
                    }
                },
            }
        }
    }
}

/// l4: the atoms — a call, a literal, an identifier, or a parenthesised
/// expression, tried in that order.
pub open spec fn spec_l4(s: Seq<u8>, pos: int) -> Parsed<SpecExpr>
    decreases rem(s, pos), 2int,
{
    if !(0 <= pos <= s.len()) {
        Parsed::Fail { pos }
    } else {
        match spec_function_call(s, pos) {
            Parsed::Found { v, used } => Parsed::Found { v, used },
            Parsed::Fail { .. } => match spec_boolean(s, pos) {
                Parsed::Found { v, used } => Parsed::Found { v, used },
                Parsed::Fail { .. } => match spec_number(s, pos) {
                    Parsed::Found { v, used } => Parsed::Found { v, used },
                    Parsed::Fail { .. } => match spec_identifier(s, pos) {
                        Parsed::Found { v, used } => Parsed::Found { v, used },
                        Parsed::Fail { .. } => spec_parenthetical(s, pos),
                    },
                },
            },
        }
    }
}

/// l3: exponentiation, binding tightest and associating to the right.
pub open spec fn spec_l3(s: Seq<u8>, pos: int) -> Parsed<SpecExpr>
    decreases rem(s, pos), 3int,
{
    if !(0 <= pos <= s.len()) {
        Parsed::Fail { pos }
    } else {
        match spec_l4(s, pos) {
            Parsed::Fail { pos: f } => Parsed::Fail { pos: f },
            Parsed::Found { v: lhs, used: u1 } => {
                let w = ws_run(s, pos + u1);
                if at_byte(s, pos + u1 + w, 94) {
                    let w2 = ws_run(s, pos + u1 + w + 1);
                    match spec_l3(s, pos + u1 + w + 1 + w2) {
                        Parsed::Found { v: rhs, used: u2 } => Parsed::Found {
                            v: SpecExpr::Math {
                                op: MathOp::Exp,
                                lhs: Box::new(lhs),
                                rhs: Box::new(rhs),
                            },
                            used: u1 + w + 1 + w2 + u2,
                        },
                        Parsed::Fail { .. } => Parsed::Found { v: lhs, used: u1 },
                    }
                } else {
                    Parsed::Found { v: lhs, used: u1 }
                }
            },
        }
    }
}

/// The trailing `*` and `/` occurrences of l2, folded to the left onto
/// `acc`; stops, consuming nothing of it, at the first non-match.
pub open spec fn spec_l2_tail(s: Seq<u8>, pos: int, acc: SpecExpr) -> (SpecExpr, nat)
    decreases rem(s, pos), 0int,
{
    let w = ws_run(s, pos);
    let p = pos + w;
    if at_byte(s, p, 42) || at_byte(s, p, 47) {
        let op = if at_byte(s, p, 42) {
            MathOp::Mul
        } else {
            MathOp::Div
        };
        let w2 = ws_run(s, p + 1);
        match spec_l3(s, p + 1 + w2) {
            Parsed::Found { v: rhs, used: u } => {
                let folded = SpecExpr::Math { op, lhs: Box::new(acc), rhs: Box::new(rhs) };
                let (v, u2) = spec_l2_tail(s, p + 1 + w2 + u, folded);
                (v, w + 1 + w2 + u + u2)
            },
            Parsed::Fail { .. } => (acc, 0),
        }
    } else {
        (acc, 0)
    }
}

/// l2: multiplication and division, folded to the left.
pub open spec fn spec_l2(s: Seq<u8>, pos: int) -> Parsed<SpecExpr>
    decreases rem(s, pos), 4int,
{
    if !(0 <= pos <= s.len()) {
        Parsed::Fail { pos }
    } else {
        match spec_l3(s, pos) {
            Parsed::Fail { pos: f } => Parsed::Fail { pos: f },
            Parsed::Found { v: e, used: u } => {
                let (v, u2) = spec_l2_tail(s, pos + u, e);
                Parsed::Found { v, used: u + u2 }
            },
        }
    }
}

/// The trailing `+` and `-` occurrences of l1, folded to the left onto
/// `acc`.
pub open spec fn spec_l1_tail(s: Seq<u8>, pos: int, acc: SpecExpr) -> (SpecExpr, nat)
    decreases rem(s, pos), 0int,
{
    let w = ws_run(s, pos);
    let p = pos + w;
    if at_byte(s, p, 43) || at_byte(s, p, 45) {
        let op = if at_byte(s, p, 43) {
            MathOp::Add
        } else {
            MathOp::Sub
        };
        let w2 = ws_run(s, p + 1);
        match spec_l2(s, p + 1 + w2) {
            Parsed::Found { v: rhs, used: u } => {
                let folded = SpecExpr::Math { op, lhs: Box::new(acc), rhs: Box::new(rhs) };
                let (v, u2) = spec_l1_tail(s, p + 1 + w2 + u, folded);
                (v, w + 1 + w2 + u + u2)
            },
            Parsed::Fail { .. } => (acc, 0),
        }
    } else {
        (acc, 0)
    }
}

/// l1: addition and subtraction, the loosest arithmetic level, with
/// whitespace allowed around its operands.
pub open spec fn spec_l1(s: Seq<u8>, pos: int) -> Parsed<SpecExpr>
    decreases rem(s, pos), 5int,
{
    if !(0 <= pos <= s.len()) {
        Parsed::Fail { pos }
    } else {
        let w0 = ws_run(s, pos);
        match spec_l2(s, pos + w0) {
            Parsed::Fail { pos: f } => Parsed::Fail { pos: f },
            Parsed::Found { v: e, used: u } => {
                let w1 = ws_run(s, pos + w0 + u);
                let (v, u2) = spec_l1_tail(s, pos + w0 + u + w1, e);
                let w2 = ws_run(s, pos + w0 + u + w1 + u2);
                Parsed::Found { v, used: w0 + u + w1 + u2 + w2 }
            },
        }
    }
}

/// math_expression: the whole arithmetic tower.
pub open spec fn spec_math_expression(s: Seq<u8>, pos: int) -> Parsed<SpecExpr>
    decreases rem(s, pos), 6int,
{
    if !(0 <= pos <= s.len()) {
        Parsed::Fail { pos }
    } else {
        let w = ws_run(s, pos);
        match spec_l1(s, pos + w) {
            Parsed::Fail { pos: f } => Parsed::Fail { pos: f },
            Parsed::Found { v, used: u } => Parsed::Found { v, used: w + u },
        }
    }
}

/// The trailing relational occurrences of conditional_expression, folded to
/// the left onto `acc`.
pub open spec fn spec_cond_tail(s: Seq<u8>, pos: int, acc: SpecExpr) -> (SpecExpr, nat)
    decreases rem(s, pos), 0int,
{
    let w = ws_run(s, pos);
    let p = pos + w;
    match cmp_op_at(s, p) {
        Some(opw) => {
            let w2 = ws_run(s, p + opw.1);
            match spec_math_expression(s, p + opw.1 + w2) {
                Parsed::Found { v: rhs, used: u } => {
                    let folded = SpecExpr::Comparison {
                        op: opw.0,
                        lhs: Box::new(acc),
                        rhs: Box::new(rhs),
                    };
                    let (v, u2) = spec_cond_tail(s, p + opw.1 + w2 + u, folded);
                    (v, w + opw.1 + w2 + u + u2)
                },
                Parsed::Fail { .. } => (acc, 0),
            }
        },
        None => (acc, 0),
    }
}

/// conditional_expression: an arithmetic expression, then zero or more
/// relational operators, folded to the left.
pub open spec fn spec_conditional(s: Seq<u8>, pos: int) -> Parsed<SpecExpr>
    decreases rem(s, pos), 7int,
{
    if !(0 <= pos <= s.len()) {
        Parsed::Fail { pos }
    } else {
        match spec_math_expression(s, pos) {
            Parsed::Fail { pos: f } => Parsed::Fail { pos: f },
            Parsed::Found { v: e, used: u } => {
                let (v, u2) = spec_cond_tail(s, pos + u, e);
                Parsed::Found { v, used: u + u2 }
            },
        }
    }
}

/// arguments: one or more comma-separated expressions.
pub open spec fn spec_arguments(s: Seq<u8>, pos: int) -> Parsed<SpecExprList>
    decreases rem(s, pos), 9int,
{
    if !(0 <= pos <= s.len()) {
        Parsed::Fail { pos }
    } else {
        match spec_expression(s, pos) {
            Parsed::Fail { pos: f } => Parsed::Fail { pos: f },
            Parsed::Found { v: e, used: u } => {
                let (rest, u2) = spec_args_tail(s, pos + u);
                Parsed::Found {
                    v: SpecExprList::Cons(Box::new(e), Box::new(rest)),
                    used: u + u2,
                }
            },
        }
    }
}

/// The trailing `, expression` occurrences of an argument list.
pub open spec fn spec_args_tail(s: Seq<u8>, pos: int) -> (SpecExprList, nat)
    decreases rem(s, pos), 0int,
{
    if at_byte(s, pos, 44) {
        match spec_expression(s, pos + 1) {
            Parsed::Found { v: e, used: u } => {
                let (rest, u2) = spec_args_tail(s, pos + 1 + u);
                (SpecExprList::Cons(Box::new(e), Box::new(rest)), 1 + u + u2)
            },
            Parsed::Fail { .. } => (SpecExprList::Nil, 0),
        }
    } else {
        (SpecExprList::Nil, 0)
    }
}

/// expression: the alternatives tried in priority order — a boolean
/// literal first, so that `true` is never read as an identifier, then an
/// if-expression, then the arithmetic/relational tower (which itself tries
/// calls, literals and identifiers as atoms), then a string literal.
pub open spec fn spec_expression(s: Seq<u8>, pos: int) -> Parsed<SpecExpr>
    decreases rem(s, pos), 8int,
{
    if !(0 <= pos <= s.len()) {
        Parsed::Fail { pos }
    } else {
        match spec_boolean(s, pos) {
            Parsed::Found { v, used } => Parsed::Found { v, used },
            Parsed::Fail { .. } => match spec_if_expression(s, pos) {
                Parsed::Found { v, used } => Parsed::Found { v, used },
                Parsed::Fail { .. } => match spec_conditional(s, pos) {
                    Parsed::Found { v, used } => Parsed::Found { v, used },
                    Parsed::Fail { .. } => spec_string(s, pos),
                },
            },
        }
    }
}

// ===================== Statements and conditionals, mathematical form =====================

/// variable_define: `let`, a name, `=`, an expression.
pub open spec fn spec_variable_define(s: Seq<u8>, pos: int) -> Parsed<SpecStmt>
    decreases rem(s, pos), 1int,
{
    if !(0 <= pos <= s.len()) {
        Parsed::Fail { pos }
    } else {
        let w0 = ws_run(s, pos);
        let p = pos + w0;
        if !at_let_sp(s, p) {
            Parsed::Fail { pos: p }
        } else {
            let w1 = ws_run(s, p + 4);
            match spec_identifier(s, p + 4 + w1) {
                Parsed::Fail { pos: f } => Parsed::Fail { pos: f },
                Parsed::Found { v: id, used: n } => {
                    let p1 = p + 4 + w1 + n;
                    let w2 = ws_run(s, p1);
                    if !at_byte(s, p1 + w2, 61) {
                        Parsed::Fail { pos: p1 + w2 }
                    } else {
                        let w3 = ws_run(s, p1 + w2 + 1);
                        match spec_expression(s, p1 + w2 + 1 + w3) {
                            Parsed::Fail { pos: f } => Parsed::Fail { pos: f },
                            Parsed::Found { v: e, used: u } => Parsed::Found {
                                v: SpecStmt::VariableDefine {
                                    name: id->Identifier_name,
                                    value: e,
                                },
                                used: w0 + 4 + w1 + n + w2 + 1 + w3 + u,
                            },
                        }
                    }
                },
            }
        }
    }
}

/// function_return: `return`, then a call, an expression or an identifier.
pub open spec fn spec_function_return(s: Seq<u8>, pos: int) -> Parsed<SpecStmt>
    decreases rem(s, pos), 1int,
{
    if !(0 <= pos <= s.len()) {
        Parsed::Fail { pos }
    } else if !at_return_sp(s, pos) {
        Parsed::Fail { pos }
    } else {
        let p = pos + 7;
        let inner = match spec_function_call(s, p) {
            Parsed::Found { v, used } => Parsed::Found { v, used },
            Parsed::Fail { .. } => match spec_expression(s, p) {
                Parsed::Found { v, used } => Parsed::Found { v, used },
                Parsed::Fail { .. } => spec_identifier(s, p),
            },
        };
        match inner {
            Parsed::Fail { pos: f } => Parsed::Fail { pos: f },
            Parsed::Found { v: e, used: u } => Parsed::Found {
                v: SpecStmt::FunctionReturn { value: e },
                used: 7 + u,
            },
        }
    }
}

/// statement: a variable definition or a return, terminated by `;`.
pub open spec fn spec_statement(s: Seq<u8>, pos: int) -> Parsed<SpecStmt>
    decreases rem(s, pos), 2int,
{
    if !(0 <= pos <= s.len()) {
        Parsed::Fail { pos }
    } else {
        let w0 = ws_run(s, pos);
        let p = pos + w0;
        let first = match spec_variable_define(s, p) {
            Parsed::Found { v, used } => Parsed::Found { v, used },
            Parsed::Fail { .. } => spec_function_return(s, p),
        };
        match first {
            Parsed::Fail { pos: f } => Parsed::Fail { pos: f },
            Parsed::Found { v: st, used: u } => {
                let p1 = p + u;
                let w1 = ws_run(s, p1);
                if !at_byte(s, p1 + w1, 59) {
                    Parsed::Fail { pos: p1 + w1 }
                } else {
                    let w2 = ws_run(s, p1 + w1 + 1);
                    Parsed::Found { v: st, used: w0 + u + w1 + 1 + w2 }
                }
            },
        }
    }
}

/// if_statement: the one-or-more statements of a block. A successful
/// statement always consumes input; the zero-consumption branch is vacuous
/// and only keeps the recursion visibly well-founded.
pub open spec fn spec_block(s: Seq<u8>, pos: int) -> Parsed<SpecStmtList>
    decreases rem(s, pos), 3int,
{
    if !(0 <= pos <= s.len()) {
        Parsed::Fail { pos }
    } else {
        match spec_statement(s, pos) {
            Parsed::Fail { pos: f } => Parsed::Fail { pos: f },
            Parsed::Found { v: st, used: u } => if u == 0 || pos + u > s.len() {
                Parsed::Found {
                    v: SpecStmtList::Cons(Box::new(st), Box::new(SpecStmtList::Nil)),
                    used: u,
                }
            } else {
                match spec_block(s, pos + u) {
                    Parsed::Found { v: rest, used: u2 } => Parsed::Found {
                        v: SpecStmtList::Cons(Box::new(st), Box::new(rest)),
                        used: u + u2,
                    },
                    Parsed::Fail { .. } => Parsed::Found {
                        v: SpecStmtList::Cons(Box::new(st), Box::new(SpecStmtList::Nil)),
                        used: u,
                    },
                }
            },
        }
    }
}

/// The head every conditional arm shares: `if`, a condition, a braced
/// block, whitespace around each token.
pub open spec fn spec_if_head(s: Seq<u8>, pos: int) -> Parsed<SpecArm>
    decreases rem(s, pos), 1int,
{
    if !(0 <= pos <= s.len()) {
        Parsed::Fail { pos }
    } else {
        let w0 = ws_run(s, pos);
        let p0 = pos + w0;
        if !at_if(s, p0) {
            Parsed::Fail { pos: p0 }
        } else {
            let w1 = ws_run(s, p0 + 2);
            match spec_conditional(s, p0 + 2 + w1) {
                Parsed::Fail { pos: f } => Parsed::Fail { pos: f },
                Parsed::Found { v: cond, used: u1 } => {
                    let p1 = p0 + 2 + w1 + u1;
                    let w2 = ws_run(s, p1);
                    if !at_byte(s, p1 + w2, 123) {
                        Parsed::Fail { pos: p1 + w2 }
                    } else {
                        let w3 = ws_run(s, p1 + w2 + 1);
                        match spec_block(s, p1 + w2 + 1 + w3) {
                            Parsed::Fail { pos: f } => Parsed::Fail { pos: f },
                            Parsed::Found { v: blk, used: u2 } => {
                                let p2 = p1 + w2 + 1 + w3 + u2;
                                let w4 = ws_run(s, p2);
                                if !at_byte(s, p2 + w4, 125) {
                                    Parsed::Fail { pos: p2 + w4 }
                                } else {
                                    let w5 = ws_run(s, p2 + w4 + 1);
                                    Parsed::Found {
                                        v: SpecArm { cond, block: blk },
                                        used: w0 + 2 + w1 + u1 + w2 + 1 + w3 + u2 + w4 + 1 + w5,
                                    }
                                }
                            },
                        }
                    }
                },
            }
        }
    }
}

/// else_if_expression: `else`, then a conditional arm head.
pub open spec fn spec_else_if(s: Seq<u8>, pos: int) -> Parsed<SpecArm>
    decreases rem(s, pos), 2int,
{
    if !(0 <= pos <= s.len()) {
        Parsed::Fail { pos }
    } else if !at_else(s, pos) {
        Parsed::Fail { pos }
    } else {
        match spec_if_head(s, pos + 4) {
            Parsed::Fail { pos: f } => Parsed::Fail { pos: f },
            Parsed::Found { v, used: u } => Parsed::Found { v, used: 4 + u },
        }
    }
}

/// The `else if` arms, zero or more, in order. As in `spec_block`, the
/// zero-consumption branch is vacuous.
pub open spec fn spec_else_ifs(s: Seq<u8>, pos: int) -> (SpecArmList, nat)
    decreases rem(s, pos), 3int,
{
    if !(0 <= pos <= s.len()) {
        (SpecArmList::Nil, 0)
    } else {
        match spec_else_if(s, pos) {
            Parsed::Fail { .. } => (SpecArmList::Nil, 0),
            Parsed::Found { v: a, used: u } => if u == 0 || pos + u > s.len() {
                (SpecArmList::Cons(Box::new(a), Box::new(SpecArmList::Nil)), u)
            } else {
                let (rest, u2) = spec_else_ifs(s, pos + u);
                (SpecArmList::Cons(Box::new(a), Box::new(rest)), u + u2)
            },
        }
    }
}

/// else_expression: the mandatory `else` and its braced block.
pub open spec fn spec_else_expression(s: Seq<u8>, pos: int) -> Parsed<SpecStmtList>
    decreases rem(s, pos), 1int,
{
    if !(0 <= pos <= s.len()) {
        Parsed::Fail { pos }
    } else if !at_else(s, pos) {
        Parsed::Fail { pos }
    } else {
        let w0 = ws_run(s, pos + 4);
        let p = pos + 4 + w0;
        if !at_byte(s, p, 123) {
            Parsed::Fail { pos: p }
        } else {
            let w1 = ws_run(s, p + 1);
            match spec_block(s, p + 1 + w1) {
                Parsed::Fail { pos: f } => Parsed::Fail { pos: f },
                Parsed::Found { v: blk, used: u } => {
                    let p1 = p + 1 + w1 + u;
                    let w2 = ws_run(s, p1);
                    if !at_byte(s, p1 + w2, 125) {
                        Parsed::Fail { pos: p1 + w2 }
                    } else {
                        let w3 = ws_run(s, p1 + w2 + 1);
                        Parsed::Found { v: blk, used: 4 + w0 + 1 + w1 + u + w2 + 1 + w3 }
                    }
                },
            }
        }
    }
}

/// if_expression: `if`, a condition, a braced block, zero or more `else if`
/// arms, and the mandatory `else` block — a parse without the final `else`
/// fails.
pub open spec fn spec_if_expression(s: Seq<u8>, pos: int) -> Parsed<SpecExpr>
    decreases rem(s, pos), 4int,
{
    if !(0 <= pos <= s.len()) {
        Parsed::Fail { pos }
    } else {
        match spec_if_head(s, pos) {
            Parsed::Fail { pos: f } => Parsed::Fail { pos: f },
            Parsed::Found { v: arm, used: u1 } => {
                let arms_u = spec_else_ifs(s, pos + u1);
                let w = ws_run(s, pos + u1 + arms_u.1);
                match spec_else_expression(s, pos + u1 + arms_u.1 + w) {
                    Parsed::Fail { pos: f } => Parsed::Fail { pos: f },
                    Parsed::Found { v: els, used: u3 } => Parsed::Found {
                        v: SpecExpr::IfExpression {
                            then_arm: Box::new(arm),
                            elif_arms: arms_u.0,
                            else_block: els,
                        },
                        used: u1 + arms_u.1 + w + u3,
                    },
                }
            },
        }
    }
}

/// The declared parameter names: zero or more identifiers, comma-separated,
/// with whitespace allowed around each.
pub open spec fn spec_params(s: Seq<u8>, pos: int) -> (Seq<Seq<u8>>, nat)
    decreases rem(s, pos), 1int,
{
    if !(0 <= pos <= s.len()) {
        (Seq::empty(), 0)
    } else {
        let w0 = ws_run(s, pos);
        let n = alnum_run(s, pos + w0);
        if n == 0 {
            (Seq::empty(), 0)
        } else {
            let p = pos + w0 + n;
            let w1 = ws_run(s, p);
            let (rest, u2) = spec_params_tail(s, p + w1);
            (seq![s.subrange(pos + w0, pos + w0 + n)] + rest, w0 + n + w1 + u2)
        }
    }
}

/// The trailing `, name` occurrences of a parameter list.
pub open spec fn spec_params_tail(s: Seq<u8>, pos: int) -> (Seq<Seq<u8>>, nat)
    decreases rem(s, pos), 0int,
{
    if at_byte(s, pos, 44) {
        let w = ws_run(s, pos + 1);
        let n = alnum_run(s, pos + 1 + w);
        if n == 0 {
            (Seq::empty(), 0)
        } else {
            let p = pos + 1 + w + n;
            let w2 = ws_run(s, p);
            let (rest, u2) = spec_params_tail(s, p + w2);
            (seq![s.subrange(pos + 1 + w, pos + 1 + w + n)] + rest, 1 + w + n + w2 + u2)
        }
    } else {
        (Seq::empty(), 0)
    }
}

/// function_definition: `fn`, a name, a parenthesised parameter list, and a
/// braced body of one or more statements.
pub open spec fn spec_function_definition(s: Seq<u8>, pos: int) -> Parsed<SpecItem>
    decreases rem(s, pos), 2int,
{
    if !(0 <= pos <= s.len()) {
        Parsed::Fail { pos }
    } else {
        let w0 = ws_run(s, pos);
        let p = pos + w0;
        if !at_fn_sp(s, p) {
            Parsed::Fail { pos: p }
        } else {
            let w1 = ws_run(s, p + 3);
            let n = alnum_run(s, p + 3 + w1);
            if n == 0 {
                Parsed::Fail { pos: p + 3 + w1 }
            } else {
                let p1 = p + 3 + w1 + n;
                if !at_byte(s, p1, 40) {
                    Parsed::Fail { pos: p1 }
                } else {
                    let params_u = spec_params(s, p1 + 1);
                    let p2 = p1 + 1 + params_u.1;
                    if !at_byte(s, p2, 41) {
                        Parsed::Fail { pos: p2 }
                    } else {
                        let w2 = ws_run(s, p2 + 1);
                        if !at_byte(s, p2 + 1 + w2, 123) {
                            Parsed::Fail { pos: p2 + 1 + w2 }
                        } else {
                            let w3 = ws_run(s, p2 + 1 + w2 + 1);
                            match spec_block(s, p2 + 2 + w2 + w3) {
                                Parsed::Fail { pos: f } => Parsed::Fail { pos: f },
                                Parsed::Found { v: body, used: u3 } => {
                                    let p3 = p2 + 2 + w2 + w3 + u3;
                                    let w4 = ws_run(s, p3);
                                    if !at_byte(s, p3 + w4, 125) {
                                        Parsed::Fail { pos: p3 + w4 }
                                    } else {
                                        let w5 = ws_run(s, p3 + w4 + 1);
                                        Parsed::Found {
                                            v: SpecItem::Function {
                                                name: s.subrange(p + 3 + w1, p + 3 + w1 + n),
                                                params: params_u.0,
                                                body,
                                            },
                                            used: w0 + 3 + w1 + n + 1 + params_u.1 + 1 + w2 + 1
                                                + w3 + u3 + w4 + 1 + w5,
                                        }
                                    }
                                },
                            }
                        }
                    }
                }
            }
        }
    }
}

/// program: one or more function definitions; what follows the last one is
/// left unconsumed. As in `spec_block`, the zero-consumption branch is
/// vacuous.
pub open spec fn spec_program(s: Seq<u8>, pos: int) -> Parsed<SpecItemList>
    decreases rem(s, pos), 3int,
{
    if !(0 <= pos <= s.len()) {
        Parsed::Fail { pos }
    } else {
        match spec_function_definition(s, pos) {
            Parsed::Fail { pos: f } => Parsed::Fail { pos: f },
            Parsed::Found { v: f, used: u } => if u == 0 || pos + u > s.len() {
                Parsed::Found {
                    v: SpecItemList::Cons(Box::new(f), Box::new(SpecItemList::Nil)),
                    used: u,
                }
            } else {
                match spec_program(s, pos + u) {
                    Parsed::Found { v: rest, used: u2 } => Parsed::Found {
                        v: SpecItemList::Cons(Box::new(f), Box::new(rest)),
                        used: u + u2,
                    },
                    Parsed::Fail { .. } => Parsed::Found {
                        v: SpecItemList::Cons(Box::new(f), Box::new(SpecItemList::Nil)),
                        used: u,
                    },
                }
            },
        }
    }
}

// ===================== Executable grammar =====================

/// As `expr_res`, for statements.
pub open spec fn stmt_res(
    r: Result<(Stmt, usize), ParseError>,
    pos: int,
    sp: Parsed<SpecStmt>,
) -> bool {
    match sp {
        Parsed::Found { v, used } => r matches Ok(p) && p.0.model() == v && p.1 as int == pos
            + used,
        Parsed::Fail { pos: fp } => r matches Err(e) && e.pos as int == fp,
    }
}

/// As `expr_res`, for statement blocks.
pub open spec fn stmts_res(
    r: Result<(StmtList, usize), ParseError>,
    pos: int,
    sp: Parsed<SpecStmtList>,
) -> bool {
    match sp {
        Parsed::Found { v, used } => r matches Ok(p) && p.0.model() == v && p.1 as int == pos
            + used,
        Parsed::Fail { pos: fp } => r matches Err(e) && e.pos as int == fp,
    }
}

/// As `expr_res`, for `else if` arms.
pub open spec fn arm_res(
    r: Result<(Arm, usize), ParseError>,
    pos: int,
    sp: Parsed<SpecArm>,
) -> bool {
    match sp {
        Parsed::Found { v, used } => r matches Ok(p) && p.0.model() == v && p.1 as int == pos
            + used,
        Parsed::Fail { pos: fp } => r matches Err(e) && e.pos as int == fp,
    }
}

/// As `expr_res`, for top-level items.
pub open spec fn item_res(
    r: Result<(Item, usize), ParseError>,
    pos: int,
    sp: Parsed<SpecItem>,
) -> bool {
    match sp {
        Parsed::Found { v, used } => r matches Ok(p) && p.0.model() == v && p.1 as int == pos
            + used,
        Parsed::Fail { pos: fp } => r matches Err(e) && e.pos as int == fp,
    }
}

/// As `expr_res`, for item lists.
pub open spec fn items_res(
    r: Result<(ItemList, usize), ParseError>,
    pos: int,
    sp: Parsed<SpecItemList>,
) -> bool {
    match sp {
        Parsed::Found { v, used } => r matches Ok(p) && p.0.model() == v && p.1 as int == pos
            + used,
        Parsed::Fail { pos: fp } => r matches Err(e) && e.pos as int == fp,
    }
}

/// Whether `if` stands at `pos`.
fn has_if(input: &[u8], pos: usize) -> (r: bool)
    requires
        pos <= input@.len(),
    ensures
        r == at_if(input@, pos as int),
        input@.len() <= usize::MAX,
{
    input.len() - pos >= 2 && input[pos] == 105 && input[pos + 1] == 102
}

/// Whether `else` stands at `pos`.
fn has_else(input: &[u8], pos: usize) -> (r: bool)
    requires
        pos <= input@.len(),
    ensures
        r == at_else(input@, pos as int),
        input@.len() <= usize::MAX,
{
    input.len() - pos >= 4 && input[pos] == 101 && input[pos + 1] == 108 && input[pos + 2] == 115
        && input[pos + 3] == 101
}

/// Whether `fn ` stands at `pos`.
fn has_fn_kw(input: &[u8], pos: usize) -> (r: bool)
    requires
        pos <= input@.len(),
    ensures
        r == at_fn_sp(input@, pos as int),
        input@.len() <= usize::MAX,
{
    input.len() - pos >= 3 && input[pos] == 102 && input[pos + 1] == 110 && input[pos + 2] == 32
}

/// Whether `let ` stands at `pos`.
fn has_let_kw(input: &[u8], pos: usize) -> (r: bool)
    requires
        pos <= input@.len(),
    ensures
        r == at_let_sp(input@, pos as int),
        input@.len() <= usize::MAX,
{
    input.len() - pos >= 4 && input[pos] == 108 && input[pos + 1] == 101 && input[pos + 2] == 116
        && input[pos + 3] == 32
}

/// Whether `return ` stands at `pos`.
fn has_return_kw(input: &[u8], pos: usize) -> (r: bool)
    requires
        pos <= input@.len(),
    ensures
        r == at_return_sp(input@, pos as int),
        input@.len() <= usize::MAX,
{
    input.len() - pos >= 7 && input[pos] == 114 && input[pos + 1] == 101 && input[pos + 2] == 116
        && input[pos + 3] == 117 && input[pos + 4] == 114 && input[pos + 5] == 110 && input[pos
        + 6] == 32
}

/// Parses the argument part of a call, after the opening parenthesis.
#[verifier::rlimit(60)]
fn call_args(input: &[u8], pos: usize) -> (r: Result<(ExprList, usize), ParseError>)
    requires
        pos <= input@.len(),
    ensures
        exprlist_res(r, pos as int, spec_call_args(input@, pos as int)),
        r matches Ok(p) ==> p.1 <= input@.len(),
    decreases input@.len() - pos, 10int,
{
    match arguments(input, pos) {
        Ok((args, p1)) => {
            if has_byte(input, p1, 41) {
                Ok((args, p1 + 1))
            } else {
                Err(ParseError { pos: p1 })
            }
        },
        Err(_) => {
            if has_byte(input, pos, 41) {
                Ok((ExprList::Nil, pos + 1))
            } else {
                Err(ParseError { pos })
            }
        },
    }
}

/// Parses a function call: a name directly followed by parenthesised
/// arguments.
#[verifier::rlimit(60)]
pub fn function_call(input: &[u8], pos: usize) -> (r: Result<(Expr, usize), ParseError>)
    requires
        pos <= input@.len(),
    ensures
        expr_res(r, pos as int, spec_function_call(input@, pos as int)),
        r matches Ok(p) ==> p.1 <= input@.len(),
    decreases input@.len() - pos, 1int,
{
    let end = scan_alnum(input, pos);
    if end == pos {
        return Err(ParseError { pos });
    }
    if !has_byte(input, end, 40) {
        return Err(ParseError { pos: end });
    }
    match call_args(input, end + 1) {
        Ok((args, p1)) => Ok((
            Expr::FunctionCall { name: take_bytes(input, pos, end), args },
            p1,
        )),
        Err(e) => Err(e),
    }
}

/// Parses a parenthesised expression.
#[verifier::rlimit(60)]
pub fn parenthetical_expression(input: &[u8], pos: usize) -> (r: Result<
    (Expr, usize),
    ParseError,
>)
    requires
        pos <= input@.len(),
    ensures
        expr_res(r, pos as int, spec_parenthetical(input@, pos as int)),
        r matches Ok(p) ==> p.1 <= input@.len(),
    decreases input@.len() - pos, 1int,
{
    let p0 = skip_ws(input, pos);
    if !has_byte(input, p0, 40) {
        return Err(ParseError { pos: p0 });
    }
    let p1 = skip_ws(input, p0 + 1);
    match conditional_expression(input, p1) {
        Err(e) => Err(e),
        Ok((v, p2)) => {
            let p3 = skip_ws(input, p2);
            if !has_byte(input, p3, 41) {
                Err(ParseError { pos: p3 })
            } else {
                let p4 = skip_ws(input, p3 + 1);
                Ok((v, p4))
            }
        },
    }
}

/// Parses an atom: a call, a literal, an identifier, or a parenthesised
/// expression.
#[verifier::rlimit(100)]
pub fn l4(input: &[u8], pos: usize) -> (r: Result<(Expr, usize), ParseError>)
    requires
        pos <= input@.len(),
    ensures
        expr_res(r, pos as int, spec_l4(input@, pos as int)),
        r matches Ok(p) ==> p.1 <= input@.len(),
    decreases input@.len() - pos, 2int,
{
    match function_call(input, pos) {
        Ok(p) => Ok(p),
        Err(_) => match boolean(input, pos) {
            Ok(p) => Ok(p),
            Err(_) => match number(input, pos) {
                Ok(p) => Ok(p),
                Err(_) => match identifier(input, pos) {
                    Ok(p) => Ok(p),
                    Err(_) => parenthetical_expression(input, pos),
                },
            },
        },
    }
}

/// Parses exponentiation, right-associated.
#[verifier::rlimit(60)]
pub fn l3(input: &[u8], pos: usize) -> (r: Result<(Expr, usize), ParseError>)
    requires
        pos <= input@.len(),
    ensures
        expr_res(r, pos as int, spec_l3(input@, pos as int)),
        r matches Ok(p) ==> p.1 <= input@.len(),
    decreases input@.len() - pos, 3int,
{
    match l4(input, pos) {
        Err(e) => Err(e),
        Ok((lhs, p1)) => {
            let p2 = skip_ws(input, p1);
            if has_byte(input, p2, 94) {
                let p3 = skip_ws(input, p2 + 1);
                match l3(input, p3) {
                    Ok((rhs, p4)) => Ok((
                        Expr::Math { op: MathOp::Exp, lhs: Box::new(lhs), rhs: Box::new(rhs) },
                        p4,
                    )),
                    Err(_) => Ok((lhs, p1)),
                }
            } else {
                Ok((lhs, p1))
            }
        },
    }
}

/// Folds the trailing `*` and `/` occurrences onto `acc`.
#[verifier::rlimit(60)]
fn l2_tail(input: &[u8], pos: usize, acc: Expr) -> (r: (Expr, usize))
    requires
        pos <= input@.len(),
    ensures
        ({
            let (v, u) = spec_l2_tail(input@, pos as int, acc.model());
            r.0.model() == v && r.1 as int == pos + u && r.1 <= input@.len()
        }),
    decreases input@.len() - pos, 0int,
{
    let p = skip_ws(input, pos);
    let star = has_byte(input, p, 42);
    if star || has_byte(input, p, 47) {
        let op = if star {
            MathOp::Mul
        } else {
            MathOp::Div
        };
        let p2 = skip_ws(input, p + 1);
        match l3(input, p2) {
            Ok((rhs, p3)) => {
                let folded = Expr::Math { op, lhs: Box::new(acc), rhs: Box::new(rhs) };
                l2_tail(input, p3, folded)
            },
            Err(_) => (acc, pos),
        }
    } else {
        (acc, pos)
    }
}

/// Parses multiplication and division, left-associated.
#[verifier::rlimit(60)]
pub fn l2(input: &[u8], pos: usize) -> (r: Result<(Expr, usize), ParseError>)
    requires
        pos <= input@.len(),
    ensures
        expr_res(r, pos as int, spec_l2(input@, pos as int)),
        r matches Ok(p) ==> p.1 <= input@.len(),
    decreases input@.len() - pos, 4int,
{
    match l3(input, pos) {
        Err(e) => Err(e),
        Ok((e, p1)) => {
            let (v, p2) = l2_tail(input, p1, e);
            Ok((v, p2))
        },
    }
}

/// Folds the trailing `+` and `-` occurrences onto `acc`.
#[verifier::rlimit(60)]
fn l1_tail(input: &[u8], pos: usize, acc: Expr) -> (r: (Expr, usize))
    requires
        pos <= input@.len(),
    ensures
        ({
            let (v, u) = spec_l1_tail(input@, pos as int, acc.model());
            r.0.model() == v && r.1 as int == pos + u && r.1 <= input@.len()
        }),
    decreases input@.len() - pos, 0int,
{
    let p = skip_ws(input, pos);
    let plus = has_byte(input, p, 43);
    if plus || has_byte(input, p, 45) {
        let op = if plus {
            MathOp::Add
        } else {
            MathOp::Sub
        };
        let p2 = skip_ws(input, p + 1);
        match l2(input, p2) {
            Ok((rhs, p3)) => {
                let folded = Expr::Math { op, lhs: Box::new(acc), rhs: Box::new(rhs) };
                l1_tail(input, p3, folded)
            },
            Err(_) => (acc, pos),
        }
    } else {
        (acc, pos)
    }
}

/// Parses addition and subtraction, left-associated, the loosest arithmetic
/// level.
#[verifier::rlimit(60)]
pub fn l1(input: &[u8], pos: usize) -> (r: Result<(Expr, usize), ParseError>)
    requires
        pos <= input@.len(),
    ensures
        expr_res(r, pos as int, spec_l1(input@, pos as int)),
        r matches Ok(p) ==> p.1 <= input@.len(),
    decreases input@.len() - pos, 5int,
{
    let p0 = skip_ws(input, pos);
    match l2(input, p0) {
        Err(e) => Err(e),
        Ok((e, p1)) => {
            let p2 = skip_ws(input, p1);
            let (v, p3) = l1_tail(input, p2, e);
            let p4 = skip_ws(input, p3);
            Ok((v, p4))
        },
    }
}

/// Parses the whole arithmetic tower.
#[verifier::rlimit(60)]
pub fn math_expression(input: &[u8], pos: usize) -> (r: Result<(Expr, usize), ParseError>)
    requires
        pos <= input@.len(),
    ensures
        expr_res(r, pos as int, spec_math_expression(input@, pos as int)),
        r matches Ok(p) ==> p.1 <= input@.len(),
    decreases input@.len() - pos, 6int,
{
    let p0 = skip_ws(input, pos);
    l1(input, p0)
}

/// Folds the trailing relational occurrences onto `acc`.
#[verifier::rlimit(60)]
fn cond_tail(input: &[u8], pos: usize, acc: Expr) -> (r: (Expr, usize))
    requires
        pos <= input@.len(),
    ensures
        ({
            let (v, u) = spec_cond_tail(input@, pos as int, acc.model());
            r.0.model() == v && r.1 as int == pos + u && r.1 <= input@.len()
        }),
    decreases input@.len() - pos, 0int,
{
    let p = skip_ws(input, pos);
    match cmp_op(input, p) {
        Some((op, k)) => {
            let p2 = skip_ws(input, p + k);
            match math_expression(input, p2) {
                Ok((rhs, p3)) => {
                    let folded = Expr::Comparison { op, lhs: Box::new(acc), rhs: Box::new(rhs) };
                    cond_tail(input, p3, folded)
                },
                Err(_) => (acc, pos),
            }
        },
        None => (acc, pos),
    }
}

/// Parses an arithmetic expression followed by zero or more relational
/// operators, left-associated.
#[verifier::rlimit(60)]
pub fn conditional_expression(input: &[u8], pos: usize) -> (r: Result<(Expr, usize), ParseError>)
    requires
        pos <= input@.len(),
    ensures
        expr_res(r, pos as int, spec_conditional(input@, pos as int)),
        r matches Ok(p) ==> p.1 <= input@.len(),
    decreases input@.len() - pos, 7int,
{
    match math_expression(input, pos) {
        Err(e) => Err(e),
        Ok((e, p1)) => {
            let (v, p2) = cond_tail(input, p1, e);
            Ok((v, p2))
        },
    }
}

/// Parses one or more comma-separated argument expressions.
#[verifier::rlimit(60)]
pub fn arguments(input: &[u8], pos: usize) -> (r: Result<(ExprList, usize), ParseError>)
    requires
        pos <= input@.len(),
    ensures
        exprlist_res(r, pos as int, spec_arguments(input@, pos as int)),
        r matches Ok(p) ==> p.1 <= input@.len(),
    decreases input@.len() - pos, 9int,
{
    match expression(input, pos) {
        Err(e) => Err(e),
        Ok((e, p1)) => {
            let (rest, p2) = args_tail(input, p1);
            Ok((ExprList::Cons(Box::new(e), Box::new(rest)), p2))
        },
    }
}

/// Collects the trailing `, expression` occurrences of an argument list.
#[verifier::rlimit(60)]
fn args_tail(input: &[u8], pos: usize) -> (r: (ExprList, usize))
    requires
        pos <= input@.len(),
    ensures
        ({
            let (v, u) = spec_args_tail(input@, pos as int);
            r.0.model() == v && r.1 as int == pos + u && r.1 <= input@.len()
        }),
    decreases input@.len() - pos, 0int,
{
    if has_byte(input, pos, 44) {
        match expression(input, pos + 1) {
            Ok((e, p1)) => {
                let (rest, p2) = args_tail(input, p1);
                (ExprList::Cons(Box::new(e), Box::new(rest)), p2)
            },
            Err(_) => (ExprList::Nil, pos),
        }
    } else {
        (ExprList::Nil, pos)
    }
}

/// Parses an expression: a boolean, an if-expression, the arithmetic and
/// relational tower, or a string literal, tried in that order.
#[verifier::rlimit(60)]
pub fn expression(input: &[u8], pos: usize) -> (r: Result<(Expr, usize), ParseError>)
    requires
        pos <= input@.len(),
    ensures
        expr_res(r, pos as int, spec_expression(input@, pos as int)),
        r matches Ok(p) ==> p.1 <= input@.len(),
    decreases input@.len() - pos, 8int,
{
    match boolean(input, pos) {
        Ok(p) => Ok(p),
        Err(_) => match if_expression(input, pos) {
            Ok(p) => Ok(p),
            Err(_) => match conditional_expression(input, pos) {
                Ok(p) => Ok(p),
                Err(_) => string(input, pos),
            },
        },
    }
}

/// Parses a variable definition: `let`, a name, `=`, an expression.
#[verifier::rlimit(60)]
pub fn variable_define(input: &[u8], pos: usize) -> (r: Result<(Stmt, usize), ParseError>)
    requires
        pos <= input@.len(),
    ensures
        stmt_res(r, pos as int, spec_variable_define(input@, pos as int)),
        r matches Ok(p) ==> p.1 <= input@.len(),
    decreases input@.len() - pos, 1int,
{
    let p = skip_ws(input, pos);
    if !has_let_kw(input, p) {
        return Err(ParseError { pos: p });
    }
    let p1 = skip_ws(input, p + 4);
    let end = scan_alnum(input, p1);
    if end == p1 {
        return Err(ParseError { pos: p1 });
    }
    let p2 = skip_ws(input, end);
    if !has_byte(input, p2, 61) {
        return Err(ParseError { pos: p2 });
    }
    let p3 = skip_ws(input, p2 + 1);
    match expression(input, p3) {
        Err(e) => Err(e),
        Ok((e, p4)) => Ok((
            Stmt::VariableDefine { name: take_bytes(input, p1, end), value: e },
            p4,
        )),
    }
}

/// Parses a return statement: `return`, then a call, an expression or an
/// identifier.
#[verifier::rlimit(60)]
pub fn function_return(input: &[u8], pos: usize) -> (r: Result<(Stmt, usize), ParseError>)
    requires
        pos <= input@.len(),
    ensures
        stmt_res(r, pos as int, spec_function_return(input@, pos as int)),
        r matches Ok(p) ==> p.1 <= input@.len(),
    decreases input@.len() - pos, 1int,
{
    if !has_return_kw(input, pos) {
        return Err(ParseError { pos });
    }
    let p = pos + 7;
    let inner = match function_call(input, p) {
        Ok(q) => Ok(q),
        Err(_) => match expression(input, p) {
            Ok(q) => Ok(q),
            Err(_) => identifier(input, p),
        },
    };
    match inner {
        Err(e) => Err(e),
        Ok((e, p1)) => Ok((Stmt::FunctionReturn { value: e }, p1)),
    }
}

/// Parses one statement: a variable definition or a return, terminated by
/// `;`.
#[verifier::rlimit(60)]
pub fn statement(input: &[u8], pos: usize) -> (r: Result<(Stmt, usize), ParseError>)
    requires
        pos <= input@.len(),
    ensures
        stmt_res(r, pos as int, spec_statement(input@, pos as int)),
        r matches Ok(p) ==> p.1 <= input@.len(),
    decreases input@.len() - pos, 2int,
{
    let p = skip_ws(input, pos);
    let first = match variable_define(input, p) {
        Ok(q) => Ok(q),
        Err(_) => function_return(input, p),
    };
    match first {
        Err(e) => Err(e),
        Ok((st, p1)) => {
            let p2 = skip_ws(input, p1);
            if !has_byte(input, p2, 59) {
                Err(ParseError { pos: p2 })
            } else {
                let p3 = skip_ws(input, p2 + 1);
                Ok((st, p3))
            }
        },
    }
}

/// Parses the one-or-more statements of a block.
#[verifier::rlimit(60)]
pub fn if_statement(input: &[u8], pos: usize) -> (r: Result<(StmtList, usize), ParseError>)
    requires
        pos <= input@.len(),
    ensures
        stmts_res(r, pos as int, spec_block(input@, pos as int)),
        r matches Ok(p) ==> p.1 <= input@.len(),
    decreases input@.len() - pos, 3int,
{
    let ghost sp = spec_block(input@, pos as int);
    match statement(input, pos) {
        Err(e) => Err(e),
        Ok((st, p1)) => {
            if p1 == pos {
                // a successful statement always consumes input; this branch
                // only mirrors the vacuous case of the mathematical grammar
                let one = StmtList::Cons(Box::new(st), Box::new(StmtList::Nil));
                proof {
                    assert(sp matches Parsed::Found { v, used } && v == one.model() && used
                        == p1 - pos);
                }
                Ok((one, p1))
            } else {
                match if_statement(input, p1) {
                    Ok((rest, p2)) => {
                        let more = StmtList::Cons(Box::new(st), Box::new(rest));
                        proof {
                            assert(sp matches Parsed::Found { v, used } && v == more.model()
                                && used == p2 - pos);
                        }
                        Ok((more, p2))
                    },
                    Err(_) => {
                        let one = StmtList::Cons(Box::new(st), Box::new(StmtList::Nil));
                        proof {
                            assert(sp matches Parsed::Found { v, used } && v == one.model()
                                && used == p1 - pos);
                        }
                        Ok((one, p1))
                    },
                }
            }
        },
    }
}

/// Parses the shared conditional arm head: `if`, a condition, a braced
/// block.
#[verifier::rlimit(100)]
#[verifier::spinoff_prover]
fn if_head(input: &[u8], pos: usize) -> (r: Result<(Arm, usize), ParseError>)
    requires
        pos <= input@.len(),
    ensures
        arm_res(r, pos as int, spec_if_head(input@, pos as int)),
        r matches Ok(p) ==> p.1 <= input@.len(),
    decreases input@.len() - pos, 1int,
{
    let p0 = skip_ws(input, pos);
    if !has_if(input, p0) {
        return Err(ParseError { pos: p0 });
    }
    let p1 = skip_ws(input, p0 + 2);
    match conditional_expression(input, p1) {
        Err(e) => Err(e),
        Ok((cond, p2)) => {
            let p3 = skip_ws(input, p2);
            if !has_byte(input, p3, 123) {
                return Err(ParseError { pos: p3 });
            }
            let p4 = skip_ws(input, p3 + 1);
            match if_statement(input, p4) {
                Err(e) => Err(e),
                Ok((blk, p5)) => {
                    let p6 = skip_ws(input, p5);
                    if !has_byte(input, p6, 125) {
                        return Err(ParseError { pos: p6 });
                    }
                    let p7 = skip_ws(input, p6 + 1);
                    Ok((Arm { cond, block: blk }, p7))
                },
            }
        },
    }
}

/// Parses one `else if` arm.
#[verifier::rlimit(60)]
pub fn else_if_expression(input: &[u8], pos: usize) -> (r: Result<(Arm, usize), ParseError>)
    requires
        pos <= input@.len(),
    ensures
        arm_res(r, pos as int, spec_else_if(input@, pos as int)),
        r matches Ok(p) ==> p.1 <= input@.len(),
    decreases input@.len() - pos, 2int,
{
    if !has_else(input, pos) {
        return Err(ParseError { pos });
    }
    if_head(input, pos + 4)
}

/// Collects the `else if` arms, zero or more, in order.
#[verifier::rlimit(60)]
fn else_ifs(input: &[u8], pos: usize) -> (r: (ArmList, usize))
    requires
        pos <= input@.len(),
    ensures
        ({
            let (v, u) = spec_else_ifs(input@, pos as int);
            r.0.model() == v && r.1 as int == pos + u && r.1 <= input@.len()
        }),
    decreases input@.len() - pos, 3int,
{
    match else_if_expression(input, pos) {
        Err(_) => (ArmList::Nil, pos),
        Ok((a, p1)) => {
            if p1 == pos {
                // vacuous: a successful arm always consumes input
                (ArmList::Cons(Box::new(a), Box::new(ArmList::Nil)), p1)
            } else {
                let (rest, p2) = else_ifs(input, p1);
                (ArmList::Cons(Box::new(a), Box::new(rest)), p2)
            }
        },
    }
}

/// Parses the mandatory `else` block.
#[verifier::rlimit(60)]
pub fn else_expression(input: &[u8], pos: usize) -> (r: Result<(StmtList, usize), ParseError>)
    requires
        pos <= input@.len(),
    ensures
        stmts_res(r, pos as int, spec_else_expression(input@, pos as int)),
        r matches Ok(p) ==> p.1 <= input@.len(),
    decreases input@.len() - pos, 1int,
{
    if !has_else(input, pos) {
        return Err(ParseError { pos });
    }
    let p = skip_ws(input, pos + 4);
    if !has_byte(input, p, 123) {
        return Err(ParseError { pos: p });
    }
    let p1 = skip_ws(input, p + 1);
    match if_statement(input, p1) {
        Err(e) => Err(e),
        Ok((blk, p2)) => {
            let p3 = skip_ws(input, p2);
            if !has_byte(input, p3, 125) {
                return Err(ParseError { pos: p3 });
            }
            let p4 = skip_ws(input, p3 + 1);
            Ok((blk, p4))
        },
    }
}

/// Parses an if-expression; a chain without its final `else` block fails.
#[verifier::rlimit(100)]
#[verifier::spinoff_prover]
pub fn if_expression(input: &[u8], pos: usize) -> (r: Result<(Expr, usize), ParseError>)
    requires
        pos <= input@.len(),
    ensures
        expr_res(r, pos as int, spec_if_expression(input@, pos as int)),
        r matches Ok(p) ==> p.1 <= input@.len(),
    decreases input@.len() - pos, 4int,
{
    match if_head(input, pos) {
        Err(e) => Err(e),
        Ok((arm, p1)) => {
            let (arms, p2) = else_ifs(input, p1);
            let p3 = skip_ws(input, p2);
            match else_expression(input, p3) {
                Err(e) => Err(e),
                Ok((els, p4)) => Ok((
                    Expr::IfExpression {
                        then_arm: Box::new(arm),
                        elif_arms: arms,
                        else_block: els,
                    },
                    p4,
                )),
            }
        },
    }
}

/// Collects the declared parameter names, zero or more.
#[verifier::rlimit(60)]
fn params(input: &[u8], pos: usize) -> (r: (ParamList, usize))
    requires
        pos <= input@.len(),
    ensures
        ({
            let (v, u) = spec_params(input@, pos as int);
            r.0.model() == v && r.1 as int == pos + u && r.1 <= input@.len()
        }),
    decreases input@.len() - pos, 1int,
{
    let p = skip_ws(input, pos);
    let end = scan_alnum(input, p);
    if end == p {
        (ParamList::Nil, pos)
    } else {
        let p1 = skip_ws(input, end);
        let (rest, p2) = params_tail(input, p1);
        proof {
            let sp = spec_params(input@, pos as int);
            assert(sp.0 =~= seq![input@.subrange(p as int, end as int)] + spec_params_tail(
                input@,
                p1 as int,
            ).0);
        }
        (ParamList::Cons(take_bytes(input, p, end), Box::new(rest)), p2)
    }
}

/// Collects the trailing `, name` occurrences of a parameter list.
#[verifier::rlimit(60)]
fn params_tail(input: &[u8], pos: usize) -> (r: (ParamList, usize))
    requires
        pos <= input@.len(),
    ensures
        ({
            let (v, u) = spec_params_tail(input@, pos as int);
            r.0.model() == v && r.1 as int == pos + u && r.1 <= input@.len()
        }),
    decreases input@.len() - pos, 0int,
{
    if has_byte(input, pos, 44) {
        let p = skip_ws(input, pos + 1);
        let end = scan_alnum(input, p);
        if end == p {
            (ParamList::Nil, pos)
        } else {
            let p1 = skip_ws(input, end);
            let (rest, p2) = params_tail(input, p1);
            proof {
                let sp = spec_params_tail(input@, pos as int);
                assert(sp.0 =~= seq![input@.subrange(p as int, end as int)] + spec_params_tail(
                    input@,
                    p1 as int,
                ).0);
            }
            (ParamList::Cons(take_bytes(input, p, end), Box::new(rest)), p2)
        }
    } else {
        (ParamList::Nil, pos)
    }
}

/// Parses a function definition.
#[verifier::rlimit(60)]
pub fn function_definition(input: &[u8], pos: usize) -> (r: Result<(Item, usize), ParseError>)
    requires
        pos <= input@.len(),
    ensures
        item_res(r, pos as int, spec_function_definition(input@, pos as int)),
        r matches Ok(p) ==> p.1 <= input@.len(),
    decreases input@.len() - pos, 2int,
{
    let p = skip_ws(input, pos);
    if !has_fn_kw(input, p) {
        return Err(ParseError { pos: p });
    }
    let p1 = skip_ws(input, p + 3);
    let end = scan_alnum(input, p1);
    if end == p1 {
        return Err(ParseError { pos: p1 });
    }
    if !has_byte(input, end, 40) {
        return Err(ParseError { pos: end });
    }
    let (ps, p2) = params(input, end + 1);
    if !has_byte(input, p2, 41) {
        return Err(ParseError { pos: p2 });
    }
    let p3 = skip_ws(input, p2 + 1);
    if !has_byte(input, p3, 123) {
        return Err(ParseError { pos: p3 });
    }
    let p4 = skip_ws(input, p3 + 1);
    match if_statement(input, p4) {
        Err(e) => Err(e),
        Ok((body, p5)) => {
            let p6 = skip_ws(input, p5);
            if !has_byte(input, p6, 125) {
                return Err(ParseError { pos: p6 });
            }
            let p7 = skip_ws(input, p6 + 1);
            Ok((
                Item::Function(FunctionDef { name: take_bytes(input, p1, end), params: ps, body }),
                p7,
            ))
        },
    }
}

/// Parses a program: one or more function definitions; what follows the
/// last one is left unconsumed.
pub fn program(input: &[u8], pos: usize) -> (r: Result<(Node, usize), ParseError>)
    requires
        pos <= input@.len(),
    ensures
        match spec_program(input@, pos as int) {
            Parsed::Found { v, used } => r matches Ok(p) && p.0.model() == v && p.1 as int == pos
                + used,
            Parsed::Fail { pos: fp } => r matches Err(e) && e.pos as int == fp,
        },
        r matches Ok(p) ==> p.1 <= input@.len(),
{
    match program_items(input, pos) {
        Err(e) => Err(e),
        Ok((items, p1)) => Ok((Node::Program { items }, p1)),
    }
}

/// Collects the one-or-more function definitions of a program.
#[verifier::rlimit(60)]
fn program_items(input: &[u8], pos: usize) -> (r: Result<(ItemList, usize), ParseError>)
    requires
        pos <= input@.len(),
    ensures
        items_res(r, pos as int, spec_program(input@, pos as int)),
        r matches Ok(p) ==> p.1 <= input@.len(),
    decreases input@.len() - pos, 3int,
{
    let ghost sp = spec_program(input@, pos as int);
    match function_definition(input, pos) {
        Err(e) => Err(e),
        Ok((f, p1)) => {
            if p1 == pos {
                // vacuous: a successful definition always consumes input
                let one = ItemList::Cons(f, Box::new(ItemList::Nil));
                proof {
                    assert(sp matches Parsed::Found { v, used } && v == one.model() && used
                        == p1 - pos);
                }
                Ok((one, p1))
            } else {
                match program_items(input, p1) {
                    Ok((rest, p2)) => {
                        let more = ItemList::Cons(f, Box::new(rest));
                        proof {
                            assert(sp matches Parsed::Found { v, used } && v == more.model()
                                && used == p2 - pos);
                        }
                        Ok((more, p2))
                    },
                    Err(_) => {
                        let one = ItemList::Cons(f, Box::new(ItemList::Nil));
                        proof {
                            assert(sp matches Parsed::Found { v, used } && v == one.model()
                                && used == p1 - pos);
                        }
                        Ok((one, p1))
                    },
                }
            }
        },
    }
}

/// Parses a whole source text from its start; trailing unconsumed input is
/// not an error.
pub fn parse(input: &[u8]) -> (r: Result<Node, ParseError>)
    ensures
        match spec_program(input@, 0) {
            Parsed::Found { v, .. } => r matches Ok(node) && node.model() == v,
            Parsed::Fail { pos: fp } => r matches Err(e) && e.pos as int == fp,
        },
{
    match program(input, 0) {
        Err(e) => Err(e),
        Ok((node, _)) => Ok(node),
    }
}

/// Parses a bare value: a boolean, a number or an identifier.
pub fn value(input: &[u8], pos: usize) -> (r: Result<(Expr, usize), ParseError>)
    requires
        pos <= input@.len(),
    ensures
        expr_res(r, pos as int, spec_value(input@, pos as int)),
        r matches Ok(p) ==> p.1 <= input@.len(),
{
    let p = skip_ws(input, pos);
    match boolean(input, p) {
        Ok(q) => Ok(q),
        Err(_) => match number(input, p) {
            Ok(q) => Ok(q),
            Err(_) => identifier(input, p),
        },
    }
}

/// value: a boolean, a number or an identifier, with whitespace before it.
pub open spec fn spec_value(s: Seq<u8>, pos: int) -> Parsed<SpecExpr> {
    if !(0 <= pos <= s.len()) {
        Parsed::Fail { pos }
    } else {
        let w = ws_run(s, pos);
        let p = pos + w;
        let inner = match spec_boolean(s, p) {
            Parsed::Found { v, used } => Parsed::Found { v, used },
            Parsed::Fail { .. } => match spec_number(s, p) {
                Parsed::Found { v, used } => Parsed::Found { v, used },
                Parsed::Fail { .. } => spec_identifier(s, p),
            },
        };
        match inner {
            Parsed::Fail { pos: f } => Parsed::Fail { pos: f },
            Parsed::Found { v, used: u } => Parsed::Found { v, used: w + u },
        }
    }
}

// ===================== Laws =====================

/// Law (mandatory `else`): an if-expression parses only together with its
/// terminating `else` block. A successful parse contains, after the `if`
/// arm and the `else if` arms, a successfully parsed `else` block, and the
/// tree carries exactly that block; and where the `else` block does not
/// parse, the whole if-expression fails.
pub proof fn lemma_if_requires_else(s: Seq<u8>, pos: int)
    ensures
        spec_if_expression(s, pos) matches Parsed::Found { v, used } ==> ({
            let h = spec_if_head(s, pos);
            let arms_u = spec_else_ifs(s, pos + h->Found_used);
            let q = pos + h->Found_used + arms_u.1 + ws_run(s, pos + h->Found_used + arms_u.1);
            &&& h is Found
            &&& spec_else_expression(s, q) is Found
            &&& v == (SpecExpr::IfExpression {
                then_arm: Box::new(h->Found_v),
                elif_arms: arms_u.0,
                else_block: spec_else_expression(s, q)->Found_v,
            })
        }),
        spec_if_head(s, pos) matches Parsed::Found { v: arm, used: u1 } ==> ({
            let arms_u = spec_else_ifs(s, pos + u1);
            let q = pos + u1 + arms_u.1 + ws_run(s, pos + u1 + arms_u.1);
            spec_else_expression(s, q) is Fail ==> spec_if_expression(s, pos) is Fail
        }),
{
}

/// Every byte of `d` is a decimal digit.
pub open spec fn all_digits(d: Seq<u8>) -> bool {
    forall|k: int| 0 <= k < d.len() ==> is_digit(#[trigger] d[k])
}

/// A maximal window of digits is exactly the digit run at its start.
proof fn lemma_digit_run_window(s: Seq<u8>, i: int, n: nat)
    requires
        0 <= i,
        i + n <= s.len(),
        forall|k: int| 0 <= k < n ==> is_digit(#[trigger] s[i + k]),
        i + n == s.len() || !is_digit(s[i + n]),
    ensures
        digit_run(s, i) == n,
    decreases n,
{
    if n > 0 {
        assert(is_digit(s[i + 0]));
        assert forall|k: int| 0 <= k < n - 1 implies is_digit(#[trigger] s[i + 1 + k]) by {
            assert(is_digit(s[i + (k + 1)]));
        }
        lemma_digit_run_window(s, i + 1, (n - 1) as nat);
    }
}

/// A maximal window of alphanumerics is exactly the alphanumeric run at its
/// start.
proof fn lemma_alnum_run_window(s: Seq<u8>, i: int, n: nat)
    requires
        0 <= i,
        i + n <= s.len(),
        forall|k: int| 0 <= k < n ==> is_alnum(#[trigger] s[i + k]),
        i + n == s.len() || !is_alnum(s[i + n]),
    ensures
        alnum_run(s, i) == n,
    decreases n,
{
    if n > 0 {
        assert(is_alnum(s[i + 0]));
        assert forall|k: int| 0 <= k < n - 1 implies is_alnum(#[trigger] s[i + 1 + k]) by {
            assert(is_alnum(s[i + (k + 1)]));
        }
        lemma_alnum_run_window(s, i + 1, (n - 1) as nat);
    }
}

/// The value of a digit window depends only on its bytes.
proof fn lemma_digits_value_transfer(s: Seq<u8>, i: int, d: Seq<u8>, n: nat)
    requires
        0 <= i,
        n <= d.len(),
        i + d.len() <= s.len(),
        forall|k: int| 0 <= k < d.len() ==> s[i + k] == #[trigger] d[k],
    ensures
        digits_value(s, i, n) == digits_value(d, 0, n),
    decreases n,
{
    if n > 0 {
        lemma_digits_value_transfer(s, i, d, (n - 1) as nat);
        assert(s[i + (n - 1)] == d[n - 1]);
    }
}

/// At a maximal digit window whose value fits and which no `(` follows, the
/// atom level parses exactly that number.
proof fn lemma_l4_number(s: Seq<u8>, i: int, n: nat)
    requires
        0 <= i,
        0 < n,
        i + n <= s.len(),
        forall|k: int| 0 <= k < n ==> is_digit(#[trigger] s[i + k]),
        i + n == s.len() || !is_alnum(s[i + n]),
        !at_byte(s, i + n, 40),
        digits_value(s, i, n) <= 0x7fff_ffff,
    ensures
        spec_l4(s, i) == (Parsed::Found {
            v: SpecExpr::Number { value: digits_value(s, i, n) as i32 },
            used: n,
        }),
{
    assert(i + n == s.len() || !is_digit(s[i + n]));
    lemma_digit_run_window(s, i, n);
    assert forall|k: int| 0 <= k < n implies is_alnum(#[trigger] s[i + k]) by {
        assert(is_digit(s[i + k]));
    }
    lemma_alnum_run_window(s, i, n);
    assert(is_digit(s[i + 0]));
    assert(spec_function_call(s, i) is Fail);
    assert(spec_boolean(s, i) is Fail);
    assert(spec_number(s, i) == (Parsed::Found {
        v: SpecExpr::Number { value: digits_value(s, i, n) as i32 },
        used: n,
    }));
}

/// When the whole input is one arithmetic expression starting with a digit,
/// the expression rule yields exactly the tower's tree.
#[verifier::rlimit(100)]
#[verifier::spinoff_prover]
proof fn lemma_expression_wrap(s: Seq<u8>, v: SpecExpr)
    requires
        0 < s.len(),
        !is_ws(s[0]),
        s[0] != 105 && s[0] != 116 && s[0] != 102,
        spec_l1(s, 0) == (Parsed::Found { v, used: s.len() as nat }),
    ensures
        spec_expression(s, 0) == (Parsed::Found { v, used: s.len() as nat }),
{
    assert(ws_run(s, 0) == 0);
    assert(spec_math_expression(s, 0) == (Parsed::Found { v, used: s.len() as nat }));
    assert(cmp_op_at(s, s.len() as int) is None);
    assert(spec_cond_tail(s, s.len() as int, v) == (v, 0 as nat));
    assert(spec_conditional(s, 0) == (Parsed::Found { v, used: s.len() as nat }));
    assert(spec_boolean(s, 0) is Fail);
    assert(spec_if_head(s, 0) is Fail);
    assert(spec_if_expression(s, 0) is Fail);
}

/// The input holds exactly the bytes `<digits> op <digits> op <digits>`,
/// with the two operator bytes given.
spec fn three_atom_shape(s: Seq<u8>, la: int, lb: int, lc: int, op1: u8, op2: u8) -> bool {
    &&& 0 < la && 0 < lb && 0 < lc
    &&& s.len() == la + 1 + lb + 1 + lc
    &&& (forall|k: int| 0 <= k < la ==> is_digit(#[trigger] s[k]))
    &&& s[la] == op1
    &&& (forall|k: int| 0 <= k < lb ==> is_digit(#[trigger] s[la + 1 + k]))
    &&& s[la + 1 + lb] == op2
    &&& (forall|k: int| 0 <= k < lc ==> is_digit(#[trigger] s[la + 2 + lb + k]))
    &&& digits_value(s, 0, la as nat) <= 0x7fff_ffff
    &&& digits_value(s, la + 1, lb as nat) <= 0x7fff_ffff
    &&& digits_value(s, la + 2 + lb, lc as nat) <= 0x7fff_ffff
}

/// The three number atoms of a `three_atom_shape` input, parsed by `l4`.
#[verifier::rlimit(100)]
#[verifier::spinoff_prover]
proof fn lemma_three_atoms(s: Seq<u8>, la: int, lb: int, lc: int, op1: u8, op2: u8)
    requires
        three_atom_shape(s, la, lb, lc, op1, op2),
        !is_alnum(op1),
        !is_alnum(op2),
        op1 != 40,
        op2 != 40,
    ensures
        spec_l4(s, 0) == (Parsed::Found {
            v: SpecExpr::Number { value: digits_value(s, 0, la as nat) as i32 },
            used: la as nat,
        }),
        spec_l4(s, la + 1) == (Parsed::Found {
            v: SpecExpr::Number { value: digits_value(s, la + 1, lb as nat) as i32 },
            used: lb as nat,
        }),
        spec_l4(s, la + 2 + lb) == (Parsed::Found {
            v: SpecExpr::Number { value: digits_value(s, la + 2 + lb, lc as nat) as i32 },
            used: lc as nat,
        }),
{
    assert forall|k: int| 0 <= k < la implies is_digit(#[trigger] s[0 + k]) by {
        assert(is_digit(s[k]));
    }
    lemma_l4_number(s, 0, la as nat);
    lemma_l4_number(s, la + 1, lb as nat);
    lemma_l4_number(s, la + 2 + lb, lc as nat);
}

/// A byte that stops every level of the arithmetic tower.
spec fn stops_tower(s: Seq<u8>, t: int) -> bool {
    t == s.len() || (!is_alnum(s[t]) && s[t] != 40 && !is_ws(s[t]) && s[t] != 94 && s[t] != 42
        && s[t] != 47)
}

/// At a maximal digit window followed by a tower-stopping byte, `l2` parses
/// exactly that number.
#[verifier::rlimit(100)]
#[verifier::spinoff_prover]
proof fn lemma_l2_number(s: Seq<u8>, i: int, n: int)
    requires
        0 <= i,
        0 < n,
        i + n <= s.len(),
        forall|k: int| 0 <= k < n ==> is_digit(#[trigger] s[i + k]),
        stops_tower(s, i + n),
        digits_value(s, i, n as nat) <= 0x7fff_ffff,
    ensures
        spec_l2(s, i) == (Parsed::Found {
            v: SpecExpr::Number { value: digits_value(s, i, n as nat) as i32 },
            used: n as nat,
        }),
{
    lemma_l4_number(s, i, n as nat);
    let nv = SpecExpr::Number { value: digits_value(s, i, n as nat) as i32 };
    assert(spec_l3(s, i) == (Parsed::Found { v: nv, used: n as nat }));
    assert(spec_l2_tail(s, i + n, nv) == (nv, 0 as nat));
}

/// Over `<b> * <c>` followed by a tower-stopping byte, `l2` folds the
/// product.
#[verifier::rlimit(100)]
#[verifier::spinoff_prover]
proof fn lemma_l2_mul_pair(s: Seq<u8>, i: int, lb: int, lc: int)
    requires
        0 <= i,
        0 < lb && 0 < lc,
        i + lb + 1 + lc <= s.len(),
        forall|k: int| 0 <= k < lb ==> is_digit(#[trigger] s[i + k]),
        s[i + lb] == 42,
        forall|k: int| 0 <= k < lc ==> is_digit(#[trigger] s[i + lb + 1 + k]),
        stops_tower(s, i + lb + 1 + lc),
        digits_value(s, i, lb as nat) <= 0x7fff_ffff,
        digits_value(s, i + lb + 1, lc as nat) <= 0x7fff_ffff,
    ensures
        spec_l2(s, i) == (Parsed::Found {
            v: SpecExpr::Math {
                op: MathOp::Mul,
                lhs: Box::new(SpecExpr::Number { value: digits_value(s, i, lb as nat) as i32 }),
                rhs: Box::new(SpecExpr::Number {
                    value: digits_value(s, i + lb + 1, lc as nat) as i32,
                }),
            },
            used: (lb + 1 + lc) as nat,
        }),
{
    lemma_l4_number(s, i, lb as nat);
    assert forall|k: int| 0 <= k < lc implies is_digit(#[trigger] s[(i + lb + 1) + k]) by {
        assert(is_digit(s[i + lb + 1 + k]));
    }
    lemma_l4_number(s, i + lb + 1, lc as nat);
    let nb = SpecExpr::Number { value: digits_value(s, i, lb as nat) as i32 };
    let nc = SpecExpr::Number { value: digits_value(s, i + lb + 1, lc as nat) as i32 };
    let mbc = SpecExpr::Math { op: MathOp::Mul, lhs: Box::new(nb), rhs: Box::new(nc) };
    assert(spec_l3(s, i) == (Parsed::Found { v: nb, used: lb as nat }));
    assert(spec_l3(s, i + lb + 1) == (Parsed::Found { v: nc, used: lc as nat }));
    assert(spec_l2_tail(s, i + lb + 1 + lc, mbc) == (mbc, 0 as nat));
    assert(spec_l2_tail(s, i + lb, nb) == (mbc, (1 + lc) as nat));
}

/// One additive step of the `l1` tail fold.
#[verifier::rlimit(100)]
#[verifier::spinoff_prover]
proof fn lemma_l1_tail_step(
    s: Seq<u8>,
    pos: int,
    acc: SpecExpr,
    rhs: SpecExpr,
    u: nat,
    res: SpecExpr,
    u2: nat,
)
    requires
        0 <= pos < s.len(),
        !is_ws(s[pos]),
        s[pos] == 43 || s[pos] == 45,
        pos + 1 == s.len() || !is_ws(s[pos + 1]),
        spec_l2(s, pos + 1) == (Parsed::Found { v: rhs, used: u }),
        spec_l1_tail(
            s,
            pos + 1 + u,
            SpecExpr::Math {
                op: if s[pos] == 43 {
                    MathOp::Add
                } else {
                    MathOp::Sub
                },
                lhs: Box::new(acc),
                rhs: Box::new(rhs),
            },
        ) == (res, u2),
    ensures
        spec_l1_tail(s, pos, acc) == (res, (1 + u + u2) as nat),
{
    assert(ws_run(s, pos) == 0);
    assert(ws_run(s, pos + 1) == 0);
}

/// The `l1` tail fold stops where no additive operator stands.
#[verifier::rlimit(100)]
#[verifier::spinoff_prover]
proof fn lemma_l1_tail_stop(s: Seq<u8>, pos: int, acc: SpecExpr)
    requires
        pos == s.len() || (0 <= pos && !is_ws(s[pos]) && s[pos] != 43 && s[pos] != 45),
    ensures
        spec_l1_tail(s, pos, acc) == (acc, 0 as nat),
{
    assert(ws_run(s, pos) == 0);
}

/// `l1` assembled from its `l2` head and its tail fold.
#[verifier::rlimit(100)]
#[verifier::spinoff_prover]
proof fn lemma_l1_head(s: Seq<u8>, i: int, v: SpecExpr, u: nat, res: SpecExpr, u2: nat)
    requires
        0 <= i < s.len(),
        !is_ws(s[i]),
        spec_l2(s, i) == (Parsed::Found { v, used: u }),
        i + u == s.len() || !is_ws(s[i + u]),
        spec_l1_tail(s, i + u, v) == (res, u2),
        i + u + u2 == s.len() || !is_ws(s[i + u + u2]),
    ensures
        spec_l1(s, i) == (Parsed::Found { v: res, used: (u + u2) as nat }),
{
    assert(ws_run(s, i) == 0);
    assert(ws_run(s, i + u) == 0);
    assert(ws_run(s, i + u + u2) == 0);
}

/// An `l2` result followed by no additive operator is the whole `l1` level.
#[verifier::rlimit(100)]
#[verifier::spinoff_prover]
proof fn lemma_l1_from_l2(s: Seq<u8>, i: int, v: SpecExpr, u: nat)
    requires
        0 <= i <= s.len(),
        i < s.len() && !is_ws(s[i]),
        spec_l2(s, i) == (Parsed::Found { v, used: u }),
        i + u == s.len() || (!is_ws(s[i + u]) && s[i + u] != 43 && s[i + u] != 45),
    ensures
        spec_l1(s, i) == (Parsed::Found { v, used: u }),
{
    assert(ws_run(s, i) == 0);
    assert(ws_run(s, i + u) == 0);
    assert(spec_l1_tail(s, i + u, v) == (v, 0 as nat));
}

/// An `l1` result followed by no comparison operator is the whole
/// conditional expression.
#[verifier::rlimit(100)]
#[verifier::spinoff_prover]
proof fn lemma_conditional_from_l1(s: Seq<u8>, i: int, v: SpecExpr, u: nat)
    requires
        0 <= i <= s.len(),
        i < s.len() && !is_ws(s[i]),
        spec_l1(s, i) == (Parsed::Found { v, used: u }),
        i + u == s.len() || (!is_ws(s[i + u]) && s[i + u] != 60 && s[i + u] != 62 && s[i + u]
            != 61 && s[i + u] != 33),
    ensures
        spec_conditional(s, i) == (Parsed::Found { v, used: u }),
{
    assert(ws_run(s, i) == 0);
    assert(spec_math_expression(s, i) == (Parsed::Found { v, used: u }));
    assert(ws_run(s, i + u) == 0);
    assert(cmp_op_at(s, i + u) is None);
    assert(spec_cond_tail(s, i + u, v) == (v, 0 as nat));
}

/// A parenthesised conditional expression is one `l4` atom.
#[verifier::rlimit(100)]
#[verifier::spinoff_prover]
proof fn lemma_paren_wrap(s: Seq<u8>, i: int, v: SpecExpr, u: nat)
    requires
        0 <= i,
        i + 2 + u <= s.len(),
        s[i] == 40,
        !is_ws(s[i + 1]),
        spec_conditional(s, i + 1) == (Parsed::Found { v, used: u }),
        s[i + 1 + u] == 41,
        i + 2 + u == s.len() || !is_ws(s[i + 2 + u]),
    ensures
        spec_l4(s, i) == (Parsed::Found { v, used: (u + 2) as nat }),
{
    assert(alnum_run(s, i) == 0);
    assert(digit_run(s, i) == 0);
    assert(spec_function_call(s, i) is Fail);
    assert(spec_boolean(s, i) is Fail);
    assert(spec_number(s, i) is Fail);
    assert(spec_identifier(s, i) is Fail);
    assert(ws_run(s, i) == 0);
    assert(ws_run(s, i + 1) == 0);
    assert(ws_run(s, i + 1 + u) == 0);
    assert(ws_run(s, i + 2 + u) == 0);
    assert(spec_parenthetical(s, i) == (Parsed::Found { v, used: (u + 2) as nat }));
}

/// Over a `<a> + <b> * <c>` input, the tower builds `a + (b * c)`:
/// multiplication binds tighter.
#[verifier::rlimit(100)]
#[verifier::spinoff_prover]
proof fn lemma_mul_tower(s: Seq<u8>, la: int, lb: int, lc: int)
    requires
        three_atom_shape(s, la, lb, lc, 43, 42),
    ensures
        spec_expression(s, 0) == (Parsed::Found {
            v: SpecExpr::Math {
                op: MathOp::Add,
                lhs: Box::new(SpecExpr::Number { value: digits_value(s, 0, la as nat) as i32 }),
                rhs: Box::new(SpecExpr::Math {
                    op: MathOp::Mul,
                    lhs: Box::new(SpecExpr::Number {
                        value: digits_value(s, la + 1, lb as nat) as i32,
                    }),
                    rhs: Box::new(SpecExpr::Number {
                        value: digits_value(s, la + 2 + lb, lc as nat) as i32,
                    }),
                }),
            },
            used: s.len() as nat,
        }),
{
    assert forall|k: int| 0 <= k < la implies is_digit(#[trigger] s[0 + k]) by {
        assert(is_digit(s[k]));
    }
    lemma_l2_number(s, 0, la);
    assert forall|k: int| 0 <= k < lb implies is_digit(#[trigger] s[(la + 1) + k]) by {
        assert(is_digit(s[la + 1 + k]));
    }
    assert forall|k: int| 0 <= k < lc implies is_digit(#[trigger] s[(la + 1) + lb + 1 + k]) by {
        assert(is_digit(s[la + 2 + lb + k]));
    }
    lemma_l2_mul_pair(s, la + 1, lb, lc);
    let na = SpecExpr::Number { value: digits_value(s, 0, la as nat) as i32 };
    let abc = SpecExpr::Math {
        op: MathOp::Add,
        lhs: Box::new(na),
        rhs: Box::new(SpecExpr::Math {
            op: MathOp::Mul,
            lhs: Box::new(SpecExpr::Number { value: digits_value(s, la + 1, lb as nat) as i32 }),
            rhs: Box::new(SpecExpr::Number {
                value: digits_value(s, la + 1 + lb + 1, lc as nat) as i32,
            }),
        }),
    };
    assert(digits_value(s, la + 1 + lb + 1, lc as nat) == digits_value(s, la + 2 + lb, lc as nat));
    assert(spec_l1_tail(s, s.len() as int, abc) == (abc, 0 as nat));
    assert(spec_l1_tail(s, la, na) == (abc, (1 + lb + 1 + lc) as nat));
    assert(spec_l1(s, 0) == (Parsed::Found { v: abc, used: s.len() as nat }));
    assert(is_digit(s[0]));
    lemma_expression_wrap(s, abc);
}

/// The tree `a + (b * c)` over three number atoms.
pub open spec fn add_mul_tree(a: Seq<u8>, b: Seq<u8>, c: Seq<u8>) -> SpecExpr {
    SpecExpr::Math {
        op: MathOp::Add,
        lhs: Box::new(SpecExpr::Number { value: digits_value(a, 0, a.len()) as i32 }),
        rhs: Box::new(SpecExpr::Math {
            op: MathOp::Mul,
            lhs: Box::new(SpecExpr::Number { value: digits_value(b, 0, b.len()) as i32 }),
            rhs: Box::new(SpecExpr::Number { value: digits_value(c, 0, c.len()) as i32 }),
        }),
    }
}

/// Three digit windows, each nonempty and with a value that fits `i32`.
pub open spec fn three_literals(a: Seq<u8>, b: Seq<u8>, c: Seq<u8>) -> bool {
    &&& 0 < a.len() && 0 < b.len() && 0 < c.len()
    &&& all_digits(a) && all_digits(b) && all_digits(c)
    &&& digits_value(a, 0, a.len()) <= 0x7fff_ffff
    &&& digits_value(b, 0, b.len()) <= 0x7fff_ffff
    &&& digits_value(c, 0, c.len()) <= 0x7fff_ffff
}

/// `a op1 b op2 c` concatenated has the `three_atom_shape` layout.
#[verifier::rlimit(100)]
#[verifier::spinoff_prover]
proof fn lemma_concat_shape(a: Seq<u8>, b: Seq<u8>, c: Seq<u8>, op1: u8, op2: u8)
    requires
        three_literals(a, b, c),
    ensures
        ({
            let s = a + seq![op1] + b + seq![op2] + c;
            &&& three_atom_shape(s, a.len() as int, b.len() as int, c.len() as int, op1, op2)
            &&& digits_value(s, 0, a.len()) == digits_value(a, 0, a.len())
            &&& digits_value(s, a.len() + 1 as int, b.len()) == digits_value(b, 0, b.len())
            &&& digits_value(s, a.len() + 2 + b.len() as int, c.len()) == digits_value(
                c,
                0,
                c.len(),
            )
        }),
{
    let s = a + seq![op1] + b + seq![op2] + c;
    let la = a.len() as int;
    let lb = b.len() as int;
    let lc = c.len() as int;
    assert(s.len() == la + 1 + lb + 1 + lc);
    assert forall|k: int| 0 <= k < la implies s[k] == a[k] by {}
    assert(s[la] == op1);
    assert forall|k: int| 0 <= k < lb implies s[la + 1 + k] == b[k] by {}
    assert(s[la + 1 + lb] == op2);
    assert forall|k: int| 0 <= k < lc implies s[la + 2 + lb + k] == c[k] by {}
    assert forall|k: int| 0 <= k < la implies is_digit(#[trigger] s[k]) by {
        assert(s[k] == a[k]);
    }
    assert forall|k: int| 0 <= k < lb implies is_digit(#[trigger] s[la + 1 + k]) by {}
    assert forall|k: int| 0 <= k < lc implies is_digit(#[trigger] s[la + 2 + lb + k]) by {}
    lemma_digits_value_transfer(s, 0, a, a.len());
    lemma_digits_value_transfer(s, la + 1, b, b.len());
    lemma_digits_value_transfer(s, la + 2 + lb, c, c.len());
}

/// Law (precedence): for any three integer literals, `a + b * c` parses to
/// the very tree of `a + (b * c)` — multiplication binds tighter than
/// addition — so the two evaluate identically.
#[verifier::rlimit(100)]
#[verifier::spinoff_prover]
pub proof fn lemma_mul_binds_tighter(a: Seq<u8>, b: Seq<u8>, c: Seq<u8>)
    requires
        three_literals(a, b, c),
    ensures
        spec_expression(a + seq![43u8] + b + seq![42u8] + c, 0) == (Parsed::Found {
            v: add_mul_tree(a, b, c),
            used: (a.len() + 1 + b.len() + 1 + c.len()) as nat,
        }),
        spec_expression(a + seq![43u8, 40u8] + b + seq![42u8] + c + seq![41u8], 0) == (
        Parsed::Found {
            v: add_mul_tree(a, b, c),
            used: (a.len() + 3 + b.len() + 1 + c.len()) as nat,
        }),
{
    lemma_concat_shape(a, b, c, 43, 42);
    lemma_mul_tower(
        a + seq![43u8] + b + seq![42u8] + c,
        a.len() as int,
        b.len() as int,
        c.len() as int,
    );
    lemma_concat_grouped_tail(a, b, c, 43, 42);
    lemma_mul_group_tower(
        a + seq![43u8, 40u8] + b + seq![42u8] + c + seq![41u8],
        a.len() as int,
        b.len() as int,
        c.len() as int,
    );
}

/// The input holds exactly the bytes `<digits> op1 ( <digits> op2 <digits> )`.
spec fn grouped_tail_shape(s: Seq<u8>, la: int, lb: int, lc: int, op1: u8, op2: u8) -> bool {
    &&& 0 < la && 0 < lb && 0 < lc
    &&& s.len() == la + 3 + lb + 1 + lc
    &&& (forall|k: int| 0 <= k < la ==> is_digit(#[trigger] s[k]))
    &&& s[la] == op1
    &&& s[la + 1] == 40
    &&& (forall|k: int| 0 <= k < lb ==> is_digit(#[trigger] s[la + 2 + k]))
    &&& s[la + 2 + lb] == op2
    &&& (forall|k: int| 0 <= k < lc ==> is_digit(#[trigger] s[la + 3 + lb + k]))
    &&& s[la + 3 + lb + lc] == 41
    &&& digits_value(s, 0, la as nat) <= 0x7fff_ffff
    &&& digits_value(s, la + 2, lb as nat) <= 0x7fff_ffff
    &&& digits_value(s, la + 3 + lb, lc as nat) <= 0x7fff_ffff
}

/// The input holds exactly the bytes `( <digits> op1 <digits> ) op2 <digits>`.
spec fn grouped_head_shape(s: Seq<u8>, la: int, lb: int, lc: int, op1: u8, op2: u8) -> bool {
    &&& 0 < la && 0 < lb && 0 < lc
    &&& s.len() == la + lb + lc + 4
    &&& s[0] == 40
    &&& (forall|k: int| 0 <= k < la ==> is_digit(#[trigger] s[1 + k]))
    &&& s[1 + la] == op1
    &&& (forall|k: int| 0 <= k < lb ==> is_digit(#[trigger] s[2 + la + k]))
    &&& s[2 + la + lb] == 41
    &&& s[3 + la + lb] == op2
    &&& (forall|k: int| 0 <= k < lc ==> is_digit(#[trigger] s[4 + la + lb + k]))
    &&& digits_value(s, 1, la as nat) <= 0x7fff_ffff
    &&& digits_value(s, 2 + la, lb as nat) <= 0x7fff_ffff
    &&& digits_value(s, 4 + la + lb, lc as nat) <= 0x7fff_ffff
}

/// Over `<a> ^ <b> ^ <c>`, `l3` builds `a ^ (b ^ c)`: exponentiation
/// associates to the right.
#[verifier::rlimit(100)]
#[verifier::spinoff_prover]
proof fn lemma_exp_tower(s: Seq<u8>, la: int, lb: int, lc: int)
    requires
        three_atom_shape(s, la, lb, lc, 94, 94),
    ensures
        spec_expression(s, 0) == (Parsed::Found {
            v: SpecExpr::Math {
                op: MathOp::Exp,
                lhs: Box::new(SpecExpr::Number { value: digits_value(s, 0, la as nat) as i32 }),
                rhs: Box::new(SpecExpr::Math {
                    op: MathOp::Exp,
                    lhs: Box::new(SpecExpr::Number {
                        value: digits_value(s, la + 1, lb as nat) as i32,
                    }),
                    rhs: Box::new(SpecExpr::Number {
                        value: digits_value(s, la + 2 + lb, lc as nat) as i32,
                    }),
                }),
            },
            used: s.len() as nat,
        }),
{
    lemma_three_atoms(s, la, lb, lc, 94, 94);
    let na = SpecExpr::Number { value: digits_value(s, 0, la as nat) as i32 };
    let nb = SpecExpr::Number { value: digits_value(s, la + 1, lb as nat) as i32 };
    let nc = SpecExpr::Number { value: digits_value(s, la + 2 + lb, lc as nat) as i32 };
    let ebc = SpecExpr::Math { op: MathOp::Exp, lhs: Box::new(nb), rhs: Box::new(nc) };
    let eabc = SpecExpr::Math { op: MathOp::Exp, lhs: Box::new(na), rhs: Box::new(ebc) };
    assert(spec_l3(s, la + 2 + lb) == (Parsed::Found { v: nc, used: lc as nat }));
    assert(spec_l3(s, la + 1) == (Parsed::Found { v: ebc, used: (lb + 1 + lc) as nat }));
    assert(spec_l3(s, 0) == (Parsed::Found { v: eabc, used: s.len() as nat }));
    assert(spec_l2_tail(s, s.len() as int, eabc) == (eabc, 0 as nat));
    assert(spec_l2(s, 0) == (Parsed::Found { v: eabc, used: s.len() as nat }));
    assert(spec_l1_tail(s, s.len() as int, eabc) == (eabc, 0 as nat));
    assert(spec_l1(s, 0) == (Parsed::Found { v: eabc, used: s.len() as nat }));
    assert(is_digit(s[0]));
    lemma_expression_wrap(s, eabc);
}

/// The parenthesised group `( <b> ^ <c> )` standing at `i` is one atom.
#[verifier::rlimit(100)]
#[verifier::spinoff_prover]
proof fn lemma_paren_exp_atom(s: Seq<u8>, i: int, lb: int, lc: int)
    requires
        0 <= i,
        0 < lb && 0 < lc,
        i + 3 + lb + lc <= s.len(),
        s[i] == 40,
        forall|k: int| 0 <= k < lb ==> is_digit(#[trigger] s[i + 1 + k]),
        s[i + 1 + lb] == 94,
        forall|k: int| 0 <= k < lc ==> is_digit(#[trigger] s[i + 2 + lb + k]),
        s[i + 2 + lb + lc] == 41,
        i + 3 + lb + lc == s.len() || !is_ws(s[i + 3 + lb + lc]),
        digits_value(s, i + 1, lb as nat) <= 0x7fff_ffff,
        digits_value(s, i + 2 + lb, lc as nat) <= 0x7fff_ffff,
    ensures
        spec_l4(s, i) == (Parsed::Found {
            v: SpecExpr::Math {
                op: MathOp::Exp,
                lhs: Box::new(SpecExpr::Number { value: digits_value(s, i + 1, lb as nat) as i32 }),
                rhs: Box::new(SpecExpr::Number {
                    value: digits_value(s, i + 2 + lb, lc as nat) as i32,
                }),
            },
            used: (lb + lc + 3) as nat,
        }),
{
    lemma_l4_number(s, i + 1, lb as nat);
    lemma_l4_number(s, i + 2 + lb, lc as nat);
    let nb = SpecExpr::Number { value: digits_value(s, i + 1, lb as nat) as i32 };
    let nc = SpecExpr::Number { value: digits_value(s, i + 2 + lb, lc as nat) as i32 };
    let ebc = SpecExpr::Math { op: MathOp::Exp, lhs: Box::new(nb), rhs: Box::new(nc) };
    assert(spec_l3(s, i + 2 + lb) == (Parsed::Found { v: nc, used: lc as nat }));
    assert(spec_l3(s, i + 1) == (Parsed::Found { v: ebc, used: (lb + 1 + lc) as nat }));
    assert(spec_l2_tail(s, i + 2 + lb + lc, ebc) == (ebc, 0 as nat));
    assert(spec_l2(s, i + 1) == (Parsed::Found { v: ebc, used: (lb + 1 + lc) as nat }));
    assert(spec_l1_tail(s, i + 2 + lb + lc, ebc) == (ebc, 0 as nat));
    assert(spec_l1(s, i + 1) == (Parsed::Found { v: ebc, used: (lb + 1 + lc) as nat }));
    assert(spec_math_expression(s, i + 1) == (Parsed::Found { v: ebc, used: (lb + 1 + lc) as nat }));
    assert(cmp_op_at(s, i + 2 + lb + lc) is None);
    assert(spec_cond_tail(s, i + 2 + lb + lc, ebc) == (ebc, 0 as nat));
    assert(spec_conditional(s, i + 1) == (Parsed::Found { v: ebc, used: (lb + 1 + lc) as nat }));
    assert(alnum_run(s, i) == 0);
    assert(spec_function_call(s, i) is Fail);
    assert(spec_boolean(s, i) is Fail);
    assert(spec_number(s, i) is Fail);
    assert(spec_identifier(s, i) is Fail);
    assert(spec_parenthetical(s, i) == (Parsed::Found { v: ebc, used: (lb + lc + 3) as nat }));
}

/// Over `<a> ^ ( <b> ^ <c> )`, the tower builds the same right-leaning tree
/// as without the grouping.
#[verifier::rlimit(100)]
#[verifier::spinoff_prover]
proof fn lemma_exp_group_tower(s: Seq<u8>, la: int, lb: int, lc: int)
    requires
        grouped_tail_shape(s, la, lb, lc, 94, 94),
    ensures
        spec_expression(s, 0) == (Parsed::Found {
            v: SpecExpr::Math {
                op: MathOp::Exp,
                lhs: Box::new(SpecExpr::Number { value: digits_value(s, 0, la as nat) as i32 }),
                rhs: Box::new(SpecExpr::Math {
                    op: MathOp::Exp,
                    lhs: Box::new(SpecExpr::Number {
                        value: digits_value(s, la + 2, lb as nat) as i32,
                    }),
                    rhs: Box::new(SpecExpr::Number {
                        value: digits_value(s, la + 3 + lb, lc as nat) as i32,
                    }),
                }),
            },
            used: s.len() as nat,
        }),
{
    lemma_l4_number(s, 0, la as nat);
    lemma_paren_exp_atom(s, la + 1, lb, lc);
    let na = SpecExpr::Number { value: digits_value(s, 0, la as nat) as i32 };
    let nb = SpecExpr::Number { value: digits_value(s, la + 2, lb as nat) as i32 };
    let nc = SpecExpr::Number { value: digits_value(s, la + 3 + lb, lc as nat) as i32 };
    let ebc = SpecExpr::Math { op: MathOp::Exp, lhs: Box::new(nb), rhs: Box::new(nc) };
    let eabc = SpecExpr::Math { op: MathOp::Exp, lhs: Box::new(na), rhs: Box::new(ebc) };
    assert(spec_l3(s, la + 1) == (Parsed::Found { v: ebc, used: (lb + lc + 3) as nat }));
    assert(spec_l3(s, 0) == (Parsed::Found { v: eabc, used: s.len() as nat }));
    assert(spec_l2_tail(s, s.len() as int, eabc) == (eabc, 0 as nat));
    assert(spec_l2(s, 0) == (Parsed::Found { v: eabc, used: s.len() as nat }));
    assert(spec_l1_tail(s, s.len() as int, eabc) == (eabc, 0 as nat));
    assert(spec_l1(s, 0) == (Parsed::Found { v: eabc, used: s.len() as nat }));
    assert(is_digit(s[0]));
    lemma_expression_wrap(s, eabc);
}

/// Over `<a> - <b> - <c>`, `l1` folds to the left: `(a - b) - c`.
#[verifier::rlimit(100)]
#[verifier::spinoff_prover]
proof fn lemma_sub_tower(s: Seq<u8>, la: int, lb: int, lc: int)
    requires
        three_atom_shape(s, la, lb, lc, 45, 45),
    ensures
        spec_expression(s, 0) == (Parsed::Found {
            v: SpecExpr::Math {
                op: MathOp::Sub,
                lhs: Box::new(SpecExpr::Math {
                    op: MathOp::Sub,
                    lhs: Box::new(SpecExpr::Number {
                        value: digits_value(s, 0, la as nat) as i32,
                    }),
                    rhs: Box::new(SpecExpr::Number {
                        value: digits_value(s, la + 1, lb as nat) as i32,
                    }),
                }),
                rhs: Box::new(SpecExpr::Number {
                    value: digits_value(s, la + 2 + lb, lc as nat) as i32,
                }),
            },
            used: s.len() as nat,
        }),
{
    assert forall|k: int| 0 <= k < la implies is_digit(#[trigger] s[0 + k]) by {
        assert(is_digit(s[k]));
    }
    lemma_l2_number(s, 0, la);
    assert forall|k: int| 0 <= k < lb implies is_digit(#[trigger] s[(la + 1) + k]) by {
        assert(is_digit(s[la + 1 + k]));
    }
    lemma_l2_number(s, la + 1, lb);
    assert forall|k: int| 0 <= k < lc implies is_digit(#[trigger] s[(la + 2 + lb) + k]) by {
        assert(is_digit(s[la + 2 + lb + k]));
    }
    lemma_l2_number(s, la + 2 + lb, lc);
    let na = SpecExpr::Number { value: digits_value(s, 0, la as nat) as i32 };
    let nb = SpecExpr::Number { value: digits_value(s, la + 1, lb as nat) as i32 };
    let nc = SpecExpr::Number { value: digits_value(s, la + 2 + lb, lc as nat) as i32 };
    let sab = SpecExpr::Math { op: MathOp::Sub, lhs: Box::new(na), rhs: Box::new(nb) };
    let sabc = SpecExpr::Math { op: MathOp::Sub, lhs: Box::new(sab), rhs: Box::new(nc) };
    assert(is_digit(s[0]));
    lemma_l1_tail_stop(s, s.len() as int, sabc);
    lemma_l1_tail_step(s, la + 1 + lb, sab, nc, lc as nat, sabc, 0 as nat);
    lemma_l1_tail_step(s, la, na, nb, lb as nat, sabc, (1 + lc) as nat);
    lemma_l1_head(s, 0, na, la as nat, sabc, (1 + lb + 1 + lc) as nat);
    lemma_expression_wrap(s, sabc);
}

/// The parenthesised group `( <a> - <b> )` standing at the start is one
/// atom.
#[verifier::rlimit(100)]
#[verifier::spinoff_prover]
proof fn lemma_paren_sub_atom(s: Seq<u8>, la: int, lb: int)
    requires
        0 < la && 0 < lb,
        3 + la + lb <= s.len(),
        s[0] == 40,
        forall|k: int| 0 <= k < la ==> is_digit(#[trigger] s[1 + k]),
        s[1 + la] == 45,
        forall|k: int| 0 <= k < lb ==> is_digit(#[trigger] s[2 + la + k]),
        s[2 + la + lb] == 41,
        3 + la + lb == s.len() || !is_ws(s[3 + la + lb]),
        digits_value(s, 1, la as nat) <= 0x7fff_ffff,
        digits_value(s, 2 + la, lb as nat) <= 0x7fff_ffff,
    ensures
        spec_l4(s, 0) == (Parsed::Found {
            v: SpecExpr::Math {
                op: MathOp::Sub,
                lhs: Box::new(SpecExpr::Number { value: digits_value(s, 1, la as nat) as i32 }),
                rhs: Box::new(SpecExpr::Number { value: digits_value(s, 2 + la, lb as nat) as i32 }),
            },
            used: (la + lb + 3) as nat,
        }),
{
    assert forall|k: int| 0 <= k < la implies is_digit(#[trigger] s[1 + k]) by {
        assert(is_digit(s[1 + k]));
    }
    lemma_l2_number(s, 1, la);
    assert forall|k: int| 0 <= k < lb implies is_digit(#[trigger] s[(2 + la) + k]) by {
        assert(is_digit(s[2 + la + k]));
    }
    lemma_l2_number(s, 2 + la, lb);
    let na = SpecExpr::Number { value: digits_value(s, 1, la as nat) as i32 };
    let nb = SpecExpr::Number { value: digits_value(s, 2 + la, lb as nat) as i32 };
    let sab = SpecExpr::Math { op: MathOp::Sub, lhs: Box::new(na), rhs: Box::new(nb) };
    assert(spec_l1_tail(s, 2 + la + lb, sab) == (sab, 0 as nat));
    assert(spec_l1_tail(s, 1 + la, na) == (sab, (1 + lb) as nat));
    assert(spec_l1(s, 1) == (Parsed::Found { v: sab, used: (la + 1 + lb) as nat }));
    lemma_conditional_from_l1(s, 1, sab, (la + 1 + lb) as nat);
    lemma_paren_wrap(s, 0, sab, (la + 1 + lb) as nat);
}

/// Over `( <a> - <b> ) - <c>`, the tower builds the same left-leaning tree
/// as without the grouping.
#[verifier::rlimit(100)]
#[verifier::spinoff_prover]
proof fn lemma_sub_group_tower(s: Seq<u8>, la: int, lb: int, lc: int)
    requires
        grouped_head_shape(s, la, lb, lc, 45, 45),
    ensures
        spec_expression(s, 0) == (Parsed::Found {
            v: SpecExpr::Math {
                op: MathOp::Sub,
                lhs: Box::new(SpecExpr::Math {
                    op: MathOp::Sub,
                    lhs: Box::new(SpecExpr::Number {
                        value: digits_value(s, 1, la as nat) as i32,
                    }),
                    rhs: Box::new(SpecExpr::Number {
                        value: digits_value(s, 2 + la, lb as nat) as i32,
                    }),
                }),
                rhs: Box::new(SpecExpr::Number {
                    value: digits_value(s, 4 + la + lb, lc as nat) as i32,
                }),
            },
            used: s.len() as nat,
        }),
{
    lemma_paren_sub_atom(s, la, lb);
    lemma_l4_number(s, 4 + la + lb, lc as nat);
    let na = SpecExpr::Number { value: digits_value(s, 1, la as nat) as i32 };
    let nb = SpecExpr::Number { value: digits_value(s, 2 + la, lb as nat) as i32 };
    let nc = SpecExpr::Number { value: digits_value(s, 4 + la + lb, lc as nat) as i32 };
    let sab = SpecExpr::Math { op: MathOp::Sub, lhs: Box::new(na), rhs: Box::new(nb) };
    let sabc = SpecExpr::Math { op: MathOp::Sub, lhs: Box::new(sab), rhs: Box::new(nc) };
    assert(spec_l3(s, 0) == (Parsed::Found { v: sab, used: (la + lb + 3) as nat }));
    assert(spec_l2_tail(s, 3 + la + lb, sab) == (sab, 0 as nat));
    assert(spec_l2(s, 0) == (Parsed::Found { v: sab, used: (la + lb + 3) as nat }));
    assert(spec_l3(s, 4 + la + lb) == (Parsed::Found { v: nc, used: lc as nat }));
    assert(spec_l2_tail(s, s.len() as int, nc) == (nc, 0 as nat));
    assert(spec_l2(s, 4 + la + lb) == (Parsed::Found { v: nc, used: lc as nat }));
    assert(spec_l1_tail(s, s.len() as int, sabc) == (sabc, 0 as nat));
    assert(spec_l1_tail(s, 3 + la + lb, sab) == (sabc, (1 + lc) as nat));
    assert(spec_l1(s, 0) == (Parsed::Found { v: sabc, used: s.len() as nat }));
    lemma_expression_wrap(s, sabc);
}

/// The parenthesised group `( <b> * <c> )` standing at `i` is one atom.
#[verifier::rlimit(100)]
#[verifier::spinoff_prover]
proof fn lemma_paren_mul_atom(s: Seq<u8>, i: int, lb: int, lc: int)
    requires
        0 <= i,
        0 < lb && 0 < lc,
        i + 3 + lb + lc <= s.len(),
        s[i] == 40,
        forall|k: int| 0 <= k < lb ==> is_digit(#[trigger] s[i + 1 + k]),
        s[i + 1 + lb] == 42,
        forall|k: int| 0 <= k < lc ==> is_digit(#[trigger] s[i + 2 + lb + k]),
        s[i + 2 + lb + lc] == 41,
        i + 3 + lb + lc == s.len() || !is_ws(s[i + 3 + lb + lc]),
        digits_value(s, i + 1, lb as nat) <= 0x7fff_ffff,
        digits_value(s, i + 2 + lb, lc as nat) <= 0x7fff_ffff,
    ensures
        spec_l4(s, i) == (Parsed::Found {
            v: SpecExpr::Math {
                op: MathOp::Mul,
                lhs: Box::new(SpecExpr::Number { value: digits_value(s, i + 1, lb as nat) as i32 }),
                rhs: Box::new(SpecExpr::Number {
                    value: digits_value(s, i + 2 + lb, lc as nat) as i32,
                }),
            },
            used: (lb + lc + 3) as nat,
        }),
{
    assert forall|k: int| 0 <= k < lb implies is_digit(#[trigger] s[(i + 1) + k]) by {
        assert(is_digit(s[i + 1 + k]));
    }
    assert forall|k: int| 0 <= k < lc implies is_digit(#[trigger] s[(i + 1) + lb + 1 + k]) by {
        assert(is_digit(s[i + 2 + lb + k]));
    }
    lemma_l2_mul_pair(s, i + 1, lb, lc);
    let nb = SpecExpr::Number { value: digits_value(s, i + 1, lb as nat) as i32 };
    let nc = SpecExpr::Number { value: digits_value(s, i + 1 + lb + 1, lc as nat) as i32 };
    let mbc = SpecExpr::Math { op: MathOp::Mul, lhs: Box::new(nb), rhs: Box::new(nc) };
    lemma_l1_from_l2(s, i + 1, mbc, (lb + 1 + lc) as nat);
    lemma_conditional_from_l1(s, i + 1, mbc, (lb + 1 + lc) as nat);
    lemma_paren_wrap(s, i, mbc, (lb + 1 + lc) as nat);
}

/// Over `<a> + ( <b> * <c> )`, the tower builds the same tree as without
/// the grouping.
#[verifier::rlimit(100)]
#[verifier::spinoff_prover]
proof fn lemma_mul_group_tower(s: Seq<u8>, la: int, lb: int, lc: int)
    requires
        grouped_tail_shape(s, la, lb, lc, 43, 42),
    ensures
        spec_expression(s, 0) == (Parsed::Found {
            v: SpecExpr::Math {
                op: MathOp::Add,
                lhs: Box::new(SpecExpr::Number { value: digits_value(s, 0, la as nat) as i32 }),
                rhs: Box::new(SpecExpr::Math {
                    op: MathOp::Mul,
                    lhs: Box::new(SpecExpr::Number {
                        value: digits_value(s, la + 2, lb as nat) as i32,
                    }),
                    rhs: Box::new(SpecExpr::Number {
                        value: digits_value(s, la + 3 + lb, lc as nat) as i32,
                    }),
                }),
            },
            used: s.len() as nat,
        }),
{
    lemma_l4_number(s, 0, la as nat);
    lemma_paren_mul_atom(s, la + 1, lb, lc);
    let na = SpecExpr::Number { value: digits_value(s, 0, la as nat) as i32 };
    let nb = SpecExpr::Number { value: digits_value(s, la + 2, lb as nat) as i32 };
    let nc = SpecExpr::Number { value: digits_value(s, la + 3 + lb, lc as nat) as i32 };
    let mbc = SpecExpr::Math { op: MathOp::Mul, lhs: Box::new(nb), rhs: Box::new(nc) };
    let abc = SpecExpr::Math { op: MathOp::Add, lhs: Box::new(na), rhs: Box::new(mbc) };
    assert(spec_l3(s, la + 1) == (Parsed::Found { v: mbc, used: (lb + lc + 3) as nat }));
    assert(spec_l2_tail(s, s.len() as int, mbc) == (mbc, 0 as nat));
    assert(spec_l2(s, la + 1) == (Parsed::Found { v: mbc, used: (lb + lc + 3) as nat }));
    assert(spec_l3(s, 0) == (Parsed::Found { v: na, used: la as nat }));
    assert(spec_l2_tail(s, la, na) == (na, 0 as nat));
    assert(spec_l2(s, 0) == (Parsed::Found { v: na, used: la as nat }));
    assert(spec_l1_tail(s, s.len() as int, abc) == (abc, 0 as nat));
    assert(spec_l1_tail(s, la, na) == (abc, (1 + lb + lc + 3) as nat));
    assert(spec_l1(s, 0) == (Parsed::Found { v: abc, used: s.len() as nat }));
    assert(is_digit(s[0]));
    lemma_expression_wrap(s, abc);
}

/// `a op1 ( b op2 c )` concatenated has the `grouped_tail_shape` layout.
#[verifier::rlimit(100)]
#[verifier::spinoff_prover]
proof fn lemma_concat_grouped_tail(a: Seq<u8>, b: Seq<u8>, c: Seq<u8>, op1: u8, op2: u8)
    requires
        three_literals(a, b, c),
    ensures
        ({
            let s = a + seq![op1, 40u8] + b + seq![op2] + c + seq![41u8];
            &&& grouped_tail_shape(s, a.len() as int, b.len() as int, c.len() as int, op1, op2)
            &&& digits_value(s, 0, a.len()) == digits_value(a, 0, a.len())
            &&& digits_value(s, a.len() + 2 as int, b.len()) == digits_value(b, 0, b.len())
            &&& digits_value(s, a.len() + 3 + b.len() as int, c.len()) == digits_value(
                c,
                0,
                c.len(),
            )
        }),
{
    let s = a + seq![op1, 40u8] + b + seq![op2] + c + seq![41u8];
    let la = a.len() as int;
    let lb = b.len() as int;
    let lc = c.len() as int;
    assert(s.len() == la + 3 + lb + 1 + lc);
    assert forall|k: int| 0 <= k < la implies s[k] == a[k] by {}
    assert(s[la] == op1);
    assert(s[la + 1] == 40);
    assert forall|k: int| 0 <= k < lb implies s[la + 2 + k] == b[k] by {}
    assert(s[la + 2 + lb] == op2);
    assert forall|k: int| 0 <= k < lc implies s[la + 3 + lb + k] == c[k] by {}
    assert(s[la + 3 + lb + lc] == 41);
    assert forall|k: int| 0 <= k < la implies is_digit(#[trigger] s[k]) by {
        assert(s[k] == a[k]);
    }
    assert forall|k: int| 0 <= k < lb implies is_digit(#[trigger] s[la + 2 + k]) by {}
    assert forall|k: int| 0 <= k < lc implies is_digit(#[trigger] s[la + 3 + lb + k]) by {}
    lemma_digits_value_transfer(s, 0, a, a.len());
    lemma_digits_value_transfer(s, la + 2, b, b.len());
    lemma_digits_value_transfer(s, la + 3 + lb, c, c.len());
}

/// `( a op1 b ) op2 c` concatenated has the `grouped_head_shape` layout.
#[verifier::rlimit(100)]
#[verifier::spinoff_prover]
proof fn lemma_concat_grouped_head(a: Seq<u8>, b: Seq<u8>, c: Seq<u8>, op1: u8, op2: u8)
    requires
        three_literals(a, b, c),
    ensures
        ({
            let s = seq![40u8] + a + seq![op1] + b + seq![41u8, op2] + c;
            &&& grouped_head_shape(s, a.len() as int, b.len() as int, c.len() as int, op1, op2)
            &&& digits_value(s, 1, a.len()) == digits_value(a, 0, a.len())
            &&& digits_value(s, 2 + a.len() as int, b.len()) == digits_value(b, 0, b.len())
            &&& digits_value(s, 4 + a.len() + b.len() as int, c.len()) == digits_value(
                c,
                0,
                c.len(),
            )
        }),
{
    let s = seq![40u8] + a + seq![op1] + b + seq![41u8, op2] + c;
    let la = a.len() as int;
    let lb = b.len() as int;
    let lc = c.len() as int;
    assert(s.len() == la + lb + lc + 4);
    assert(s[0] == 40);
    assert forall|k: int| 0 <= k < la implies s[1 + k] == a[k] by {}
    assert(s[1 + la] == op1);
    assert forall|k: int| 0 <= k < lb implies s[2 + la + k] == b[k] by {}
    assert(s[2 + la + lb] == 41);
    assert(s[3 + la + lb] == op2);
    assert forall|k: int| 0 <= k < lc implies s[4 + la + lb + k] == c[k] by {}
    assert forall|k: int| 0 <= k < la implies is_digit(#[trigger] s[1 + k]) by {}
    assert forall|k: int| 0 <= k < lb implies is_digit(#[trigger] s[2 + la + k]) by {}
    assert forall|k: int| 0 <= k < lc implies is_digit(#[trigger] s[4 + la + lb + k]) by {}
    lemma_digits_value_transfer(s, 1, a, a.len());
    lemma_digits_value_transfer(s, 2 + la, b, b.len());
    lemma_digits_value_transfer(s, 4 + la + lb, c, c.len());
}

/// The tree `a ^ (b ^ c)` over three number atoms.
pub open spec fn exp_right_tree(a: Seq<u8>, b: Seq<u8>, c: Seq<u8>) -> SpecExpr {
    SpecExpr::Math {
        op: MathOp::Exp,
        lhs: Box::new(SpecExpr::Number { value: digits_value(a, 0, a.len()) as i32 }),
        rhs: Box::new(SpecExpr::Math {
            op: MathOp::Exp,
            lhs: Box::new(SpecExpr::Number { value: digits_value(b, 0, b.len()) as i32 }),
            rhs: Box::new(SpecExpr::Number { value: digits_value(c, 0, c.len()) as i32 }),
        }),
    }
}

/// The tree `(a - b) - c` over three number atoms.
pub open spec fn sub_left_tree(a: Seq<u8>, b: Seq<u8>, c: Seq<u8>) -> SpecExpr {
    SpecExpr::Math {
        op: MathOp::Sub,
        lhs: Box::new(SpecExpr::Math {
            op: MathOp::Sub,
            lhs: Box::new(SpecExpr::Number { value: digits_value(a, 0, a.len()) as i32 }),
            rhs: Box::new(SpecExpr::Number { value: digits_value(b, 0, b.len()) as i32 }),
        }),
        rhs: Box::new(SpecExpr::Number { value: digits_value(c, 0, c.len()) as i32 }),
    }
}

/// Law (associativity of `^`): for any three integer literals, `a ^ b ^ c`
/// parses to the very tree of `a ^ (b ^ c)` — exponentiation associates to
/// the right — so the two evaluate identically.
#[verifier::rlimit(100)]
#[verifier::spinoff_prover]
proof fn lemma_exp_plain(a: Seq<u8>, b: Seq<u8>, c: Seq<u8>)
    requires
        three_literals(a, b, c),
    ensures
        spec_expression(a + seq![94u8] + b + seq![94u8] + c, 0) == (Parsed::Found {
            v: exp_right_tree(a, b, c),
            used: (a.len() + 1 + b.len() + 1 + c.len()) as nat,
        }),
{
    lemma_concat_shape(a, b, c, 94, 94);
    lemma_exp_tower(
        a + seq![94u8] + b + seq![94u8] + c,
        a.len() as int,
        b.len() as int,
        c.len() as int,
    );
}

#[verifier::rlimit(100)]
#[verifier::spinoff_prover]
proof fn lemma_exp_grouped(a: Seq<u8>, b: Seq<u8>, c: Seq<u8>)
    requires
        three_literals(a, b, c),
    ensures
        spec_expression(a + seq![94u8, 40u8] + b + seq![94u8] + c + seq![41u8], 0) == (
        Parsed::Found {
            v: exp_right_tree(a, b, c),
            used: (a.len() + 3 + b.len() + 1 + c.len()) as nat,
        }),
{
    lemma_concat_grouped_tail(a, b, c, 94, 94);
    lemma_exp_group_tower(
        a + seq![94u8, 40u8] + b + seq![94u8] + c + seq![41u8],
        a.len() as int,
        b.len() as int,
        c.len() as int,
    );
}

pub proof fn lemma_exp_right_associates(a: Seq<u8>, b: Seq<u8>, c: Seq<u8>)
    requires
        three_literals(a, b, c),
    ensures
        spec_expression(a + seq![94u8] + b + seq![94u8] + c, 0) == (Parsed::Found {
            v: exp_right_tree(a, b, c),
            used: (a.len() + 1 + b.len() + 1 + c.len()) as nat,
        }),
        spec_expression(a + seq![94u8, 40u8] + b + seq![94u8] + c + seq![41u8], 0) == (
        Parsed::Found {
            v: exp_right_tree(a, b, c),
            used: (a.len() + 3 + b.len() + 1 + c.len()) as nat,
        }),
{
    lemma_exp_plain(a, b, c);
    lemma_exp_grouped(a, b, c);
}

/// Law (associativity of `-`): for any three integer literals, `a - b - c`
/// parses to the very tree of `(a - b) - c` — subtraction associates to the
/// left — so the two evaluate identically.
#[verifier::rlimit(100)]
#[verifier::spinoff_prover]
pub proof fn lemma_sub_left_associates(a: Seq<u8>, b: Seq<u8>, c: Seq<u8>)
    requires
        three_literals(a, b, c),
    ensures
        spec_expression(a + seq![45u8] + b + seq![45u8] + c, 0) == (Parsed::Found {
            v: sub_left_tree(a, b, c),
            used: (a.len() + 1 + b.len() + 1 + c.len()) as nat,
        }),
        spec_expression(seq![40u8] + a + seq![45u8] + b + seq![41u8, 45u8] + c, 0) == (
        Parsed::Found {
            v: sub_left_tree(a, b, c),
            used: (a.len() + b.len() + c.len() + 4) as nat,
        }),
{
    lemma_concat_shape(a, b, c, 45, 45);
    lemma_sub_tower(
        a + seq![45u8] + b + seq![45u8] + c,
        a.len() as int,
        b.len() as int,
        c.len() as int,
    );
    lemma_concat_grouped_head(a, b, c, 45, 45);
    lemma_sub_group_tower(
        seq![40u8] + a + seq![45u8] + b + seq![41u8, 45u8] + c,
        a.len() as int,
        b.len() as int,
        c.len() as int,
    );
}

} // verus!