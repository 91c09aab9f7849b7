//! Precedence climbing evaluation of assembler expressions.
//!
//! Binary operators, lowest precedence first, all left associative:
//!
//! | precedence | operators                    |
//! |------------|------------------------------|
//! | 0          | `\|\|`                       |
//! | 1          | `&&`                         |
//! | 2          | `\|` `^` `&`                 |
//! | 3          | `==` `!=` `<` `>` `<=` `>=`  |
//! | 4          | `<<` `>>`                    |
//! | 5          | `+` `-`                      |
//! | 6          | `*` `/` `%`                  |
//!
//! Prefix `+`, `-`, `!` and `~` bind tighter than all of them. Arithmetic is
//! on 32 bit signed values and checked; comparisons and logical operators
//! give 0 or 1.
use vstd::prelude::*;

use crate::asm_error::AsmError;
use crate::lexer::Token;

verus! {

/// Where an expression finds the values of symbols.
pub trait SymbolLookup {
    /// Whether the lookup is in a state to answer.
    spec fn lookup_ready(&self) -> bool;

    spec fn spec_lookup(&self, name: Seq<char>) -> Option<i32>;

    fn lookup(&self, name: &str) -> (r: Option<i32>)
        requires
            self.lookup_ready(),
        ensures
            r == self.spec_lookup(name@),
    ;
}

/// A lookup that knows no symbol.
pub struct NoSymbols;

impl SymbolLookup for NoSymbols {
    open spec fn lookup_ready(&self) -> bool {
        true
    }

    open spec fn spec_lookup(&self, name: Seq<char>) -> Option<i32> {
        None
    }

    fn lookup(&self, name: &str) -> (r: Option<i32>) {
        None
    }
}

/// Precedence of a binary operator token; `None` for other tokens.
pub open spec fn precedence(t: Token) -> Option<nat> {
    match t {
        Token::LogicalOr => Some(0),
        Token::LogicalAnd => Some(1),
        Token::BitOr | Token::BitXor | Token::BitAnd => Some(2),
        Token::Eq | Token::Neq | Token::Lt | Token::Gt | Token::Le | Token::Ge => Some(3),
        Token::Shl | Token::Shr => Some(4),
        Token::Plus | Token::Minus => Some(5),
        Token::Asterisk | Token::Slash | Token::Percent => Some(6),
        _ => None,
    }
}

pub fn binary_operator_precedence(t: &Token) -> (r: Option<u32>)
    ensures
        r matches Some(p) ==> precedence(*t) == Some(p as nat),
        r is None <==> precedence(*t) is None,
{
    match t {
        Token::LogicalOr => Some(0),
        Token::LogicalAnd => Some(1),
        Token::BitOr | Token::BitXor | Token::BitAnd => Some(2),
        Token::Eq | Token::Neq | Token::Lt | Token::Gt | Token::Le | Token::Ge => Some(3),
        Token::Shl | Token::Shr => Some(4),
        Token::Plus | Token::Minus => Some(5),
        Token::Asterisk | Token::Slash | Token::Percent => Some(6),
        _ => None,
    }
}

pub open spec fn from_bool(b: bool) -> i32 {
    if b {
        1
    } else {
        0
    }
}

/// Two to the power `n`.
pub open spec fn pow2(n: nat) -> int
    decreases n,
{
    if n == 0 {
        1
    } else {
        2 * pow2((n - 1) as nat)
    }
}

/// `l` times two to the power `r`, or `None` when `r` is negative or the
/// product does not fit 32 signed bits.
pub open spec fn shift_left(l: i32, r: i32) -> Option<i32> {
    if 0 <= r && i32::MIN <= l * pow2(r as nat) <= i32::MAX {
        Some((l * pow2(r as nat)) as i32)
    } else {
        None
    }
}

/// Arithmetic right shift by a count below 32, or `None`.
pub open spec fn shift_right(l: i32, r: i32) -> Option<i32> {
    if 0 <= r < 32 {
        Some(l.wrapping_shr(r as u32))
    } else {
        None
    }
}

/// Result of a binary operator. `position` is the operator's, where range
/// errors point; `rhs_position` is where the right operand starts, where a
/// negative shift count points.
pub open spec fn apply_binary(op: Token, l: i32, r: i32, position: usize, rhs_position: usize) -> Result<i32, AsmError> {
    let v: Option<i32> = match op {
        Token::Asterisk => l.checked_mul(r),
        Token::Slash => l.checked_div(r),
        Token::Percent => l.checked_rem(r),
        Token::Plus => l.checked_add(r),
        Token::Minus => l.checked_sub(r),
        Token::Shl => shift_left(l, r),
        Token::Shr => shift_right(l, r),
        Token::Eq => Some(from_bool(l == r)),
        Token::Neq => Some(from_bool(l != r)),
        Token::Lt => Some(from_bool(l < r)),
        Token::Gt => Some(from_bool(l > r)),
        Token::Le => Some(from_bool(l <= r)),
        Token::Ge => Some(from_bool(l >= r)),
        Token::LogicalAnd => Some(from_bool(l != 0 && r != 0)),
        Token::LogicalOr => Some(from_bool(l != 0 || r != 0)),
        Token::BitAnd => Some(l & r),
        Token::BitXor => Some(l ^ r),
        Token::BitOr => Some(l | r),
        _ => None,
    };
    if (op == Token::Shl || op == Token::Shr) && r < 0 {
        Err(AsmError::NegativeShiftAmount { position: rhs_position })
    } else {
        match v {
            Some(x) => Ok(x),
            None => Err(AsmError::ValueOutOfRange { position }),
        }
    }
}

/// Evaluate one binary operator. Overflow (a left shift included),
/// division by zero and a right shift count of 32 or more are
/// `ValueOutOfRange` at `position`; a negative shift count is
/// `NegativeShiftAmount` at `rhs_position`.
pub fn eval_binary_operator(lhs: i32, rhs: i32, operator: &Token, position: usize, rhs_position: usize) -> (r: Result<
    i32,
    AsmError,
>)
    requires
        precedence(*operator) is Some,
    ensures
        r == apply_binary(*operator, lhs, rhs, position, rhs_position),
{
    let v: Option<i32> = match operator {
        Token::Asterisk => lhs.checked_mul(rhs),
        Token::Slash => lhs.checked_div(rhs),
        Token::Percent => lhs.checked_rem(rhs),
        Token::Plus => lhs.checked_add(rhs),
        Token::Minus => lhs.checked_sub(rhs),
        Token::Shl => {
            if rhs < 0 {
                return Err(AsmError::NegativeShiftAmount { position: rhs_position });
            }
            checked_shift_left(lhs, rhs)
        },
        Token::Shr => {
            if rhs < 0 {
                return Err(AsmError::NegativeShiftAmount { position: rhs_position });
            }
            if rhs < 32 {
                Some(lhs.wrapping_shr(rhs as u32))
            } else {
                None
            }
        },
        Token::Eq => Some(if lhs == rhs { 1 } else { 0 }),
        Token::Neq => Some(if lhs != rhs { 1 } else { 0 }),
        Token::Lt => Some(if lhs < rhs { 1 } else { 0 }),
        Token::Gt => Some(if lhs > rhs { 1 } else { 0 }),
        Token::Le => Some(if lhs <= rhs { 1 } else { 0 }),
        Token::Ge => Some(if lhs >= rhs { 1 } else { 0 }),
        Token::LogicalAnd => Some(if lhs != 0 && rhs != 0 { 1 } else { 0 }),
        Token::LogicalOr => Some(if lhs != 0 || rhs != 0 { 1 } else { 0 }),
        Token::BitAnd => Some(lhs & rhs),
        Token::BitXor => Some(lhs ^ rhs),
        Token::BitOr => Some(lhs | rhs),
        _ => None,
    };
    match v {
        Some(x) => Ok(x),
        None => Err(AsmError::ValueOutOfRange { position }),
    }
}

proof fn lemma_pow2_positive(n: nat)
    ensures
        pow2(n) >= 1,
    decreases n,
{
    if n > 0 {
        lemma_pow2_positive((n - 1) as nat);
    }
}

/// `l` times two to the power `r`, when that fits.
fn checked_shift_left(l: i32, r: i32) -> (x: Option<i32>)
    requires
        r >= 0,
    ensures
        x == shift_left(l, r),
{
    let mut v: i64 = l as i64;
    let mut k: i32 = 0;
    while k < r
        invariant
            0 <= k <= r,
            v == l * pow2(k as nat),
            i32::MIN <= v <= i32::MAX,
        decreases r - k,
    {
        let w: i64 = v * 2;
        proof {
            assert(pow2((k + 1) as nat) == 2 * pow2(k as nat));
            assert(w == l * pow2((k + 1) as nat)) by (nonlinear_arith)
                requires
                    w == v * 2,
                    v == l * pow2(k as nat),
                    pow2((k + 1) as nat) == 2 * pow2(k as nat),
            ;
        }
        if w < i32::MIN as i64 || w > i32::MAX as i64 {
            proof {
                let rest = (r - k - 1) as nat;
                lemma_pow2_positive(rest);
                lemma_pow2_split((k + 1) as nat, rest);
                assert(l * pow2(r as nat) == w * pow2(rest)) by (nonlinear_arith)
                    requires
                        pow2(r as nat) == pow2((k + 1) as nat) * pow2(rest),
                        w == l * pow2((k + 1) as nat),
                        r as nat == (k + 1) as nat + rest,
                ;
                assert(w * pow2(rest) > i32::MAX || w * pow2(rest) < i32::MIN) by (nonlinear_arith)
                    requires
                        w < i32::MIN || w > i32::MAX,
                        pow2(rest) >= 1,
                ;
            }
            return None;
        }
        v = w;
        k = k + 1;
    }
    Some(v as i32)
}

proof fn lemma_pow2_split(a: nat, b: nat)
    ensures
        pow2(a + b) == pow2(a) * pow2(b),
    decreases b,
{
    if b > 0 {
        lemma_pow2_split(a, (b - 1) as nat);
        assert(pow2(a + b) == 2 * pow2((a + b - 1) as nat));
        assert(pow2(a) * pow2(b) == pow2(a) * (2 * pow2((b - 1) as nat)));
        assert(pow2(a) * (2 * pow2((b - 1) as nat)) == 2 * (pow2(a) * pow2((b - 1) as nat))) by (nonlinear_arith);
    }
}

/// Result of a prefix operator applied to `v`; `None` on overflow.
pub open spec fn apply_unary(op: Token, v: i32) -> Option<i32> {
    match op {
        Token::Plus => Some(v),
        Token::Minus => 0i32.checked_sub(v),
        Token::Not => Some(from_bool(v == 0)),
        Token::BitNot => Some(!v),
        _ => None,
    }
}

/// Value that starts at `pos`: a number, a symbol, a parenthesised
/// expression or a prefix operator applied to a value. On success, the value
/// and the position after it.
pub open spec fn spec_value<S: SymbolLookup>(t: Seq<Token>, pos: int, s: S) -> Result<(i32, int), AsmError>
    decreases t.len() - pos, 0nat,
{
    if pos < 0 || pos >= t.len() {
        Err(AsmError::UnexpectedEof)
    } else {
        match t[pos] {
            Token::Number(n) => Ok((n, pos + 1)),
            Token::Identifier(name) => match s.spec_lookup(name@) {
                Some(v) => Ok((v, pos + 1)),
                None => Err(AsmError::UndefinedSymbol { position: pos as usize }),
            },
            Token::LParen => match spec_expr(t, pos + 1, 0, s) {
                Err(e) => Err(e),
                Ok((v, p)) => if p <= pos || p > t.len() {
                    Err(AsmError::UnexpectedEof)
                } else if p == t.len() {
                    Err(AsmError::UnexpectedEof)
                } else if t[p] is RParen {
                    Ok((v, p + 1))
                } else {
                    Err(AsmError::UnexpectedToken { position: p as usize })
                },
            },
            Token::Plus | Token::Minus | Token::Not | Token::BitNot => match spec_value(
                t,
                pos + 1,
                s,
            ) {
                Err(e) => Err(e),
                Ok((v, p)) => match apply_unary(t[pos], v) {
                    Some(x) => Ok((x, p)),
                    None => Err(AsmError::ValueOutOfRange { position: pos as usize }),
                },
            },
            _ => Err(AsmError::UnexpectedToken { position: pos as usize }),
        }
    }
}

/// Expression that starts at `pos` and holds only binary operators of
/// precedence `min` or more outside parentheses.
pub open spec fn spec_expr<S: SymbolLookup>(t: Seq<Token>, pos: int, min: nat, s: S) -> Result<
    (i32, int),
    AsmError,
>
    decreases t.len() - pos, 1nat,
{
    match spec_value(t, pos, s) {
        Err(e) => Err(e),
        Ok((v, p)) => if p <= pos || p > t.len() {
            Err(AsmError::UnexpectedEof)
        } else {
            spec_climb(t, v, p, min, s)
        },
    }
}

/// Fold the operators from `pos` on into `lhs`, as long as their precedence
/// is at least `min`.
pub open spec fn spec_climb<S: SymbolLookup>(t: Seq<Token>, lhs: i32, pos: int, min: nat, s: S) -> Result<
    (i32, int),
    AsmError,
>
    decreases t.len() - pos, 2nat,
{
    if pos < 0 || pos >= t.len() {
        Ok((lhs, pos))
    } else {
        match precedence(t[pos]) {
            Some(q) => if q < min {
                Ok((lhs, pos))
            } else {
                match spec_expr(t, pos + 1, q + 1, s) {
                    Err(e) => Err(e),
                    Ok((rhs, p)) => if p <= pos || p > t.len() {
                        Err(AsmError::UnexpectedEof)
                    } else {
                        match apply_binary(t[pos], lhs, rhs, pos as usize, (pos + 1) as usize) {
                            Err(e) => Err(e),
                            Ok(v) => spec_climb(t, v, p, min, s),
                        }
                    }
                }
            },
            None => Ok((lhs, pos)),
        }
    }
}

/// Evaluate the value at `pos`.
pub fn value<S: SymbolLookup>(t: &Vec<Token>, pos: usize, s: &S) -> (r: Result<(i32, usize), AsmError>)
    requires
        s.lookup_ready(),
        pos <= t.len(),
    ensures
        match spec_value(t@, pos as int, *s) {
            Ok((v, p)) => r == Ok::<(i32, usize), AsmError>((v, p as usize)) && pos < p <= t.len(),
            Err(e) => r == Err::<(i32, usize), AsmError>(e),
        },
    decreases t.len() - pos, 0nat,
{
    if pos >= t.len() {
        return Err(AsmError::UnexpectedEof);
    }
    match &t[pos] {
        Token::Number(n) => Ok((*n, pos + 1)),
        Token::Identifier(name) => match s.lookup(name.as_str()) {
            Some(v) => Ok((v, pos + 1)),
            None => Err(AsmError::UndefinedSymbol { position: pos }),
        },
        Token::LParen => {
            let (v, p) = expression_at(t, pos + 1, 0, s)?;
            if p == t.len() {
                Err(AsmError::UnexpectedEof)
            } else if let Token::RParen = &t[p] {
                Ok((v, p + 1))
            } else {
                Err(AsmError::UnexpectedToken { position: p })
            }
        },
        Token::Plus => value(t, pos + 1, s),
        Token::Minus => {
            let (v, p) = value(t, pos + 1, s)?;
            match 0i32.checked_sub(v) {
                Some(x) => Ok((x, p)),
                None => Err(AsmError::ValueOutOfRange { position: pos }),
            }
        },
        Token::Not => {
            let (v, p) = value(t, pos + 1, s)?;
            Ok((if v == 0 { 1 } else { 0 }, p))
        },
        Token::BitNot => {
            let (v, p) = value(t, pos + 1, s)?;
            Ok((!v, p))
        },
        _ => Err(AsmError::UnexpectedToken { position: pos }),
    }
}

/// Evaluate the expression at `pos` whose operators outside parentheses have
/// precedence `min` or more.
pub fn expression_at<S: SymbolLookup>(t: &Vec<Token>, pos: usize, min: u32, s: &S) -> (r: Result<
    (i32, usize),
    AsmError,
>)
    requires
        s.lookup_ready(),
        pos <= t.len(),
        min <= 7,
    ensures
        match spec_expr(t@, pos as int, min as nat, *s) {
            Ok((v, p)) => r == Ok::<(i32, usize), AsmError>((v, p as usize)) && pos < p <= t.len(),
            Err(e) => r == Err::<(i32, usize), AsmError>(e),
        },
    decreases t.len() - pos, 1nat,
{
    let (v, p) = value(t, pos, s)?;
    climb(t, v, p, min, s)
}

fn climb<S: SymbolLookup>(t: &Vec<Token>, lhs: i32, pos: usize, min: u32, s: &S) -> (r: Result<
    (i32, usize),
    AsmError,
>)
    requires
        s.lookup_ready(),
        pos <= t.len(),
        min <= 7,
    ensures
        match spec_climb(t@, lhs, pos as int, min as nat, *s) {
            Ok((v, p)) => r == Ok::<(i32, usize), AsmError>((v, p as usize)) && pos <= p <= t.len(),
            Err(e) => r == Err::<(i32, usize), AsmError>(e),
        },
    decreases t.len() - pos, 2nat,
{
    if pos >= t.len() {
        return Ok((lhs, pos));
    }
    match binary_operator_precedence(&t[pos]) {
        Some(q) => {
            if q < min {
                Ok((lhs, pos))
            } else {
                let (rhs, p) = expression_at(t, pos + 1, q + 1, s)?;
                let v = eval_binary_operator(lhs, rhs, &t[pos], pos, pos + 1)?;
                climb(t, v, p, min, s)
            }
        },
        None => Ok((lhs, pos)),
    }
}

/// Evaluate the expression at the start of `t`. On success, the value and
/// the number of tokens it took; tokens after it are left alone.
pub fn expression<S: SymbolLookup>(t: &Vec<Token>, s: &S) -> (r: Result<(i32, usize), AsmError>)
    requires
        s.lookup_ready(),
    ensures
        match spec_expr(t@, 0, 0, *s) {
            Ok((v, p)) => r == Ok::<(i32, usize), AsmError>((v, p as usize)) && 0 < p <= t.len(),
            Err(e) => r == Err::<(i32, usize), AsmError>(e),
        },
{
    expression_at(t, 0, 0, s)
}


/// Result of `a op1 b op2 c` when `op2` binds tighter: `op2` is applied
/// first, to `b` and `c`.
pub open spec fn right_first(op1: Token, op2: Token, a: i32, b: i32, c: i32) -> Result<(i32, int), AsmError> {
    match apply_binary(op2, b, c, 3, 4) {
        Err(e) => Err(e),
        Ok(v) => match apply_binary(op1, a, v, 1, 2) {
            Err(e) => Err(e),
            Ok(w) => Ok((w, 5)),
        },
    }
}

/// Result of `a op1 b op2 c` when `op1` binds at least as tightly: `op1` is
/// applied first, to `a` and `b`. Errors point at `first_at` or `second_at`,
/// the operators' positions; `end` is where the expression stops.
pub open spec fn left_first(op1: Token, op2: Token, a: i32, b: i32, c: i32, first_at: usize, second_at: usize, end: int) -> Result<(i32, int), AsmError> {
    match apply_binary(op1, a, b, first_at, (first_at + 1) as usize) {
        Err(e) => Err(e),
        Ok(u) => match apply_binary(op2, u, c, second_at, (second_at + 1) as usize) {
            Err(e) => Err(e),
            Ok(w) => Ok((w, end)),
        },
    }
}

/// Operators bind by the precedence table, and operators of equal
/// precedence group from the left.
pub proof fn lemma_precedence<S: SymbolLookup>(a: i32, b: i32, c: i32, op1: Token, op2: Token, s: S)
    requires
        precedence(op1) is Some,
        precedence(op2) is Some,
    ensures
        ({
            let t = seq![Token::Number(a), op1, Token::Number(b), op2, Token::Number(c)];
            &&& precedence(op2)->Some_0 > precedence(op1)->Some_0 ==> spec_expr(t, 0, 0, s)
                == right_first(op1, op2, a, b, c)
            &&& precedence(op2)->Some_0 <= precedence(op1)->Some_0 ==> spec_expr(t, 0, 0, s)
                == left_first(op1, op2, a, b, c, 1, 3, 5)
        }),
{
    let t = seq![Token::Number(a), op1, Token::Number(b), op2, Token::Number(c)];
    let prec_first = precedence(op1)->Some_0;
    let prec_second = precedence(op2)->Some_0;
    assert(t.len() == 5);
    assert(t[0] == Token::Number(a) && t[1] == op1 && t[2] == Token::Number(b) && t[3] == op2
        && t[4] == Token::Number(c));
    assert(spec_value(t, 0, s) == Ok::<(i32, int), AsmError>((a, 1)));
    assert(spec_value(t, 2, s) == Ok::<(i32, int), AsmError>((b, 3)));
    assert(spec_value(t, 4, s) == Ok::<(i32, int), AsmError>((c, 5)));
    assert forall|m: nat, v: i32| spec_climb(t, v, 5, m, s) == Ok::<(i32, int), AsmError>((v, 5)) by {}
    assert(spec_expr(t, 4, prec_second + 1, s) == Ok::<(i32, int), AsmError>((c, 5)));
    if prec_second > prec_first {
        match apply_binary(op2, b, c, 3, 4) {
            Err(e) => {
                assert(spec_climb(t, b, 3, prec_first + 1, s) == Err::<(i32, int), AsmError>(e));
            },
            Ok(v) => {
                assert(spec_climb(t, v, 5, prec_first + 1, s) == Ok::<(i32, int), AsmError>((v, 5)));
                assert(spec_climb(t, b, 3, prec_first + 1, s) == Ok::<(i32, int), AsmError>((v, 5)));
                match apply_binary(op1, a, v, 1, 2) {
                    Err(e) => {},
                    Ok(w) => {
                        assert(spec_climb(t, w, 5, 0, s) == Ok::<(i32, int), AsmError>((w, 5)));
                    },
                }
            },
        }
        assert(spec_expr(t, 2, prec_first + 1, s) == spec_climb(t, b, 3, prec_first + 1, s));
        assert(spec_climb(t, a, 1, 0, s) == right_first(op1, op2, a, b, c));
    } else {
        assert(spec_climb(t, b, 3, prec_first + 1, s) == Ok::<(i32, int), AsmError>((b, 3)));
        assert(spec_expr(t, 2, prec_first + 1, s) == Ok::<(i32, int), AsmError>((b, 3)));
        match apply_binary(op1, a, b, 1, 2) {
            Err(e) => {},
            Ok(u) => {
                assert(spec_expr(t, 4, prec_second + 1, s) == Ok::<(i32, int), AsmError>((c, 5)));
                match apply_binary(op2, u, c, 3, 4) {
                    Err(e) => {},
                    Ok(w) => {
                        assert(spec_climb(t, w, 5, 0, s) == Ok::<(i32, int), AsmError>((w, 5)));
                    },
                }
                assert(spec_climb(t, u, 3, 0, s) == left_first(op1, op2, a, b, c, 1, 3, 5));
            },
        }
        assert(spec_climb(t, a, 1, 0, s) == left_first(op1, op2, a, b, c, 1, 3, 5));
    }
    assert(spec_expr(t, 0, 0, s) == spec_climb(t, a, 1, 0, s));
}

/// A parenthesised operation is applied before the operator that follows
/// it, whatever the two precedences.
pub proof fn lemma_parentheses<S: SymbolLookup>(a: i32, b: i32, c: i32, op1: Token, op2: Token, s: S)
    requires
        precedence(op1) is Some,
        precedence(op2) is Some,
    ensures
        spec_expr(
            seq![Token::LParen, Token::Number(a), op1, Token::Number(b), Token::RParen, op2, Token::Number(c)],
            0,
            0,
            s,
        ) == left_first(op1, op2, a, b, c, 2, 5, 7),
{
    let t = seq![Token::LParen, Token::Number(a), op1, Token::Number(b), Token::RParen, op2, Token::Number(c)];
    let prec_first = precedence(op1)->Some_0;
    let prec_second = precedence(op2)->Some_0;
    assert(t.len() == 7);
    assert(t[0] == Token::LParen && t[1] == Token::Number(a) && t[2] == op1 && t[3]
        == Token::Number(b) && t[4] == Token::RParen && t[5] == op2 && t[6] == Token::Number(c));
    assert(spec_value(t, 1, s) == Ok::<(i32, int), AsmError>((a, 2)));
    assert(spec_value(t, 3, s) == Ok::<(i32, int), AsmError>((b, 4)));
    assert(spec_value(t, 6, s) == Ok::<(i32, int), AsmError>((c, 7)));
    assert forall|m: nat, v: i32| spec_climb(t, v, 7, m, s) == Ok::<(i32, int), AsmError>((v, 7)) by {}
    assert forall|m: nat, v: i32| spec_climb(t, v, 4, m, s) == Ok::<(i32, int), AsmError>((v, 4)) by {}
    assert(spec_expr(t, 3, prec_first + 1, s) == Ok::<(i32, int), AsmError>((b, 4)));
    assert(spec_expr(t, 6, prec_second + 1, s) == Ok::<(i32, int), AsmError>((c, 7)));
    match apply_binary(op1, a, b, 2, 3) {
        Err(e) => {
            assert(spec_climb(t, a, 2, 0, s) == Err::<(i32, int), AsmError>(e));
            assert(spec_expr(t, 1, 0, s) == Err::<(i32, int), AsmError>(e));
        },
        Ok(u) => {
            assert(spec_climb(t, u, 4, 0, s) == Ok::<(i32, int), AsmError>((u, 4)));
            assert(spec_climb(t, a, 2, 0, s) == Ok::<(i32, int), AsmError>((u, 4)));
            assert(spec_expr(t, 1, 0, s) == Ok::<(i32, int), AsmError>((u, 4)));
            assert(spec_value(t, 0, s) == Ok::<(i32, int), AsmError>((u, 5)));
            match apply_binary(op2, u, c, 5, 6) {
                Err(e) => {},
                Ok(w) => {
                    assert(spec_climb(t, w, 7, 0, s) == Ok::<(i32, int), AsmError>((w, 7)));
                },
            }
            assert(spec_climb(t, u, 5, 0, s) == left_first(op1, op2, a, b, c, 2, 5, 7));
        },
    }
}

/// A parenthesised expression is an atom: wherever `( e )` stands, the
/// expression goes on exactly as if a number with the value of `e` stood
/// there, whatever operators `e` holds.
pub proof fn lemma_parenthesized_atom<S: SymbolLookup>(t: Seq<Token>, pos: int, min: nat, s: S, v: i32, p: int)
    requires
        0 <= pos < p < t.len(),
        t[pos] is LParen,
        spec_expr(t, pos + 1, 0, s) == Ok::<(i32, int), AsmError>((v, p)),
        t[p] is RParen,
    ensures
        spec_value(t, pos, s) == Ok::<(i32, int), AsmError>((v, p + 1)),
        spec_expr(t, pos, min, s) == spec_climb(t, v, p + 1, min, s),
        t[pos + 1] is Number ==> spec_expr(t, pos + 1, min, s) == spec_climb(
            t,
            t[pos + 1]->Number_0,
            pos + 2,
            min,
            s,
        ),
{
}

/// Evaluation depends on a lookup only through the values it gives.
pub proof fn lemma_value_congruent<S1: SymbolLookup, S2: SymbolLookup>(t: Seq<Token>, pos: int, s1: S1, s2: S2)
    requires
        forall|n: Seq<char>| #[trigger] s1.spec_lookup(n) == s2.spec_lookup(n),
    ensures
        spec_value(t, pos, s1) == spec_value(t, pos, s2),
    decreases t.len() - pos, 0nat,
{
    if 0 <= pos < t.len() {
        match t[pos] {
            Token::LParen => {
                lemma_expr_congruent(t, pos + 1, 0, s1, s2);
            },
            Token::Plus | Token::Minus | Token::Not | Token::BitNot => {
                lemma_value_congruent(t, pos + 1, s1, s2);
            },
            _ => {},
        }
    }
}

pub proof fn lemma_expr_congruent<S1: SymbolLookup, S2: SymbolLookup>(t: Seq<Token>, pos: int, min: nat, s1: S1, s2: S2)
    requires
        forall|n: Seq<char>| #[trigger] s1.spec_lookup(n) == s2.spec_lookup(n),
    ensures
        spec_expr(t, pos, min, s1) == spec_expr(t, pos, min, s2),
    decreases t.len() - pos, 1nat,
{
    lemma_value_congruent(t, pos, s1, s2);
    match spec_value(t, pos, s1) {
        Ok((v, p)) => {
            if p > pos && p <= t.len() {
                lemma_climb_congruent(t, v, p, min, s1, s2);
            }
        },
        Err(_) => {},
    }
}

pub proof fn lemma_climb_congruent<S1: SymbolLookup, S2: SymbolLookup>(t: Seq<Token>, lhs: i32, pos: int, min: nat, s1: S1, s2: S2)
    requires
        forall|n: Seq<char>| #[trigger] s1.spec_lookup(n) == s2.spec_lookup(n),
    ensures
        spec_climb(t, lhs, pos, min, s1) == spec_climb(t, lhs, pos, min, s2),
    decreases t.len() - pos, 2nat,
{
    if 0 <= pos < t.len() {
        match precedence(t[pos]) {
            Some(q) => if q >= min {
                lemma_expr_congruent(t, pos + 1, q + 1, s1, s2);
                match spec_expr(t, pos + 1, q + 1, s1) {
                    Ok((rhs, p)) => if p > pos && p <= t.len() {
                        match apply_binary(t[pos], lhs, rhs, pos as usize, (pos + 1) as usize) {
                            Ok(v) => {
                                lemma_climb_congruent(t, v, p, min, s1, s2);
                            },
                            Err(_) => {},
                        }
                    },
                    Err(_) => {},
                }
            },
            None => {},
        }
    }
}

/// Failing operations: division or remainder by zero and overflow of `+`,
/// `-`, `*` and `%` are `ValueOutOfRange`; a negative shift count is
/// `NegativeShiftAmount`.
pub proof fn lemma_binary_errors(l: i32, r: i32, position: usize, rhs_position: usize)
    ensures
        apply_binary(Token::Slash, l, 0, position, rhs_position) == Err::<i32, AsmError>(
            AsmError::ValueOutOfRange { position },
        ),
        apply_binary(Token::Percent, l, 0, position, rhs_position) == Err::<i32, AsmError>(
            AsmError::ValueOutOfRange { position },
        ),
        (l + r > i32::MAX || l + r < i32::MIN) ==> apply_binary(Token::Plus, l, r, position, rhs_position)
            == Err::<i32, AsmError>(AsmError::ValueOutOfRange { position }),
        (l - r > i32::MAX || l - r < i32::MIN) ==> apply_binary(Token::Minus, l, r, position, rhs_position)
            == Err::<i32, AsmError>(AsmError::ValueOutOfRange { position }),
        (l * r > i32::MAX || l * r < i32::MIN) ==> apply_binary(Token::Asterisk, l, r, position, rhs_position)
            == Err::<i32, AsmError>(AsmError::ValueOutOfRange { position }),
        apply_binary(Token::Slash, i32::MIN, -1i32, position, rhs_position) == Err::<i32, AsmError>(
            AsmError::ValueOutOfRange { position },
        ),
        apply_binary(Token::Percent, i32::MIN, -1i32, position, rhs_position) == Err::<i32, AsmError>(
            AsmError::ValueOutOfRange { position },
        ),
        (r >= 0 && (l * pow2(r as nat) > i32::MAX || l * pow2(r as nat) < i32::MIN)) ==> apply_binary(
            Token::Shl,
            l,
            r,
            position,
            rhs_position,
        ) == Err::<i32, AsmError>(AsmError::ValueOutOfRange { position }),
        r < 0 ==> apply_binary(Token::Shl, l, r, position, rhs_position) == Err::<i32, AsmError>(
            AsmError::NegativeShiftAmount { position: rhs_position },
        ),
        r < 0 ==> apply_binary(Token::Shr, l, r, position, rhs_position) == Err::<i32, AsmError>(
            AsmError::NegativeShiftAmount { position: rhs_position },
        ),
{
}

/// `!x` is 1 for zero and 0 otherwise, `~x` flips every bit, and negating
/// the smallest value overflows.
pub proof fn lemma_unary<S: SymbolLookup>(t: Seq<Token>, pos: int, s: S)
    requires
        0 <= pos < t.len(),
        spec_value(t, pos + 1, s) is Ok,
    ensures
        ({
            let (v, p) = spec_value(t, pos + 1, s)->Ok_0;
            &&& t[pos] is Not ==> spec_value(t, pos, s) == Ok::<(i32, int), AsmError>(
                (if v == 0 {
                    1i32
                } else {
                    0i32
                }, p),
            )
            &&& t[pos] is BitNot ==> spec_value(t, pos, s) == Ok::<(i32, int), AsmError>((!v, p))
            &&& (t[pos] is Minus && v == i32::MIN) ==> spec_value(t, pos, s) == Err::<
                (i32, int),
                AsmError,
            >(AsmError::ValueOutOfRange { position: pos as usize })
        }),
{
}

} // verus!
