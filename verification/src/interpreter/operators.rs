//! Binary and unary operators on integers and booleans as the interpreter
//! evaluates them; integers use two's-complement wrapping arithmetic on
//! 64-bit values.

use vstd::prelude::*;
use vstd::arithmetic::power::{pow, lemma_pow_adds, lemma_pow_multiplies, lemma_square_is_pow2, lemma_pow_mod_noop, lemma_pow0, lemma_pow1};
use vstd::arithmetic::div_mod::{lemma_fundamental_div_mod, lemma_mul_mod_noop_general};
use vstd::wrapping::i64_specs::{signed_crop, wrapping_add, wrapping_mul, wrapping_shl, wrapping_shr, wrapping_sub};
use crate::diagnostics::Span;
use crate::parser::ast::BinOp;
use crate::text::{owned, push_str};
use super::InterpretError;

verus! {

/// The size of the 64-bit integer ring.
pub open spec fn ring() -> int {
    0x1_0000_0000_0000_0000
}

/// Division rounded toward zero, as Rust's `/` on signed integers.
pub open spec fn trunc_div(a: int, b: int) -> int {
    if a >= 0 && b > 0 {
        a / b
    } else if a < 0 && b < 0 {
        (-a) / (-b)
    } else if a < 0 {
        -((-a) / b)
    } else {
        -(a / (-b))
    }
}

/// The remainder that goes with `trunc_div`: it takes the dividend's sign.
pub open spec fn trunc_rem(a: int, b: int) -> int {
    if a >= 0 && b > 0 {
        a % b
    } else if a < 0 && b < 0 {
        -((-a) % (-b))
    } else if a < 0 {
        -((-a) % b)
    } else {
        a % (-b)
    }
}

/// `a / b` rounded toward zero, wrapping on its one overflow (`MIN / -1`).
pub open spec fn wrapping_div_spec(a: i64, b: i64) -> i64 {
    if a == i64::MIN && b == -1 {
        i64::MIN
    } else {
        trunc_div(a as int, b as int) as i64
    }
}

/// `a % b` with the dividend's sign; `MIN % -1` is 0.
pub open spec fn wrapping_rem_spec(a: i64, b: i64) -> i64 {
    if a == i64::MIN && b == -1 {
        0
    } else {
        trunc_rem(a as int, b as int) as i64
    }
}

/// `base` to the power `exp`, reduced to 64 bits.
pub open spec fn wrapping_pow_spec(base: i64, exp: nat) -> i64 {
    signed_crop(pow(base as int, exp))
}

/// Reducing to 64 bits keeps the residue modulo 2^64.
proof fn lemma_crop_residue(x: int)
    ensures
        (signed_crop(x) as int) % ring() == x % ring(),
{
    let m = x % ring();
    assert(0 <= m < ring());
    if m > i64::MAX as int {
        assert((m - ring()) % ring() == m % ring());
    }
}

/// A 64-bit value reduces to itself.
proof fn lemma_crop_identity(v: i64)
    ensures
        signed_crop(v as int) == v,
{
    let x = v as int;
    if x >= 0 {
        assert(x % ring() == x);
    } else {
        assert(x % ring() == x + ring());
    }
}

/// One step of square-and-multiply keeps `result * b^e` modulo 2^64.
proof fn lemma_pow_step(result: int, b: int, e: nat, r2: int, b2: int)
    requires
        e > 0,
        r2 % ring() == (if e % 2 == 1 { result * b } else { result }) % ring(),
        b2 % ring() == (b * b) % ring(),
    ensures
        (r2 * pow(b2, e / 2)) % ring() == (result * pow(b, e)) % ring(),
{
    let h: nat = e / 2;
    let odd: nat = e % 2;
    let m = ring();
    assert(e == 2 * h + odd);
    lemma_pow_adds(b, 2 * h, odd);
    lemma_pow_multiplies(b, 2, h);
    lemma_square_is_pow2(b);
    let p = pow(b * b, h);
    assert(pow(b, e) == p * pow(b, odd));
    lemma_pow_mod_noop(b2, h, m);
    lemma_pow_mod_noop(b * b, h, m);
    let p2 = pow(b2, h);
    assert(p2 % m == p % m);
    lemma_mul_mod_noop_general(r2, p2, m);
    lemma_mul_mod_noop_general(r2, p, m);
    assert((r2 * p2) % m == (r2 * p) % m);
    let x = if odd == 1 { result * b } else { result };
    lemma_mul_mod_noop_general(r2, p, m);
    lemma_mul_mod_noop_general(x, p, m);
    assert((r2 * p) % m == (x * p) % m);
    if odd == 1 {
        lemma_pow1(b);
        assert(x * p == result * (p * b)) by (nonlinear_arith)
            requires
                x == result * b,
        ;
    } else {
        lemma_pow0(b);
        assert(pow(b, odd) == 1);
    }
}

/// `base` to the power `exp` by square-and-multiply, wrapping at each step.
pub fn int_pow(base: i64, exp: u32) -> (r: i64)
    ensures
        r == wrapping_pow_spec(base, exp as nat),
{
    let mut result: i64 = 1;
    let mut b: i64 = base;
    let mut e: u32 = exp;
    proof {
        lemma_pow0(b as int);
    }
    while e > 0
        invariant
            (result as int * pow(b as int, e as nat)) % ring() == pow(base as int, exp as nat) % ring(),
        decreases e,
    {
        let ghost r0 = result as int;
        let ghost b0 = b as int;
        let ghost e0 = e;
        let odd = e & 1 == 1;
        assert((e & 1 == 1) == (e % 2 == 1)) by (bit_vector);
        if odd {
            result = result.wrapping_mul(b);
            proof {
                lemma_crop_residue(r0 * b0);
            }
        }
        b = b.wrapping_mul(b);
        e = e >> 1;
        assert(e == e0 / 2) by (bit_vector)
            requires
                e == e0 >> 1,
        ;
        proof {
            lemma_crop_residue(b0 * b0);
            lemma_pow_step(r0, b0, e0 as nat, result as int, b as int);
        }
    }
    proof {
        lemma_pow0(b as int);
        assert(result as int % ring() == pow(base as int, exp as nat) % ring());
        lemma_crop_identity(result);
        lemma_crop_residue(pow(base as int, exp as nat));
        assert(signed_crop(result as int) == signed_crop(pow(base as int, exp as nat)));
    }
    result
}

/// Dividing never grows the magnitude of the dividend.
proof fn lemma_quotients_small(x: int, d: int)
    requires
        0 <= x,
        1 <= d,
    ensures
        0 <= x / d <= x,
        0 <= x % d < d,
        x % d <= x,
{
    assert(0 <= x / d <= x) by (nonlinear_arith)
        requires
            0 <= x,
            1 <= d,
    ;
    assert(x % d <= x) by (nonlinear_arith)
        requires
            0 <= x,
            1 <= d,
    ;
}

/// `a / b` rounded toward zero, wrapping `MIN / -1` to `MIN`.
pub fn wrapping_div(a: i64, b: i64) -> (r: i64)
    requires
        b != 0,
    ensures
        r == wrapping_div_spec(a, b),
{
    proof {
        let x = a as int;
        let d = b as int;
        if x >= 0 && d > 0 {
            lemma_quotients_small(x, d);
        } else if x < 0 && d < 0 {
            lemma_quotients_small(-x, -d);
        } else if x < 0 {
            lemma_quotients_small(-x, d);
        } else {
            lemma_quotients_small(x, -d);
        }
        if x < 0 && d < 0 && !(x == i64::MIN && d == -1) {
            assert((-x) / (-d) <= i64::MAX) by (nonlinear_arith)
                requires
                    -x <= 0x8000_0000_0000_0000,
                    -d >= 1,
                    !(-x == 0x8000_0000_0000_0000 && -d == 1),
            ;
        }
    }
    match a.checked_div(b) {
        Some(q) => q,
        None => i64::MIN,
    }
}

/// `a % b` with the dividend's sign; `MIN % -1` is 0.
pub fn wrapping_rem(a: i64, b: i64) -> (r: i64)
    requires
        b != 0,
    ensures
        r == wrapping_rem_spec(a, b),
{
    proof {
        let x = a as int;
        let d = b as int;
        if x >= 0 && d > 0 {
            lemma_quotients_small(x, d);
        } else if x < 0 && d < 0 {
            lemma_quotients_small(-x, -d);
        } else if x < 0 {
            lemma_quotients_small(-x, d);
        } else {
            lemma_quotients_small(x, -d);
        }
    }
    match a.checked_rem(b) {
        Some(q) => q,
        None => 0,
    }
}

/// Truncating division and its remainder recombine to the dividend, and the
/// remainder is smaller than the divisor and carries the dividend's sign.
pub proof fn lemma_trunc_div_rem(a: int, b: int)
    requires
        b != 0,
    ensures
        trunc_div(a, b) * b + trunc_rem(a, b) == a,
        -(if b > 0 { b } else { -b }) < trunc_rem(a, b) < (if b > 0 { b } else { -b }),
        a >= 0 ==> trunc_rem(a, b) >= 0,
        a < 0 ==> trunc_rem(a, b) <= 0,
{
    let x = if a >= 0 { a } else { -a };
    let d = if b > 0 { b } else { -b };
    lemma_fundamental_div_mod(x, d);
    lemma_quotients_small(x, d);
    if a >= 0 && b > 0 {
    } else if a < 0 && b < 0 {
        assert((x / d) * b == -((x / d) * d)) by (nonlinear_arith)
            requires
                b == -d,
        ;
    } else if a < 0 {
        assert(-(x / d) * b == -((x / d) * d)) by (nonlinear_arith)
            requires
                b == d,
        ;
    } else {
        assert(-(x / d) * b == (x / d) * d) by (nonlinear_arith)
            requires
                b == -d,
        ;
    }
}

/// What an integer binary operator gives: a 64-bit integer that keeps the
/// operands' kind, or a comparison's truth value.
#[derive(Debug, Clone, Copy, PartialEq, Eq, Structural)]
pub enum IntBinValue {
    Int(i64),
    Bool(bool),
}

/// The value and runtime kind code that `a op b` evaluates to (kind 0 for
/// comparisons). `/` goes to floating point and `~` to strings, elsewhere.
pub open spec fn int_bin_spec(op: BinOp, a: i64, b: i64, kind: u64) -> (IntBinValue, u64) {
    match op {
        BinOp::Plus => (IntBinValue::Int(wrapping_add(a, b)), kind),
        BinOp::Minus => (IntBinValue::Int(wrapping_sub(a, b)), kind),
        BinOp::Mul => (IntBinValue::Int(wrapping_mul(a, b)), kind),
        BinOp::Mod => (IntBinValue::Int(wrapping_rem_spec(a, b)), kind),
        BinOp::Fdiv => (IntBinValue::Int(wrapping_div_spec(a, b)), kind),
        BinOp::Pow => (IntBinValue::Int(wrapping_pow_spec(a, (b as u32) as nat)), kind),
        BinOp::Eq => (IntBinValue::Bool(a == b), 0),
        BinOp::Ne => (IntBinValue::Bool(a != b), 0),
        BinOp::Gt => (IntBinValue::Bool(a > b), 0),
        BinOp::Gte => (IntBinValue::Bool(a >= b), 0),
        BinOp::Lt => (IntBinValue::Bool(a < b), 0),
        BinOp::Lte => (IntBinValue::Bool(a <= b), 0),
        BinOp::And => (IntBinValue::Int(a & b), kind),
        BinOp::Or => (IntBinValue::Int(a | b), kind),
        BinOp::Xor => (IntBinValue::Int(a ^ b), kind),
        BinOp::Lshift => (IntBinValue::Int(wrapping_shl(a, b as u32)), kind),
        BinOp::Rshift => (IntBinValue::Int(wrapping_shr(a, b as u32)), kind),
        BinOp::Div | BinOp::Concat => arbitrary(),
    }
}

/// Whether an operator's value is the truth value `true`.
pub open spec fn holds(v: IntBinValue) -> bool {
    v == IntBinValue::Bool(true)
}

/// The comparisons order 64-bit integers: `>` and `<` are strict (false on
/// equal operands), `>=` and `<=` are their non-strict forms, swapping the
/// operands turns `>` into `<`, `!=` is the negation of `==`, exactly one of
/// `<`, `==`, `>` holds, and each matches the integer order of the
/// operands. A comparison gives a truth value of kind 0.
pub proof fn lemma_int_comparisons(a: i64, b: i64, kind: u64)
    ensures
        holds(int_bin_spec(BinOp::Gt, a, b, kind).0) <==> a > b,
        holds(int_bin_spec(BinOp::Lt, a, b, kind).0) <==> a < b,
        holds(int_bin_spec(BinOp::Gte, a, b, kind).0) <==> a >= b,
        holds(int_bin_spec(BinOp::Lte, a, b, kind).0) <==> a <= b,
        holds(int_bin_spec(BinOp::Eq, a, b, kind).0) <==> a == b,
        holds(int_bin_spec(BinOp::Ne, a, b, kind).0) <==> a != b,
        !holds(int_bin_spec(BinOp::Gt, a, a, kind).0),
        !holds(int_bin_spec(BinOp::Lt, a, a, kind).0),
        holds(int_bin_spec(BinOp::Gte, a, a, kind).0),
        holds(int_bin_spec(BinOp::Lte, a, a, kind).0),
        int_bin_spec(BinOp::Gt, a, b, kind) == int_bin_spec(BinOp::Lt, b, a, kind),
        int_bin_spec(BinOp::Gte, a, b, kind) == int_bin_spec(BinOp::Lte, b, a, kind),
        holds(int_bin_spec(BinOp::Gte, a, b, kind).0) <==> (holds(int_bin_spec(BinOp::Gt, a, b, kind).0) || holds(
            int_bin_spec(BinOp::Eq, a, b, kind).0,
        )),
        holds(int_bin_spec(BinOp::Ne, a, b, kind).0) <==> !holds(int_bin_spec(BinOp::Eq, a, b, kind).0),
        (holds(int_bin_spec(BinOp::Lt, a, b, kind).0) as int) + (holds(int_bin_spec(BinOp::Eq, a, b, kind).0) as int)
            + (holds(int_bin_spec(BinOp::Gt, a, b, kind).0) as int) == 1,
        forall|op: BinOp|
            #![trigger int_bin_spec(op, a, b, kind)]
            (op == BinOp::Eq || op == BinOp::Ne || op == BinOp::Gt || op == BinOp::Gte || op == BinOp::Lt || op
                == BinOp::Lte) ==> int_bin_spec(op, a, b, kind).0 is Bool && int_bin_spec(op, a, b, kind).1 == 0,
{
}

/// Integer arithmetic wraps at 64 bits: `+`, `-` and `*` give the exact
/// result up to a multiple of 2^64 (one wrap at most for `+` and `-`), `+`
/// and `*` do not depend on the operands' order, `//` and `%` recombine to
/// the dividend with a remainder smaller than the divisor that takes the
/// dividend's sign, `x ^ x` is 0 and `x & x`, `x | x` are `x`; the bitwise
/// operators do not depend on the operands' order. Arithmetic keeps the
/// operands' kind.
pub proof fn lemma_int_arithmetic(a: i64, b: i64, kind: u64)
    ensures
        int_bin_spec(BinOp::Plus, a, b, kind) matches (IntBinValue::Int(r), k) && k == kind && (r == a + b || r == a
            + b - ring() || r == a + b + ring()),
        int_bin_spec(BinOp::Minus, a, b, kind) matches (IntBinValue::Int(r), k) && k == kind && (r == a - b || r
            == a - b - ring() || r == a - b + ring()),
        int_bin_spec(BinOp::Mul, a, b, kind) matches (IntBinValue::Int(r), k) && k == kind && (r as int) % ring()
            == (a * b) % ring(),
        int_bin_spec(BinOp::Plus, a, b, kind) == int_bin_spec(BinOp::Plus, b, a, kind),
        int_bin_spec(BinOp::Mul, a, b, kind) == int_bin_spec(BinOp::Mul, b, a, kind),
        b != 0 && !(a == i64::MIN && b == -1) ==> (int_bin_spec(BinOp::Fdiv, a, b, kind) matches (IntBinValue::Int(
            q,
        ), k1) && int_bin_spec(BinOp::Mod, a, b, kind) matches (IntBinValue::Int(m), k2) && k1 == kind && k2 == kind
            && q * b + m == a && (if b > 0 { -b < m < b } else { b < m < -b }) && (a >= 0 ==> m >= 0) && (a < 0 ==> m
            <= 0)),
        int_bin_spec(BinOp::Xor, a, a, kind) == (IntBinValue::Int(0), kind),
        int_bin_spec(BinOp::And, a, a, kind) == (IntBinValue::Int(a), kind),
        int_bin_spec(BinOp::Or, a, a, kind) == (IntBinValue::Int(a), kind),
        int_bin_spec(BinOp::And, a, b, kind) == int_bin_spec(BinOp::And, b, a, kind),
        int_bin_spec(BinOp::Or, a, b, kind) == int_bin_spec(BinOp::Or, b, a, kind),
        int_bin_spec(BinOp::Xor, a, b, kind) == int_bin_spec(BinOp::Xor, b, a, kind),
        int_bin_spec(BinOp::And, a, -1i64, kind) == (IntBinValue::Int(a), kind),
        int_bin_spec(BinOp::Or, a, 0i64, kind) == (IntBinValue::Int(a), kind),
{
    lemma_crop_residue(a as int * b as int);
    assert(a as int * b as int == b as int * a as int) by (nonlinear_arith);
    assert(a ^ a == 0) by (bit_vector);
    assert(a & a == a) by (bit_vector);
    assert(a | a == a) by (bit_vector);
    assert(a & b == b & a) by (bit_vector);
    assert(a | b == b | a) by (bit_vector);
    assert(a ^ b == b ^ a) by (bit_vector);
    assert(a & -1i64 == a) by (bit_vector);
    assert(a | 0i64 == a) by (bit_vector);
    if b != 0 && !(a == i64::MIN && b == -1) {
        lemma_trunc_div_rem(a as int, b as int);
        let x = if a >= 0 { a as int } else { -(a as int) };
        let d = if b > 0 { b as int } else { -(b as int) };
        lemma_quotients_small(x, d);
        if x / d == x {
            assert(d == 1 || x == 0) by (nonlinear_arith)
                requires
                    x / d == x,
                    d >= 1,
                    x >= 0,
            ;
        }
    }
}

/// Shifts and powers: shifting by 0 keeps the value, shifting a
/// non-negative value right by 1 halves it, shifting left by 1 doubles it
/// (wrapping as `+` does); `x ^ 0` is 1, `x ^ 1` is `x`, and `x ^ n` is the
/// exact power up to a multiple of 2^64. All keep the operands' kind.
pub proof fn lemma_int_shifts_and_powers(a: i64, b: i64, kind: u64)
    ensures
        int_bin_spec(BinOp::Lshift, a, 0i64, kind) == (IntBinValue::Int(a), kind),
        int_bin_spec(BinOp::Rshift, a, 0i64, kind) == (IntBinValue::Int(a), kind),
        a >= 0 ==> int_bin_spec(BinOp::Rshift, a, 1i64, kind) == (IntBinValue::Int((a / 2) as i64), kind),
        int_bin_spec(BinOp::Lshift, a, 1i64, kind) == int_bin_spec(BinOp::Plus, a, a, kind),
        int_bin_spec(BinOp::Pow, a, 0i64, kind) == (IntBinValue::Int(1), kind),
        int_bin_spec(BinOp::Pow, a, 1i64, kind) == (IntBinValue::Int(a), kind),
        0 <= b <= u32::MAX ==> (int_bin_spec(BinOp::Pow, a, b, kind) matches (IntBinValue::Int(r), k) && k == kind
            && (r as int) % ring() == pow(a as int, b as nat) % ring()),
{
    assert(wrapping_shl(a, 0u32) == a) by (bit_vector);
    assert(wrapping_shr(a, 0u32) == a) by (bit_vector);
    assert(a >= 0 ==> wrapping_shr(a, 1u32) == a / 2) by (bit_vector);
    assert(wrapping_shl(a, 1u32) == wrapping_add(a, a)) by (bit_vector);
    lemma_pow0(a as int);
    lemma_pow1(a as int);
    lemma_crop_identity(1i64);
    lemma_crop_identity(a);
    if 0 <= b <= u32::MAX {
        assert((b as u32) as nat == b as nat);
        lemma_crop_residue(pow(a as int, b as nat));
    }
}

/// Truth-value operators: `and` is false as soon as one side is, `or` is
/// true as soon as one side is, `xor` and `!=` say the sides differ, `==`
/// that they agree; none depends on the order of its operands. Other
/// operators do not take booleans.
pub proof fn lemma_bool_operators(a: bool, b: bool)
    ensures
        bool_bin_spec(BinOp::And, a, false) == Some(false),
        bool_bin_spec(BinOp::And, a, true) == Some(a),
        bool_bin_spec(BinOp::Or, a, true) == Some(true),
        bool_bin_spec(BinOp::Or, a, false) == Some(a),
        bool_bin_spec(BinOp::Xor, a, b) == Some(a != b),
        bool_bin_spec(BinOp::Eq, a, a) == Some(true),
        bool_bin_spec(BinOp::Ne, a, b) == Some(!(bool_bin_spec(BinOp::Eq, a, b) == Some(true))),
        forall|op: BinOp|
            #![trigger bool_bin_spec(op, a, b)]
            bool_bin_spec(op, a, b) == bool_bin_spec(op, b, a),
        forall|op: BinOp|
            #![trigger bool_bin_spec(op, a, b)]
            bool_bin_spec(op, a, b) is Some <==> (op == BinOp::And || op == BinOp::Or || op == BinOp::Xor || op
                == BinOp::Eq || op == BinOp::Ne),
{
}

/// Evaluate `a op b` on 64-bit integers of runtime kind `kind`. The one
/// error is `E334`, a negative exponent for `^`.
pub fn eval_int_bin(op: BinOp, a: i64, b: i64, kind: u64, span: Span) -> (r: Result<
    (IntBinValue, u64),
    InterpretError,
>)
    requires
        op != BinOp::Div,
        op != BinOp::Concat,
        (op == BinOp::Mod || op == BinOp::Fdiv) ==> b != 0,
    ensures
        r is Err <==> (op == BinOp::Pow && b < 0),
        r matches Ok(v) ==> v == int_bin_spec(op, a, b, kind),
        r matches Err(e) ==> e.message@ == "negative exponent in integer '^'"@ && e.code@
            == "E334"@ && e.span == span,
{
    let v = match op {
        BinOp::Plus => (IntBinValue::Int(a.wrapping_add(b)), kind),
        BinOp::Minus => (IntBinValue::Int(a.wrapping_sub(b)), kind),
        BinOp::Mul => (IntBinValue::Int(a.wrapping_mul(b)), kind),
        BinOp::Mod => (IntBinValue::Int(wrapping_rem(a, b)), kind),
        BinOp::Fdiv => (IntBinValue::Int(wrapping_div(a, b)), kind),
        BinOp::Pow => {
            if b < 0 {
                return Err(
                    InterpretError::new(
                        owned("negative exponent in integer '^'"),
                        span,
                        owned("E334"),
                    ),
                );
            }
            (IntBinValue::Int(int_pow(a, b as u32)), kind)
        },
        BinOp::Eq => (IntBinValue::Bool(a == b), 0),
        BinOp::Ne => (IntBinValue::Bool(a != b), 0),
        BinOp::Gt => (IntBinValue::Bool(a > b), 0),
        BinOp::Gte => (IntBinValue::Bool(a >= b), 0),
        BinOp::Lt => (IntBinValue::Bool(a < b), 0),
        BinOp::Lte => (IntBinValue::Bool(a <= b), 0),
        BinOp::And => (IntBinValue::Int(a & b), kind),
        BinOp::Or => (IntBinValue::Int(a | b), kind),
        BinOp::Xor => (IntBinValue::Int(a ^ b), kind),
        BinOp::Lshift => (IntBinValue::Int(a.wrapping_shl(b as u32)), kind),
        BinOp::Rshift => (IntBinValue::Int(a.wrapping_shr(b as u32)), kind),
        BinOp::Div | BinOp::Concat => (IntBinValue::Int(0), kind),
    };
    Ok(v)
}

/// The value of `a op b` on booleans, for the operators that take them.
pub open spec fn bool_bin_spec(op: BinOp, a: bool, b: bool) -> Option<bool> {
    match op {
        BinOp::And => Some(a && b),
        BinOp::Or => Some(a || b),
        BinOp::Xor => Some(a != b),
        BinOp::Eq => Some(a == b),
        BinOp::Ne => Some(a != b),
        _ => None,
    }
}

/// The name an operator is reported under.
pub open spec fn bin_op_name(op: BinOp) -> Seq<char> {
    match op {
        BinOp::Plus => "Plus"@,
        BinOp::Minus => "Minus"@,
        BinOp::Mul => "Mul"@,
        BinOp::Div => "Div"@,
        BinOp::Fdiv => "Fdiv"@,
        BinOp::Mod => "Mod"@,
        BinOp::Pow => "Pow"@,
        BinOp::Concat => "Concat"@,
        BinOp::Eq => "Eq"@,
        BinOp::Ne => "Ne"@,
        BinOp::Gt => "Gt"@,
        BinOp::Gte => "Gte"@,
        BinOp::Lt => "Lt"@,
        BinOp::Lte => "Lte"@,
        BinOp::And => "And"@,
        BinOp::Or => "Or"@,
        BinOp::Xor => "Xor"@,
        BinOp::Lshift => "Lshift"@,
        BinOp::Rshift => "Rshift"@,
    }
}

/// The name an operator is reported under.
pub fn bin_op_text(op: BinOp) -> (r: &'static str)
    ensures
        r@ == bin_op_name(op),
{
    match op {
        BinOp::Plus => "Plus",
        BinOp::Minus => "Minus",
        BinOp::Mul => "Mul",
        BinOp::Div => "Div",
        BinOp::Fdiv => "Fdiv",
        BinOp::Mod => "Mod",
        BinOp::Pow => "Pow",
        BinOp::Concat => "Concat",
        BinOp::Eq => "Eq",
        BinOp::Ne => "Ne",
        BinOp::Gt => "Gt",
        BinOp::Gte => "Gte",
        BinOp::Lt => "Lt",
        BinOp::Lte => "Lte",
        BinOp::And => "And",
        BinOp::Or => "Or",
        BinOp::Xor => "Xor",
        BinOp::Lshift => "Lshift",
        BinOp::Rshift => "Rshift",
    }
}

/// Evaluate `a op b` on booleans; any operator but `and`, `or`, `xor`, `==`
/// and `!=` is `E336`.
pub fn eval_bool_bin(op: BinOp, a: bool, b: bool, span: Span) -> (r: Result<bool, InterpretError>)
    ensures
        r is Ok <==> bool_bin_spec(op, a, b) is Some,
        r matches Ok(v) ==> bool_bin_spec(op, a, b) == Some(v),
        r matches Err(e) ==> e.message@ == "invalid bool op "@ + bin_op_name(op) && e.code@
            == "E336"@ && e.span == span,
{
    match op {
        BinOp::And => Ok(a && b),
        BinOp::Or => Ok(a || b),
        BinOp::Xor => Ok(a != b),
        BinOp::Eq => Ok(a == b),
        BinOp::Ne => Ok(a != b),
        _ => {
            let mut m = owned("invalid bool op ");
            push_str(&mut m, bin_op_text(op));
            Err(InterpretError::new(m, span, owned("E336")))
        },
    }
}

/// `not` on a 64-bit integer flips every bit, which is `-n - 1`.
pub fn int_not(n: i64) -> (r: i64)
    ensures
        r == -n - 1,
{
    let r = !n;
    assert(!n == -n - 1) by (bit_vector);
    r
}

} // verus!
