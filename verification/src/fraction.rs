//! Exact fractions: the representation of the language's decimal values.
//!
//! A decimal literal such as `1.25` is held as the fraction `125/100`.
//! The four arithmetic operations are exact; a result whose numerator or
//! denominator falls outside `i64` is reported as an overflow rather than
//! silently rounded.

use vstd::prelude::*;

use crate::errors::ArithmeticError;

verus! {

/// A signed fraction. The denominator is always positive, and the value
/// zero is always held as `0/1`, so no "negative zero" exists.
#[derive(Clone, Copy, Debug, PartialEq, Eq, Structural)]
pub struct Fraction {
    pub num: i64,
    pub den: i64,
}

pub open spec fn in_i64(v: int) -> bool {
    i64::MIN <= v <= i64::MAX
}

impl Fraction {
    /// Well-formed: positive denominator, and zero in its canonical form.
    pub open spec fn wf(self) -> bool {
        self.den >= 1 && (self.num == 0 ==> self.den == 1)
    }

    /// Whether the fraction denotes the value zero.
    pub open spec fn is_zero(self) -> bool {
        self.num == 0
    }

    /// The fraction `n/1`.
    pub fn from_int(n: i64) -> (r: Fraction)
        ensures
            r == (Fraction { num: n, den: 1 }),
            r.wf(),
    {
        Fraction { num: n, den: 1 }
    }
}

/// Canonical result of an exact operation: zero becomes `0/1`; a
/// numerator or denominator beyond `i64` is an overflow.
pub open spec fn spec_rat_make(n: int, d: int) -> Result<Fraction, ArithmeticError> {
    if !in_i64(n) || !in_i64(d) {
        Err(ArithmeticError::Overflow)
    } else if n == 0 {
        Ok(Fraction { num: 0, den: 1 })
    } else {
        Ok(Fraction { num: n as i64, den: d as i64 })
    }
}

pub open spec fn spec_rat_add(a: Fraction, b: Fraction) -> Result<Fraction, ArithmeticError> {
    spec_rat_make(a.num * b.den + b.num * a.den, a.den * b.den)
}

pub open spec fn spec_rat_sub(a: Fraction, b: Fraction) -> Result<Fraction, ArithmeticError> {
    spec_rat_make(a.num * b.den - b.num * a.den, a.den * b.den)
}

pub open spec fn spec_rat_mul(a: Fraction, b: Fraction) -> Result<Fraction, ArithmeticError> {
    spec_rat_make(a.num * b.num, a.den * b.den)
}

/// Division flips the right operand; the sign moves to the numerator so
/// the denominator stays positive. Division by zero is an error.
pub open spec fn spec_rat_div(a: Fraction, b: Fraction) -> Result<Fraction, ArithmeticError> {
    if b.num == 0 {
        Err(ArithmeticError::DivideByZero)
    } else if b.num < 0 {
        spec_rat_make(-(a.num * b.den), -(a.den * b.num))
    } else {
        spec_rat_make(a.num * b.den, a.den * b.num)
    }
}

/// A product of positive factors is positive.
proof fn lemma_pos_mul_pos(x: int, y: int)
    requires
        x >= 1,
        y >= 1,
    ensures
        x * y >= 1,
{
    assert(x * y >= 1) by (nonlinear_arith)
        requires
            x >= 1,
            y >= 1,
    ;
}

/// A product of a positive and a negative factor is negative.
proof fn lemma_pos_mul_neg(x: int, y: int)
    requires
        x >= 1,
        y <= -1,
    ensures
        x * y <= -1,
{
    assert(x * y <= -1) by (nonlinear_arith)
        requires
            x >= 1,
            y <= -1,
    ;
}

/// Product of an `i64` with a positive `i64`, in `i128`; the positive
/// factor keeps the magnitude strictly under a quarter of the `i128`
/// range, so two such products can be added without overflow.
fn mul_i64_by_den(x: i64, y: i64) -> (r: i128)
    requires
        y >= 1,
    ensures
        r == x * y,
        -0x3FFF_FFFF_FFFF_FFFF_8000_0000_0000_0000 <= r
            <= 0x3FFF_FFFF_FFFF_FFFF_8000_0000_0000_0000,
{
    proof {
        assert((x * y <= 0x3FFF_FFFF_FFFF_FFFF_8000_0000_0000_0000) && (x * y
            >= -0x3FFF_FFFF_FFFF_FFFF_8000_0000_0000_0000)) by (nonlinear_arith)
            requires
                -0x8000_0000_0000_0000 <= x <= 0x7FFF_FFFF_FFFF_FFFF,
                1 <= y <= 0x7FFF_FFFF_FFFF_FFFF,
        ;
    }
    x as i128 * y as i128
}

/// Product of two `i64`s, carried out in `i128` where it cannot overflow.
fn mul_i64(x: i64, y: i64) -> (r: i128)
    ensures
        r == x * y,
        -0x4000_0000_0000_0000_0000_0000_0000_0000 <= r
            <= 0x4000_0000_0000_0000_0000_0000_0000_0000,
{
    proof {
        assert((x * y <= 0x4000_0000_0000_0000_0000_0000_0000_0000) && (x * y
            >= -0x4000_0000_0000_0000_0000_0000_0000_0000)) by (nonlinear_arith)
            requires
                -0x8000_0000_0000_0000 <= x <= 0x7FFF_FFFF_FFFF_FFFF,
                -0x8000_0000_0000_0000 <= y <= 0x7FFF_FFFF_FFFF_FFFF,
        ;
    }
    x as i128 * y as i128
}

/// Range check and narrowing shared by the executable operations.
fn rat_make(n: i128, d: i128) -> (r: Result<Fraction, ArithmeticError>)
    ensures
        r == spec_rat_make(n as int, d as int),
{
    if n < i64::MIN as i128 || n > i64::MAX as i128 || d < i64::MIN as i128 || d > i64::MAX as i128 {
        Err(ArithmeticError::Overflow)
    } else if n == 0 {
        Ok(Fraction { num: 0, den: 1 })
    } else {
        Ok(Fraction { num: n as i64, den: d as i64 })
    }
}

pub fn rat_add(a: Fraction, b: Fraction) -> (r: Result<Fraction, ArithmeticError>)
    requires
        a.wf(),
        b.wf(),
    ensures
        r == spec_rat_add(a, b),
        r matches Ok(f) ==> f.wf(),
{
    let n = mul_i64_by_den(a.num, b.den) + mul_i64_by_den(b.num, a.den);
    let d = mul_i64(a.den, b.den);
    proof {
        lemma_pos_mul_pos(a.den as int, b.den as int);
    }
    rat_make(n, d)
}

pub fn rat_sub(a: Fraction, b: Fraction) -> (r: Result<Fraction, ArithmeticError>)
    requires
        a.wf(),
        b.wf(),
    ensures
        r == spec_rat_sub(a, b),
        r matches Ok(f) ==> f.wf(),
{
    let n = mul_i64_by_den(a.num, b.den) - mul_i64_by_den(b.num, a.den);
    let d = mul_i64(a.den, b.den);
    proof {
        lemma_pos_mul_pos(a.den as int, b.den as int);
    }
    rat_make(n, d)
}

pub fn rat_mul(a: Fraction, b: Fraction) -> (r: Result<Fraction, ArithmeticError>)
    requires
        a.wf(),
        b.wf(),
    ensures
        r == spec_rat_mul(a, b),
        r matches Ok(f) ==> f.wf(),
{
    let n = mul_i64(a.num, b.num);
    let d = mul_i64(a.den, b.den);
    proof {
        lemma_pos_mul_pos(a.den as int, b.den as int);
    }
    rat_make(n, d)
}

pub fn rat_div(a: Fraction, b: Fraction) -> (r: Result<Fraction, ArithmeticError>)
    requires
        a.wf(),
        b.wf(),
    ensures
        r == spec_rat_div(a, b),
        r matches Ok(f) ==> f.wf(),
{
    if b.num == 0 {
        Err(ArithmeticError::DivideByZero)
    } else if b.num < 0 {
        let n = -mul_i64(a.num, b.den);
        let d = -mul_i64(a.den, b.num);
        proof {
            lemma_pos_mul_neg(a.den as int, b.num as int);
        }
        rat_make(n, d)
    } else {
        let n = mul_i64(a.num, b.den);
        let d = mul_i64(a.den, b.num);
        proof {
            lemma_pos_mul_pos(a.den as int, b.num as int);
        }
        rat_make(n, d)
    }
}

} // verus!
