//! Integer arithmetic shared by the formulas.

use vstd::prelude::*;

verus! {

/// The quotient rounded towards zero.
pub open spec fn quot(a: int, b: int) -> int {
    if a >= 0 {
        a / b
    } else {
        -((-a) / b)
    }
}

/// The quotient rounded up, of numbers that are not negative.
pub open spec fn ceil_div(a: int, b: int) -> int {
    (a + b - 1) / b
}

pub open spec fn max_int(a: int, b: int) -> int {
    if a >= b {
        a
    } else {
        b
    }
}

pub open spec fn min_int(a: int, b: int) -> int {
    if a <= b {
        a
    } else {
        b
    }
}

/// Whether a number fits a 32-bit signed integer.
pub open spec fn fits_i32(a: int) -> bool {
    i32::MIN <= a <= i32::MAX
}

/// The number nearest to `a` that fits a 32-bit signed integer.
pub open spec fn sat_i32(a: int) -> int {
    if a > i32::MAX {
        i32::MAX as int
    } else if a < i32::MIN {
        i32::MIN as int
    } else {
        a
    }
}

/// The number nearest to `a` that fits a 32-bit signed integer.
pub fn saturated(a: i64) -> (r: i32)
    ensures
        r == sat_i32(a as int),
{
    if a > i32::MAX as i64 {
        i32::MAX
    } else if a < i32::MIN as i64 {
        i32::MIN
    } else {
        a as i32
    }
}

/// Dividing by a positive number brings a number no further from zero.
pub proof fn lemma_quot_bound(a: int, b: int)
    requires
        b >= 1,
    ensures
        a >= 0 ==> 0 <= quot(a, b) <= a,
        a < 0 ==> a <= quot(a, b) <= 0,
{
    let m = if a >= 0 { a } else { -a };
    assert(0 <= m / b <= m) by (nonlinear_arith)
        requires
            b >= 1,
            m >= 0,
    ;
}

/// The larger of two numbers.
pub fn max_i32(a: i32, b: i32) -> (r: i32)
    ensures
        r == max_int(a as int, b as int),
{
    if a >= b {
        a
    } else {
        b
    }
}

/// The smaller of two numbers.
pub fn min_i32(a: i32, b: i32) -> (r: i32)
    ensures
        r == min_int(a as int, b as int),
{
    if a <= b {
        a
    } else {
        b
    }
}

/// The greater and the lesser of two numbers are those numbers, in order.
pub proof fn law_greater_and_lesser(a: int, b: int)
    ensures
        min_int(a, b) <= a <= max_int(a, b),
        min_int(a, b) <= b <= max_int(a, b),
        min_int(a, b) + max_int(a, b) == a + b,
{
}

/// A number that fits stays as it is, and one that does not goes to the edge that it has passed.
pub proof fn law_saturation_keeps_what_fits(a: int)
    ensures
        -0x8000_0000 <= a <= 0x7fff_ffff ==> sat_i32(a) == a,
        a > 0x7fff_ffff ==> sat_i32(a) == 0x7fff_ffff,
        a < -0x8000_0000 ==> sat_i32(a) == -0x8000_0000,
        fits_i32(a) <==> -0x8000_0000 <= a <= 0x7fff_ffff,
{
}

/// The quotient rounded up is the least number of parts that is enough, and the quotient rounded
/// down the greatest number of parts that there are.
pub proof fn law_quotients_round_as_they_say(a: int, b: int)
    requires
        a >= 0,
        b > 0,
    ensures
        (ceil_div(a, b) - 1) * b < a <= ceil_div(a, b) * b,
        quot(a, b) * b <= a < (quot(a, b) + 1) * b,
        quot(-a, b) == -quot(a, b),
{
    let c = ceil_div(a, b);
    let q = quot(a, b);
    assert((c - 1) * b < a <= c * b) by (nonlinear_arith)
        requires
            c == (a + b - 1) / b,
            a >= 0,
            b > 0,
    ;
    assert(q * b <= a < (q + 1) * b) by (nonlinear_arith)
        requires
            q == a / b,
            a >= 0,
            b > 0,
    ;
}

} // verus!
