//! Whole-number arithmetic that the layout and the grid share: distances,
//! quotients rounded toward zero, and values held to what 64 bits can take.

use vstd::prelude::*;

verus! {

/// The distance between `a` and `b`.
pub open spec fn distance(a: int, b: int) -> int {
    if a >= b {
        a - b
    } else {
        b - a
    }
}

/// The quotient `a / b` rounded toward zero.
pub open spec fn quotient_toward_zero(a: int, b: int) -> int {
    if a >= 0 {
        a / b
    } else {
        -((-a) / b)
    }
}

/// The value of `v` held to what 64 bits can take.
pub open spec fn clamped(v: int) -> int {
    if v > i64::MAX {
        i64::MAX as int
    } else if v < i64::MIN {
        i64::MIN as int
    } else {
        v
    }
}

/// Whether `a` and `b` are less than `reach` apart.
pub fn within(a: i64, b: i64, reach: i64) -> (r: bool)
    ensures
        r == (distance(a as int, b as int) < reach),
{
    let d: i128 = a as i128 - b as i128;
    if d >= 0 {
        d < reach as i128
    } else {
        -d < reach as i128
    }
}

/// The value of `v` held to what 64 bits can take.
pub fn clamp(v: i128) -> (r: i64)
    ensures
        r == clamped(v as int),
{
    if v > i64::MAX as i128 {
        i64::MAX
    } else if v < i64::MIN as i128 {
        i64::MIN
    } else {
        v as i64
    }
}

/// The sum of `a` and `b`, held to what 64 bits can take.
pub fn add_clamped(a: i64, b: i64) -> (r: i64)
    ensures
        r == clamped(a + b),
{
    clamp(a as i128 + b as i128)
}

/// The quotient `a / b` rounded toward zero. It lies no further from zero
/// than `a` does.
pub fn divide(a: i128, b: i128) -> (q: i128)
    requires
        b > 0,
        a > i128::MIN,
    ensures
        q == quotient_toward_zero(a as int, b as int),
        -distance(a as int, 0) <= q <= distance(a as int, 0),
{
    if a >= 0 {
        let q = a / b;
        assert(0 <= q <= a) by (nonlinear_arith)
            requires
                q == a as int / b as int,
                a >= 0,
                b > 0,
        ;
        q
    } else {
        let q = (-a) / b;
        assert(0 <= q <= -a) by (nonlinear_arith)
            requires
                q == (-a) as int / b as int,
                -a >= 0,
                b > 0,
        ;
        -q
    }
}

} // verus!
