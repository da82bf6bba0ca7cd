//! Fixed-point trigonometry on milli-degree angles, and an exact integer
//! square root.
//!
//! `sin_mdeg` and `cos_mdeg` return the sine and cosine scaled by 1000,
//! computed with Bhaskara's rational approximation on the half period. The
//! approximation itself is the specification: contracts elsewhere speak of
//! [`sin_mdeg_spec`] and [`cos_mdeg_spec`] exactly, and the values are always
//! within `[-1000, 1000]`.

use vstd::prelude::*;
use vstd::arithmetic::div_mod::{lemma_div_is_ordered, lemma_div_multiples_vanish};
use crate::utils::modulo;

verus! {

/// One full turn in milli-degrees.
pub const FULL_TURN: i64 = 360_000;

/// Half a turn in milli-degrees.
pub const HALF_TURN: i64 = 180_000;

/// A quarter turn in milli-degrees.
pub const QUARTER_TURN: i64 = 90_000;

/// Bhaskara's approximation of `1000 * sin(x)` for `x` in the first half
/// turn, written over the milli-degree product `x * (180_000 - x)`.
pub open spec fn sin_half_turn_spec(x: int) -> int {
    4000 * (x * (180_000 - x)) / (40_500_000_000 - x * (180_000 - x))
}

/// `1000 * sin(a)` for an arbitrary milli-degree angle: the angle is reduced
/// to one turn and the second half turn mirrors the first with opposite sign.
pub open spec fn sin_mdeg_spec(a: int) -> int {
    let x = a % 360_000;
    if x <= 180_000 {
        sin_half_turn_spec(x)
    } else {
        -sin_half_turn_spec(x - 180_000)
    }
}

/// `1000 * cos(a)`: the sine shifted by a quarter turn.
pub open spec fn cos_mdeg_spec(a: int) -> int {
    sin_mdeg_spec(a + 90_000)
}

fn sin_half_turn(x: i64) -> (r: i64)
    requires
        0 <= x <= 180_000,
    ensures
        r == sin_half_turn_spec(x as int),
        0 <= r <= 1000,
{
    proof {
        assert(0 <= x * (180_000 - x) <= 8_100_000_000) by (nonlinear_arith)
            requires
                0 <= x <= 180_000,
        ;
    }
    let t = x * (180_000 - x);
    let num = 4000 * t;
    let den = 40_500_000_000 - t;
    proof {
        // num <= 1000 * den, since 5000 * t <= 40_500_000_000_000.
        lemma_div_is_ordered(num as int, 1000 * den as int, den as int);
        lemma_div_multiples_vanish(1000, den as int);
        assert(den as int * 1000 == 1000 * den as int) by (nonlinear_arith);
    }
    num / den
}

/// Sine of a milli-degree angle, scaled by 1000.
pub fn sin_mdeg(a: i64) -> (r: i64)
    ensures
        r == sin_mdeg_spec(a as int),
        -1000 <= r <= 1000,
{
    let x = modulo(a, FULL_TURN);
    if x <= HALF_TURN {
        sin_half_turn(x)
    } else {
        -sin_half_turn(x - HALF_TURN)
    }
}

/// Cosine of a milli-degree angle, scaled by 1000.
pub fn cos_mdeg(a: i64) -> (r: i64)
    requires
        a <= i64::MAX - 90_000,
    ensures
        r == cos_mdeg_spec(a as int),
        -1000 <= r <= 1000,
{
    sin_mdeg(a + QUARTER_TURN)
}

/// The integer square root as a mathematical value: the unique `r >= 0`
/// with `r * r <= n < (r + 1) * (r + 1)`.
pub open spec fn isqrt_spec(n: int) -> int {
    choose|r: int| 0 <= r && #[trigger] (r * r) <= n < (r + 1) * (r + 1)
}

/// There is only one integer square root.
pub proof fn lemma_isqrt_unique(n: int, a: int, b: int)
    requires
        0 <= a,
        0 <= b,
        a * a <= n < (a + 1) * (a + 1),
        b * b <= n < (b + 1) * (b + 1),
    ensures
        a == b,
{
    assert(a == b) by (nonlinear_arith)
        requires
            0 <= a,
            0 <= b,
            a * a <= n < (a + 1) * (a + 1),
            b * b <= n < (b + 1) * (b + 1),
    ;
}

/// The exact integer square root: the largest `r` with `r * r <= n`.
pub fn isqrt(n: i64) -> (r: i64)
    requires
        0 <= n <= 4_000_000_000_000_000_000,
    ensures
        r * r <= n < (r + 1) * (r + 1),
        0 <= r <= 2_000_000_000,
        r == isqrt_spec(n as int),
{
    let mut lo: i64 = 0;
    let mut hi: i64 = 2_000_000_000;
    proof {
        assert((2_000_000_000 + 1) * (2_000_000_000 + 1) > 4_000_000_000_000_000_000int)
            by (nonlinear_arith);
    }
    while lo < hi
        invariant
            0 <= lo <= hi <= 2_000_000_000,
            lo * lo <= n,
            n < (hi + 1) * (hi + 1),
        decreases hi - lo,
    {
        let mid = lo + (hi - lo + 1) / 2;
        proof {
            assert(mid * mid <= 4_000_000_000_000_000_000) by (nonlinear_arith)
                requires
                    0 <= mid <= 2_000_000_000,
            ;
        }
        if mid * mid <= n {
            lo = mid;
        } else {
            hi = mid - 1;
        }
    }
    proof {
        assert(exists|r: int| 0 <= r && #[trigger] (r * r) <= n < (r + 1) * (r + 1)) by {
            assert(0 <= lo as int && lo as int * lo as int <= n < (lo as int + 1) * (lo as int
                + 1));
        }
        lemma_isqrt_unique(n as int, lo as int, isqrt_spec(n as int));
    }
    lo
}

/// The square root of a sum of squares is at least as large as either
/// summand's magnitude.
pub proof fn lemma_isqrt_dominates(r: int, dx: int, dy: int)
    requires
        r >= 0,
        dx * dx + dy * dy < (r + 1) * (r + 1),
    ensures
        -r <= dx <= r,
        -r <= dy <= r,
{
    assert(-r <= dx <= r && -r <= dy <= r) by (nonlinear_arith)
        requires
            r >= 0,
            dx * dx + dy * dy < (r + 1) * (r + 1),
    ;
}

} // verus!
