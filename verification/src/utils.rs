//! World constants, screen wrapping, clamped elapsed time, and the trusted
//! helpers through which wall-clock time, fresh ids and random numbers enter
//! the library.

use vstd::prelude::*;
use vstd::arithmetic::div_mod::{
    lemma_div_is_ordered, lemma_div_multiples_vanish, lemma_fundamental_div_mod,
    lemma_fundamental_div_mod_converse_mod, lemma_hoist_over_denominator,
    lemma_mod_add_multiples_vanish,
};

verus! {

/// Screen width in milli-units (640 world units).
pub const WIDTH: i64 = 640_000;

/// Screen height in milli-units (480 world units).
pub const HEIGHT: i64 = 480_000;

/// Elapsed time handed to any single physics step is clamped to this many
/// milliseconds, so that one stalled tick cannot overflow position updates.
pub const MAX_STEP_MS: i64 = 60_000;

/// Mathematical (euclidean) remainder: the result is in `[0, b)` for `b > 0`.
pub fn modulo(a: i64, b: i64) -> (r: i64)
    requires
        0 < b,
    ensures
        r == a as int % b as int,
        0 <= r < b,
{
    let m = a % b;
    if m < 0 {
        proof {
            // Rust's remainder is negated for a negative dividend; shift it
            // back into [0, b) and match it against the euclidean remainder.
            let q = (-a as int) / (b as int);
            let s = (-a as int) % (b as int);
            lemma_fundamental_div_mod(-a as int, b as int);
            assert((-q - 1) * (b as int) == -(b as int * q) - b) by (nonlinear_arith);
            lemma_fundamental_div_mod_converse_mod(a as int, b as int, -q - 1, b - s);
        }
        m + b
    } else {
        proof {
            if a < 0 {
                let q = (-a as int) / (b as int);
                lemma_fundamental_div_mod(-a as int, b as int);
                assert((-q) * (b as int) == -(b as int * q)) by (nonlinear_arith);
                lemma_fundamental_div_mod_converse_mod(a as int, b as int, -q, 0);
            }
        }
        m
    }
}

/// Floor division by a positive divisor (rounds toward negative infinity),
/// matching `/` on `int` in specifications.
pub fn floor_div(a: i64, b: i64) -> (r: i64)
    requires
        0 < b <= 1_000_000_000_000_000,
        -1_000_000_000_000_000 <= a <= 1_000_000_000_000_000,
    ensures
        r == a as int / b as int,
{
    let m = modulo(a, b);
    proof {
        lemma_fundamental_div_mod(a as int, b as int);
        lemma_div_multiples_vanish(a as int / b as int, b as int);
        if a as int - m < 0 {
            lemma_div_multiples_vanish(-(a as int / b as int), b as int);
            assert((b as int) * (-(a as int / b as int)) == -(a as int - m))
                by (nonlinear_arith)
                requires
                    a as int - m == (b as int) * (a as int / b as int),
            ;
        }
    }
    (a - m) / b
}

/// Rounds a milli-unit quantity to whole units, halves away from zero.
pub open spec fn round_to_units_spec(t: int) -> int {
    if t >= 0 {
        (t + 500) / 1000
    } else {
        -((-t + 500) / 1000)
    }
}

/// Rounds a milli-unit quantity to whole units, halves away from zero.
pub fn round_to_units(t: i64) -> (r: i64)
    requires
        -2_000_000_000_000_000 <= t <= 2_000_000_000_000_000,
    ensures
        r == round_to_units_spec(t as int),
{
    if t >= 0 {
        (t + 500) / 1000
    } else {
        -((-t + 500) / 1000)
    }
}

/// The screen-wrap function on one axis. `value` and `offset` are in
/// milli-units, `limit` is in whole units. The shifted coordinate is rounded
/// to whole units, wrapped into `[0, limit)`, and the rounded offset is
/// subtracted again, so the result is a whole-unit coordinate in milli-units.
pub open spec fn wrap_dim_spec(value: int, limit: int, offset: int) -> int {
    (round_to_units_spec(value + offset) % limit - round_to_units_spec(offset)) * 1000
}

/// Wrap a coordinate across one axis.
///
/// An entity of radius `offset` starts reappearing on the opposite edge
/// before fully leaving the `[0, limit)` band: the result always lies in
/// `[-offset_units, limit - offset_units)` whole units.
pub fn wrap_dim(value: i64, limit: i64, offset: i64) -> (r: i64)
    requires
        0 < limit <= 1_000_000,
        -1_000_000_000_000 <= value <= 1_000_000_000_000,
        0 <= offset <= 1_000_000_000,
    ensures
        r == wrap_dim_spec(value as int, limit as int, offset as int),
        -round_to_units_spec(offset as int) * 1000 <= r
            < (limit - round_to_units_spec(offset as int)) * 1000,
{
    let q = round_to_units(value + offset);
    let m = modulo(q, limit);
    let off_units = round_to_units(offset);
    (m - off_units) * 1000
}

/// Advancing a coordinate by one full wrap period (`limit` whole units) does
/// not change where it wraps to; applied twice, a coordinate that goes all
/// the way around the screen returns to its original wrapped position. The
/// single excluded family of inputs are shifted coordinates that are negative
/// and end exactly on a half unit, where rounding halves away from zero
/// breaks exact periodicity.
pub proof fn lemma_wrap_dim_periodic(value: int, limit: int, offset: int)
    requires
        0 < limit,
        value + offset >= 0 || (value + offset) % 1000 != 500,
    ensures
        wrap_dim_spec(value + 1000 * limit, limit, offset) == wrap_dim_spec(value, limit, offset),
{
    let t = value + offset;
    assert(round_to_units_spec(t + 1000 * limit) == round_to_units_spec(t) + limit) by {
        lemma_round_to_units_shift(t, limit);
    }
    assert((round_to_units_spec(t) + limit) % limit == round_to_units_spec(t) % limit) by {
        lemma_mod_add_multiples_vanish(round_to_units_spec(t), limit);
    }
}

proof fn lemma_round_to_units_shift(t: int, limit: int)
    requires
        0 < limit,
        t >= 0 || t % 1000 != 500,
    ensures
        round_to_units_spec(t + 1000 * limit) == round_to_units_spec(t) + limit,
{
    if t >= 0 {
        assert((t + 500 + limit * 1000) / 1000 == (t + 500) / 1000 + limit) by {
            lemma_hoist_over_denominator(t + 500, limit, 1000nat);
        }
    } else if t + 1000 * limit < 0 {
        assert((-t + 500 + (-limit) * 1000) / 1000 == (-t + 500) / 1000 - limit) by {
            lemma_hoist_over_denominator(-t + 500, -limit, 1000nat);
        }
    } else {
        // t < 0 <= t + 1000 * limit: write -t as 1000 * k + s with s != 500.
        let u = -t;
        let k = u / 1000;
        let s = u % 1000;
        lemma_fundamental_div_mod(u, 1000);
        assert(u == 1000 * k + s);
        assert(s != 500);
        // Left side: (500 - s + (limit - k) * 1000) / 1000.
        assert((500 - s + (limit - k) * 1000) / 1000 == (500 - s) / 1000 + (limit - k)) by {
            lemma_hoist_over_denominator(500 - s, limit - k, 1000nat);
        }
        assert(t + 1000 * limit + 500 == 500 - s + (limit - k) * 1000);
        // Right side: limit - (s + 500 + k * 1000) / 1000.
        assert((s + 500 + k * 1000) / 1000 == (s + 500) / 1000 + k) by {
            lemma_hoist_over_denominator(s + 500, k, 1000nat);
        }
        assert(u + 500 == s + 500 + k * 1000);
        if s < 500 {
            assert((500 - s) / 1000 == 0);
            assert((s + 500) / 1000 == 0);
        } else {
            assert(-1000 <= 500 - s < 0);
            assert((500 - s) / 1000 == -1);
            assert((s + 500) / 1000 == 1);
        }
    }
}

/// The elapsed time used by one physics step: never negative, never more
/// than [`MAX_STEP_MS`], so position updates stay in range even when the
/// clock jumps.
pub open spec fn elapsed_spec(prev: int, now: int) -> int {
    if now <= prev {
        0
    } else if now - prev > MAX_STEP_MS {
        MAX_STEP_MS as int
    } else {
        now - prev
    }
}

/// Clamped elapsed milliseconds between two timestamps.
pub fn elapsed_ms(prev: i64, now: i64) -> (dt: i64)
    ensures
        dt == elapsed_spec(prev as int, now as int),
        0 <= dt <= MAX_STEP_MS,
{
    let wide: i128 = now as i128 - prev as i128;
    if wide <= 0 {
        0
    } else if wide > MAX_STEP_MS as i128 {
        MAX_STEP_MS
    } else {
        wide as i64
    }
}

/// Relies on `chrono::Utc::now` and `DateTime::timestamp_millis`: the current
/// wall-clock time as milliseconds since the Unix epoch. Nothing is assumed
/// about the value.
#[verifier::external_body]
pub fn now_in_millis() -> i64 {
    chrono::Utc::now().timestamp_millis()
}

/// Relies on `uuid::Uuid::new_v4` and its `Display` form: a fresh random
/// UUID rendered in the 36-character hyphenated format.
#[verifier::external_body]
pub fn new_uuid() -> (r: String)
    ensures
        r@.len() == 36,
{
    uuid::Uuid::new_v4().to_string()
}

/// Relies on `uuid::Uuid::new_v4` and `Uuid::as_u64_pair`: a fresh random
/// UUID as its high and low 64-bit halves. Nothing is assumed about the
/// value.
#[verifier::external_body]
pub fn new_uuid_as_u64_pair() -> (u64, u64) {
    uuid::Uuid::new_v4().as_u64_pair()
}

/// Relies on `rand::random_range`: a uniformly random value in `[lo, hi)`
/// from the thread-local generator. The range must be non-empty, since
/// `random_range` panics on an empty range.
#[verifier::external_body]
pub fn rand_range(lo: i64, hi: i64) -> (r: i64)
    requires
        lo < hi,
    ensures
        lo <= r < hi,
{
    rand::random_range(lo..hi)
}


/// Division truncated toward zero, as Rust's `/` computes it on `i64`.
pub open spec fn tdiv(a: int, b: int) -> int {
    if a >= 0 {
        a / b
    } else {
        -((-a) / b)
    }
}

/// `v * dt / 1000`, truncated toward zero: the displacement over `dt`
/// milliseconds at `v` milli-units per second, itself in milli-units.
pub open spec fn scaled_spec(v: int, dt: int) -> int {
    tdiv(v * dt, 1000)
}

/// Displacement over `dt` milliseconds at velocity `v`.
pub fn scaled(v: i64, dt: i64) -> (r: i64)
    requires
        -1_000_000_000 <= v <= 1_000_000_000,
        0 <= dt <= MAX_STEP_MS,
    ensures
        r == scaled_spec(v as int, dt as int),
{
    proof {
        assert(-60_000_000_000_000 <= v * dt <= 60_000_000_000_000) by (nonlinear_arith)
            requires
                -1_000_000_000 <= v <= 1_000_000_000,
                0 <= dt <= 60_000,
        ;
    }
    (v * dt) / 1000
}

/// A velocity within `[-1000 k, 1000 k]` moves at most `k` milli-units per
/// millisecond: the displacement over `dt` is within `[-k dt, k dt]`.
pub proof fn lemma_scaled_bound(v: int, dt: int, k: int)
    requires
        -1000 * k <= v <= 1000 * k,
        0 <= k,
        0 <= dt,
    ensures
        -(k * dt) <= scaled_spec(v, dt) <= k * dt,
{
    let p = v * dt;
    assert(-(1000 * k * dt) <= p <= 1000 * k * dt) by (nonlinear_arith)
        requires
            -1000 * k <= v <= 1000 * k,
            0 <= dt,
            0 <= k,
            p == v * dt,
    ;
    lemma_div_multiples_vanish(k * dt, 1000);
    assert(1000 * (k * dt) == 1000 * k * dt) by (nonlinear_arith);
    if p >= 0 {
        lemma_div_is_ordered(p, 1000 * k * dt, 1000);
        assert(scaled_spec(v, dt) >= 0) by {
            vstd::arithmetic::div_mod::lemma_div_pos_is_pos(p, 1000);
        }
    } else {
        lemma_div_is_ordered(-p, 1000 * k * dt, 1000);
        assert(-p >= 0);
        vstd::arithmetic::div_mod::lemma_div_pos_is_pos(-p, 1000);
    }
}

/// One step of a filter-then-map pass over a prefix: extending the prefix by
/// one element either appends the mapped element (if it passes) or changes
/// nothing.
pub proof fn lemma_filter_map_step<A, B>(s: Seq<A>, i: int, pred: spec_fn(A) -> bool, f: spec_fn(A) -> B)
    requires
        0 <= i < s.len(),
    ensures
        pred(s[i]) ==> s.subrange(0, i + 1).filter(pred).map_values(f) =~= s.subrange(
            0,
            i,
        ).filter(pred).map_values(f).push(f(s[i])),
        !pred(s[i]) ==> s.subrange(0, i + 1).filter(pred).map_values(f) =~= s.subrange(
            0,
            i,
        ).filter(pred).map_values(f),
{
    let pre = s.subrange(0, i);
    let cur = s.subrange(0, i + 1);
    reveal_with_fuel(Seq::filter, 2);
    assert(cur.drop_last() =~= pre);
    assert(cur.last() == s[i]);
    assert(cur.filter(pred) == if pred(s[i]) {
        pre.filter(pred).push(s[i])
    } else {
        pre.filter(pred)
    });
}


/// Truncating division shrinks magnitudes: if `|a| <= k * b` then
/// `|a / b| <= k`.
pub proof fn lemma_tdiv_bound(a: int, b: int, k: int)
    requires
        0 < b,
        0 <= k,
        -(k * b) <= a <= k * b,
    ensures
        -k <= tdiv(a, b) <= k,
{
    lemma_div_multiples_vanish(k, b);
    assert(b * k == k * b) by (nonlinear_arith);
    if a >= 0 {
        lemma_div_is_ordered(a, k * b, b);
        vstd::arithmetic::div_mod::lemma_div_pos_is_pos(a, b);
    } else {
        lemma_div_is_ordered(-a, k * b, b);
        vstd::arithmetic::div_mod::lemma_div_pos_is_pos(-a, b);
    }
}


/// One step of a filter pass over a prefix: extending the prefix by one
/// element either appends it (if it passes) or changes nothing.
pub proof fn lemma_filter_step<A>(s: Seq<A>, i: int, pred: spec_fn(A) -> bool)
    requires
        0 <= i < s.len(),
    ensures
        pred(s[i]) ==> s.subrange(0, i + 1).filter(pred) =~= s.subrange(0, i).filter(pred).push(
            s[i],
        ),
        !pred(s[i]) ==> s.subrange(0, i + 1).filter(pred) =~= s.subrange(0, i).filter(pred),
{
    let pre = s.subrange(0, i);
    let cur = s.subrange(0, i + 1);
    reveal_with_fuel(Seq::filter, 2);
    assert(cur.drop_last() =~= pre);
    assert(cur.last() == s[i]);
}


/// A value clamped into `[lo, hi]`.
pub open spec fn clamp_spec(v: int, lo: int, hi: int) -> int {
    if v < lo {
        lo
    } else if v > hi {
        hi
    } else {
        v
    }
}

} // verus!
