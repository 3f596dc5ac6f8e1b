//! Fixed-point sample and gain arithmetic.
//!
//! A gain is a non-negative integer measured in millionths: `SCALE`
//! (1_000_000) is a gain of one. Applying a gain to a sample multiplies the
//! two and divides by `SCALE`, truncating toward zero.

use vstd::arithmetic::div_mod::{lemma_div_is_ordered, lemma_div_multiples_vanish};
use vstd::arithmetic::mul::lemma_mul_inequality;
use vstd::prelude::*;

verus! {

/// Number of fixed-point units in a gain of one (or in one millisecond).
pub const SCALE: i64 = 1_000_000;

/// Mathematical meaning of applying gain `g` (in `SCALE` units) to sample
/// `v`: `v * g / SCALE`, truncated toward zero.
pub open spec fn fx(v: int, g: int) -> int {
    if v >= 0 {
        (v * g) / (SCALE as int)
    } else {
        -(((-v) * g) / (SCALE as int))
    }
}

/// A zero gain annihilates every sample.
pub proof fn lemma_fx_zero(v: int)
    ensures
        fx(v, 0) == 0,
{
    assert(v * 0 == 0) by (nonlinear_arith);
    assert((-v) * 0 == 0) by (nonlinear_arith);
}

/// A zero sample stays zero under any gain.
pub proof fn lemma_fx_of_zero(g: int)
    ensures
        fx(0, g) == 0,
{
    assert(0 * g == 0) by (nonlinear_arith);
}

/// A gain of one (`SCALE`) is the identity.
pub proof fn lemma_fx_one(v: int)
    ensures
        fx(v, SCALE as int) == v,
{
    if v >= 0 {
        lemma_div_multiples_vanish(v, SCALE as int);
    } else {
        lemma_div_multiples_vanish(-v, SCALE as int);
    }
}

/// Applying gain `g` to a sample of magnitude at most `b` yields a sample of
/// magnitude at most `b * g / SCALE`; in particular, a gain of at most one
/// never increases the magnitude.
pub proof fn lemma_fx_bound(v: int, g: int, b: int)
    requires
        0 <= g,
        -b <= v <= b,
    ensures
        -((b * g) / (SCALE as int)) <= fx(v, g) <= (b * g) / (SCALE as int),
        g <= SCALE ==> -b <= fx(v, g) <= b,
{
    if v >= 0 {
        lemma_mul_inequality(v, b, g);
        lemma_div_is_ordered(v * g, b * g, SCALE as int);
        assert(0 <= v * g) by (nonlinear_arith)
            requires
                0 <= v,
                0 <= g,
        ;
        lemma_div_is_ordered(0, v * g, SCALE as int);
    } else {
        lemma_mul_inequality(-v, b, g);
        lemma_div_is_ordered((-v) * g, b * g, SCALE as int);
        assert(0 <= (-v) * g) by (nonlinear_arith)
            requires
                v < 0,
                0 <= g,
        ;
        lemma_div_is_ordered(0, (-v) * g, SCALE as int);
    }
    if g <= SCALE {
        assert(b * g <= b * SCALE) by (nonlinear_arith)
            requires
                0 <= b,
                g <= SCALE,
        ;
        lemma_div_is_ordered(b * g, b * SCALE, SCALE as int);
        lemma_div_multiples_vanish(b, SCALE as int);
    }
}

/// Applies gain `g` to sample `v`, truncating toward zero.
pub fn scale_gain(v: i64, g: i64) -> (r: i64)
    requires
        0 <= g,
        -i64::MAX <= v,
        -(i64::MAX as int) <= v * g <= i64::MAX as int,
    ensures
        r == fx(v as int, g as int),
{
    if v >= 0 {
        let p: u64 = (v as u64) * (g as u64);
        proof {
            lemma_div_is_ordered(0, v * g, SCALE as int);
            lemma_div_is_ordered(v * g, i64::MAX as int, SCALE as int);
        }
        (p / (SCALE as u64)) as i64
    } else {
        proof {
            assert((-v) * g == -(v * g)) by (nonlinear_arith);
        }
        let m: u64 = ((-v) as u64) * (g as u64);
        proof {
            lemma_div_is_ordered(0, (-v) * g, SCALE as int);
            lemma_div_is_ordered((-v) * g, i64::MAX as int, SCALE as int);
        }
        -((m / (SCALE as u64)) as i64)
    }
}

} // verus!
