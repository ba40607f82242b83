//! The interpolation curve used by the text animations.
//!
//! Time fractions and curve values are fixed-point integers: `EASE_ONE`
//! stands for 1.0. The curve is a quartic approximation of the "ease in
//! sine" shape `1 - cos(t * pi / 2)`, chosen so that its endpoints and
//! monotonicity can be stated and proved exactly over the integers.

use vstd::prelude::*;
use vstd::arithmetic::div_mod::{lemma_div_is_ordered, lemma_div_by_multiple, lemma_div_pos_is_pos};

verus! {

/// One whole unit of eased or elapsed time, in fixed point.
pub const EASE_ONE: u64 = 4096;

/// `round((pi^2 / 8) * EASE_ONE)`: coefficient of the quadratic term.
pub const SINE_Q2: u64 = 5053;

/// `round((pi^4 / 384) * EASE_ONE)`: coefficient of the quartic term.
pub const SINE_Q4: u64 = 1039;

/// Numerator of the eased value before dividing by `EASE_ONE^4`; the
/// polynomial `SINE_Q2 * EASE_ONE^2 * t^2 - SINE_Q4 * t^4`, written with
/// the literal coefficients (`16777216` is `EASE_ONE * EASE_ONE`).
pub open spec fn sine_curve_num(t: int) -> int {
    5053 * 16777216 * (t * t) - 1039 * (t * t) * (t * t)
}

/// `EASE_ONE^4`, the denominator of the eased value.
pub open spec fn ease_one_pow4() -> int {
    16777216int * 16777216
}

/// The eased fraction for a time fraction `t` in `0 ..= EASE_ONE`:
/// approximately `EASE_ONE * (1 - cos((t / EASE_ONE) * pi / 2))`, with the
/// value pinned to exactly `EASE_ONE` from `t == EASE_ONE` on.
pub open spec fn spec_in_sine(t: int) -> int {
    if t >= EASE_ONE as int {
        EASE_ONE as int
    } else {
        sine_curve_num(t) / ease_one_pow4()
    }
}

proof fn lemma_sine_num_nonneg(t: int)
    requires
        0 <= t <= EASE_ONE as int,
    ensures
        sine_curve_num(t) >= 0,
{
    assert((5053 as int) * ((4096 * 4096) as int) * (t * t) - (1039 as int) * (t * t) * (t * t)
        >= 0) by (nonlinear_arith)
        requires
            0 <= t <= 4096,
    ;
}

proof fn lemma_sine_num_monotonic(t1: int, t2: int)
    requires
        0 <= t1 <= t2 <= EASE_ONE as int,
    ensures
        sine_curve_num(t1) <= sine_curve_num(t2),
{
    assert((5053 as int) * ((4096 * 4096) as int) * (t1 * t1) - (1039 as int) * (t1 * t1) * (t1
        * t1) <= (5053 as int) * ((4096 * 4096) as int) * (t2 * t2) - (1039 as int) * (t2 * t2)
        * (t2 * t2)) by (nonlinear_arith)
        requires
            0 <= t1 <= t2 <= 4096,
    ;
}

/// The eased fraction always lies in `0 ..= EASE_ONE`.
pub proof fn lemma_in_sine_bounds(t: int)
    requires
        0 <= t,
    ensures
        0 <= spec_in_sine(t) <= EASE_ONE as int,
{
    if t < EASE_ONE as int {
        lemma_sine_num_nonneg(t);
        lemma_sine_num_monotonic(t, EASE_ONE as int);
        lemma_div_pos_is_pos(sine_curve_num(t), ease_one_pow4());
        lemma_div_is_ordered(sine_curve_num(t), sine_curve_num(EASE_ONE as int), ease_one_pow4());
        assert(sine_curve_num(EASE_ONE as int) == 4014 * ease_one_pow4()) by (nonlinear_arith)
            requires
                EASE_ONE == 4096,
        ;
        lemma_div_by_multiple(4014, ease_one_pow4());
    }
}

/// The eased fraction never decreases as the time fraction grows.
pub proof fn lemma_in_sine_monotonic(t1: int, t2: int)
    requires
        0 <= t1 <= t2,
    ensures
        spec_in_sine(t1) <= spec_in_sine(t2),
{
    if t2 < EASE_ONE as int {
        lemma_sine_num_monotonic(t1, t2);
        lemma_div_is_ordered(sine_curve_num(t1), sine_curve_num(t2), ease_one_pow4());
    } else {
        lemma_in_sine_bounds(t1);
    }
}

/// A zero time fraction eases to zero.
pub proof fn lemma_in_sine_zero()
    ensures
        spec_in_sine(0) == 0,
{
    assert(sine_curve_num(0) == 0) by (nonlinear_arith);
    assert(spec_in_sine(0) == 0int / ease_one_pow4());
}

/// The eased equivalent of a time fraction `val` in `0 ..= EASE_ONE`; inputs
/// above one whole unit are treated as one whole unit.
pub fn in_sine(val: u64) -> (r: u64)
    ensures
        r == spec_in_sine(val as int),
        r <= EASE_ONE,
{
    proof {
        lemma_in_sine_bounds(val as int);
    }
    if val >= EASE_ONE {
        EASE_ONE
    } else {
        proof {
            assert((val as int) * (val as int) < 16777216) by (nonlinear_arith)
                requires
                    0 <= (val as int) < 4096,
            ;
        }
        let t2: u64 = val * val;
        proof {
            assert((SINE_Q2 as int) * ((EASE_ONE as int) * (EASE_ONE as int)) * (t2 as int)
                < 0x8000_0000_0000_0000 && (SINE_Q2 as int) * ((EASE_ONE as int) * (EASE_ONE
                as int)) < 0x8000_0000_0000_0000 && (EASE_ONE as int) * (EASE_ONE as int)
                == 16777216) by (nonlinear_arith)
                requires
                    SINE_Q2 == 5053,
                    EASE_ONE == 4096,
                    0 <= (t2 as int) < 16777216,
            ;
            assert((SINE_Q4 as int) * (t2 as int) * (t2 as int) < 0x8000_0000_0000_0000
                && (SINE_Q4 as int) * (t2 as int) < 0x8000_0000_0000_0000) by (nonlinear_arith)
                requires
                    SINE_Q4 == 1039,
                    0 <= (t2 as int) < 16777216,
            ;
            lemma_sine_num_nonneg(val as int);
        }
        let quad: u64 = SINE_Q2 * (EASE_ONE * EASE_ONE) * t2;
        let quart: u64 = SINE_Q4 * t2 * t2;
        proof {
            assert((quad as int) - (quart as int) == sine_curve_num(val as int))
                by (nonlinear_arith)
                requires
                    SINE_Q2 == 5053,
                    SINE_Q4 == 1039,
                    EASE_ONE == 4096,
                    (t2 as int) == (val as int) * (val as int),
                    (quad as int) == (SINE_Q2 as int) * ((EASE_ONE as int) * (EASE_ONE as int))
                        * (t2 as int),
                    (quart as int) == (SINE_Q4 as int) * (t2 as int) * (t2 as int),
            ;
        }
        let den: u64 = (EASE_ONE * EASE_ONE) * (EASE_ONE * EASE_ONE);
        proof {
            assert((den as int) == ease_one_pow4()) by (nonlinear_arith)
                requires
                    EASE_ONE == 4096,
                    (den as int) == ((EASE_ONE * EASE_ONE) as int) * ((EASE_ONE * EASE_ONE)
                        as int),
            ;
        }
        (quad - quart) / den
    }
}

} // verus!
