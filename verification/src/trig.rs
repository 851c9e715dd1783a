//! Fixed-point sine and cosine on angles in milliradians.
//!
//! Every sinusoid in the pipeline (interference lines, glyph rotation, wave
//! distortion) is computed over integers: an angle is given in thousandths of
//! a radian and the result is the sine scaled by 1000. The half wave on
//! [0, pi] is the classical rational approximation 16x(pi - x) / (5 pi^2 -
//! 4x(pi - x)), evaluated with pi represented as 3142 milliradians.

use vstd::prelude::*;

verus! {

/// The approximating half wave at `x` in [0, 3142], scaled by 1000.
pub open spec fn half_wave(x: int) -> int {
    (16000 * x * (3142 - x)) / (49363220 - 4 * x * (3142 - x))
}

/// Sine of an angle in milliradians, scaled by 1000: the angle is reduced
/// modulo one full turn (6283), the first half turn takes the positive half
/// wave, the second the negative one.
pub open spec fn sine_milli(a: int) -> int {
    let m = a % 6283;
    if m < 3142 {
        half_wave(m)
    } else {
        -half_wave(m - 3142)
    }
}

/// Cosine of an angle in milliradians, scaled by 1000: sine a quarter turn on.
pub open spec fn cosine_milli(a: int) -> int {
    sine_milli(a + 1571)
}

/// The half wave never leaves [0, 1000].
pub proof fn lemma_half_wave_bounds(x: int)
    requires
        0 <= x <= 3142,
    ensures
        0 <= half_wave(x) <= 1000,
        half_wave(x) == 16000 * (x * (3142 - x)) / (49363220 - 4 * (x * (3142 - x))),
{
    let t = x * (3142 - x);
    assert(0 <= t <= 2468041) by (nonlinear_arith)
        requires
            0 <= x <= 3142,
            t == x * (3142 - x),
    {
    }
    let num = 16000 * t;
    let den = 49363220 - 4 * t;
    assert(den >= 39490000);
    assert(num >= 0);
    assert(num / den >= 0);
    assert(num < 1001 * den) by (nonlinear_arith)
        requires
            0 <= t <= 2468041,
            num == 16000 * t,
            den == 49363220 - 4 * t,
    {
    }
    assert(num / den < 1001) by (nonlinear_arith)
        requires
            num >= 0,
            den > 0,
            num < 1001 * den,
    {
    }
    assert(16000 * x * (3142 - x) == num) by (nonlinear_arith)
        requires
            t == x * (3142 - x),
            num == 16000 * t,
    {
    }
    assert(49363220 - 4 * x * (3142 - x) == den) by (nonlinear_arith)
        requires
            t == x * (3142 - x),
            den == 49363220 - 4 * t,
    {
    }
    assert(half_wave(x) == num / den);
}

/// Shifting the angle by a full turn leaves the sine unchanged.
pub proof fn lemma_sine_periodic(a: int)
    ensures
        sine_milli(a + 6283) == sine_milli(a),
{
    assert((a + 6283) % 6283 == a % 6283) by {
        vstd::arithmetic::div_mod::lemma_mod_add_multiples_vanish(a, 6283);
    }
}

/// The half wave, executable.
fn half_wave_exec(x: i64) -> (r: i64)
    requires
        0 <= x <= 3142,
    ensures
        r == half_wave(x as int),
        0 <= r <= 1000,
{
    proof {
        lemma_half_wave_bounds(x as int);
        assert(0 <= (x as int) * (3142 - x as int) <= 2468041) by (nonlinear_arith)
            requires 0 <= x <= 3142,
        {
        }
    }
    let t: i64 = x * (3142 - x);
    let num: i64 = 16000 * t;
    let den: i64 = 49363220 - 4 * t;
    num / den
}

/// Sine of a non-negative angle in milliradians, scaled by 1000.
pub fn sine_milli_exec(a: i64) -> (r: i64)
    requires
        0 <= a,
    ensures
        r == sine_milli(a as int),
        -1000 <= r <= 1000,
{
    let m: i64 = a % 6283;
    if m < 3142 {
        half_wave_exec(m)
    } else {
        let h = half_wave_exec(m - 3142);
        -h
    }
}

/// Integer division truncating toward zero, as a float-to-integer cast does.
pub open spec fn trunc_div(a: int, b: int) -> int {
    if a >= 0 {
        a / b
    } else {
        -((-a) / b)
    }
}

/// Truncating division, executable; the result never grows past the dividend.
pub fn div_trunc(a: i64, b: i64) -> (r: i64)
    requires
        1 <= b,
        i64::MIN < a,
    ensures
        r == trunc_div(a as int, b as int),
        a >= 0 ==> 0 <= r <= a,
        a < 0 ==> a <= r <= 0,
{
    if a >= 0 {
        proof {
            vstd::arithmetic::div_mod::lemma_div_is_ordered_by_denominator(a as int, 1, b as int);
            vstd::arithmetic::div_mod::lemma_div_pos_is_pos(a as int, b as int);
        }
        a / b
    } else {
        let n: i64 = -a;
        proof {
            vstd::arithmetic::div_mod::lemma_div_is_ordered_by_denominator(n as int, 1, b as int);
            vstd::arithmetic::div_mod::lemma_div_pos_is_pos(n as int, b as int);
        }
        -(n / b)
    }
}

/// Flooring division, executable; `int` division already rounds down, the
/// executable `/` rounds toward zero, so the negative case is adjusted.
pub fn div_floor(a: i64, b: i64) -> (r: i64)
    requires
        1 <= b,
        i64::MIN < a,
    ensures
        r == (a as int) / (b as int),
        a >= 0 ==> 0 <= r <= a,
        a < 0 ==> a <= r <= 0,
{
    if a >= 0 {
        proof {
            vstd::arithmetic::div_mod::lemma_div_is_ordered_by_denominator(a as int, 1, b as int);
            vstd::arithmetic::div_mod::lemma_div_pos_is_pos(a as int, b as int);
        }
        a / b
    } else {
        let p: i64 = -a;
        proof {
            vstd::arithmetic::div_mod::lemma_div_is_ordered_by_denominator(p as int, 1, b as int);
            vstd::arithmetic::div_mod::lemma_div_pos_is_pos(p as int, b as int);
            vstd::arithmetic::div_mod::lemma_fundamental_div_mod(p as int, b as int);
        }
        let q: i64 = p / b;
        let rem: i64 = p % b;
        if rem == 0 {
            proof {
                assert(a as int == (-(q as int)) * (b as int) + 0) by (nonlinear_arith)
                    requires
                        a == -(p as int),
                        p as int == (b as int) * (q as int) + (rem as int),
                        rem == 0,
                {
                }
                vstd::arithmetic::div_mod::lemma_fundamental_div_mod_converse(
                    a as int,
                    b as int,
                    -(q as int),
                    0,
                );
            }
            -q
        } else {
            proof {
                assert(a as int == (-(q as int) - 1) * (b as int) + ((b as int) - (rem as int)))
                    by (nonlinear_arith)
                    requires
                        a == -(p as int),
                        p as int == (b as int) * (q as int) + (rem as int),
                {
                }
                vstd::arithmetic::div_mod::lemma_fundamental_div_mod_converse(
                    a as int,
                    b as int,
                    -(q as int) - 1,
                    (b - rem) as int,
                );
                assert(q <= q * (b as int)) by (nonlinear_arith)
                    requires
                        q >= 0,
                        b >= 1,
                {
                }
            }
            -q - 1
        }
    }
}

/// Cosine of an angle in milliradians, scaled by 1000.
pub fn cosine_milli_exec(a: i64) -> (r: i64)
    requires
        -1571 <= a <= 0x7fff_ffff,
    ensures
        r == cosine_milli(a as int),
        -1000 <= r <= 1000,
{
    sine_milli_exec(a + 1571)
}

/// Sine of an angle that may be slightly negative, evaluated one full turn
/// on, which the periodicity of the model shows is the same value.
pub fn sine_milli_signed(a: i64) -> (r: i64)
    requires
        -6283 <= a <= 0x7fff_ffff,
    ensures
        r == sine_milli(a as int),
        -1000 <= r <= 1000,
{
    let r = sine_milli_exec(a + 6283);
    proof {
        lemma_sine_periodic(a as int);
    }
    r
}

} // verus!
