//! Fixed-point arithmetic shared by the whole engine.
//!
//! Amplitudes and envelope levels are integers in units of `1 / UNITY`, so
//! that `UNITY` stands for 1.0 and every operation is exact and reproducible.
//! Phases are integers in units of `1 / PERIOD` of a waveform cycle.

use vstd::prelude::*;

verus! {

/// The fixed-point representation of the amplitude 1.0.
pub const UNITY: u32 = 0x4000_0000;

/// The number of phase units in one full waveform cycle.
pub const PERIOD: u64 = 0x1_0000_0000;

/// The number of phase units in half a waveform cycle.
pub const HALF_PERIOD: u64 = 0x8000_0000;

/// Quotient of `a` by a positive `b`, rounded toward zero.
pub open spec fn trunc_div(a: int, b: int) -> int
    recommends
        b > 0,
{
    if a >= 0 {
        a / b
    } else {
        -((-a) / b)
    }
}

/// Quotient of a non-negative `a` by a positive `b`, rounded up.
pub open spec fn ceil_div(a: int, b: int) -> int
    recommends
        a >= 0,
        b > 0,
{
    (a + b - 1) / b
}

/// `x` limited to the interval from `lo` to `hi`.
pub open spec fn clamp(x: int, lo: int, hi: int) -> int
    recommends
        lo <= hi,
{
    if x < lo {
        lo
    } else if x > hi {
        hi
    } else {
        x
    }
}

/// The magnitude of `x`.
pub open spec fn abs(x: int) -> int {
    if x < 0 {
        -x
    } else {
        x
    }
}

/// The sample `sample` attenuated by the gain `level / UNITY`, rounded
/// toward zero.
pub open spec fn scaled(level: int, sample: int) -> int {
    trunc_div(level * sample, UNITY as int)
}

/// Attenuation never amplifies: a gain of at most 1.0 yields a sample that is
/// no larger than the input, has the input's sign, and is the input itself at
/// full gain and silence at zero gain.
pub proof fn lemma_scaled_bounds(level: int, sample: int)
    requires
        0 <= level <= UNITY,
    ensures
        abs(scaled(level, sample)) <= abs(sample),
        sample >= 0 ==> scaled(level, sample) >= 0,
        sample <= 0 ==> scaled(level, sample) <= 0,
        scaled(level, -sample) == -scaled(level, sample),
        scaled(UNITY as int, sample) == sample,
        scaled(0, sample) == 0,
        abs(sample) <= UNITY ==> abs(scaled(level, sample)) <= level,
{
    let p = level * sample;
    let m = level * abs(sample);
    assert(0 <= m <= UNITY * abs(sample)) by (nonlinear_arith)
        requires
            0 <= level <= UNITY,
            m == level * abs(sample),
            abs(sample) >= 0,
    ;
    assert(abs(sample) <= UNITY ==> m <= level * UNITY) by (nonlinear_arith)
        requires
            0 <= level,
            m == level * abs(sample),
            abs(sample) >= 0,
    ;
    assert(p == if sample >= 0 { m } else { -m }) by (nonlinear_arith)
        requires
            p == level * sample,
            m == level * abs(sample),
            abs(sample) == if sample < 0 { -sample } else { sample },
    ;
    assert(level * (-sample) == -p) by (nonlinear_arith)
        requires
            p == level * sample,
    ;
}

/// Rounding a quotient up adds one exactly where the division leaves a
/// remainder, and the result is the least multiplier that reaches `a`.
pub proof fn lemma_ceil_div(a: int, b: int)
    requires
        a >= 0,
        b > 0,
    ensures
        ceil_div(a, b) == if a % b == 0 {
            a / b
        } else {
            a / b + 1
        },
        ceil_div(a, b) * b >= a,
        (ceil_div(a, b) - 1) * b < a,
        a > 0 ==> ceil_div(a, b) >= 1,
{
    let q = a / b;
    let r = a % b;
    vstd::arithmetic::div_mod::lemma_fundamental_div_mod(a, b);
    vstd::arithmetic::div_mod::lemma_mod_bound(a, b);
    if r == 0 {
        vstd::arithmetic::div_mod::lemma_fundamental_div_mod_converse(a + b - 1, b, q, b - 1);
        assert((q - 1) * b == b * q - b) by (nonlinear_arith);
    } else {
        assert(a + b - 1 == b * (q + 1) + (r - 1)) by (nonlinear_arith)
            requires
                a + b - 1 == b * q + (r + b - 1),
        ;
        vstd::arithmetic::div_mod::lemma_fundamental_div_mod_converse(a + b - 1, b, q + 1, r - 1);
    }
    if a > 0 && ceil_div(a, b) < 1 {
        assert(ceil_div(a, b) * b <= 0) by (nonlinear_arith)
            requires
                ceil_div(a, b) <= 0,
                b > 0,
        ;
    }
}

/// A rounded-up quotient does not exceed any multiplier that reaches `a`.
pub proof fn lemma_ceil_div_bound(a: int, b: int, k: int)
    requires
        a >= 0,
        b > 0,
        k * b >= a,
    ensures
        ceil_div(a, b) <= k,
{
    lemma_ceil_div(a, b);
    let c = ceil_div(a, b);
    if c > k {
        assert((c - 1) * b >= k * b) by (nonlinear_arith)
            requires
                c - 1 >= k,
                b > 0,
        ;
    }
}

/// Attenuates `sample` by the gain `level / UNITY`.
pub fn scale(level: u32, sample: i32) -> (r: i32)
    requires
        level <= UNITY,
    ensures
        r == scaled(level as int, sample as int),
{
    proof {
        lemma_scaled_bounds(level as int, sample as int);
    }
    let wide: i64 = (level as i64) * (sample as i64);
    (wide / (UNITY as i64)) as i32
}

} // verus!
