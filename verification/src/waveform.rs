//! Waveform shapes: the raw, full-scale sample of an oscillator at a phase.
//!
//! A phase is a position within one cycle, from 0 up to `PERIOD`; a raw
//! sample is a fixed-point amplitude from `-UNITY` to `UNITY`.

use vstd::prelude::*;
use crate::fixed::{UNITY, PERIOD, HALF_PERIOD};

verus! {

/// The shape of an oscillator's cycle.
#[derive(Clone, Copy, Debug, PartialEq, Eq, Structural)]
pub enum Waveform {
    /// A sine wave, starting at zero and rising.
    Sine,
    /// A linear ramp from `-UNITY` at the start of the cycle up to `UNITY`.
    Sawtooth,
    /// `UNITY` in the first half of the cycle, `-UNITY` in the second.
    Square,
}

/// The positive arch of the sine at `x` phase units into a half cycle,
/// by Bhaskara's rational approximation `16 t (1 - t) / (5 - 4 t (1 - t))`
/// with `t = x / HALF_PERIOD`, rounded down.
pub open spec fn sine_arch(x: int) -> int {
    let q = x * (HALF_PERIOD - x);
    (16 * q * UNITY) / (5 * HALF_PERIOD * HALF_PERIOD - 4 * q)
}

/// The sine wave at `phase`: the arch in the first half of the cycle and its
/// mirror image in the second.
pub open spec fn sine(phase: int) -> int {
    if phase < HALF_PERIOD {
        sine_arch(phase)
    } else {
        -sine_arch(phase - HALF_PERIOD)
    }
}

/// The sawtooth wave at `phase`: `2 * phase / PERIOD - 1` in units of
/// `UNITY`, rounded down.
pub open spec fn sawtooth(phase: int) -> int {
    (2 * UNITY * phase) / (PERIOD as int) - UNITY
}

/// The square wave at `phase`.
pub open spec fn square(phase: int) -> int {
    if phase < HALF_PERIOD {
        UNITY as int
    } else {
        -(UNITY as int)
    }
}

/// The raw sample of `waveform` at `phase`.
pub open spec fn raw(waveform: Waveform, phase: int) -> int {
    match waveform {
        Waveform::Sine => sine(phase),
        Waveform::Sawtooth => sawtooth(phase),
        Waveform::Square => square(phase),
    }
}

/// The sine arch stays between 0 and `UNITY`.
pub proof fn lemma_sine_arch_bounded(x: int)
    requires
        0 <= x < HALF_PERIOD,
    ensures
        0 <= sine_arch(x) <= UNITY,
{
    let h = HALF_PERIOD as int;
    let q = x * (h - x);
    let num = 16 * q * UNITY;
    let den = 5 * h * h - 4 * q;
    assert(0 <= q && 4 * q <= h * h) by (nonlinear_arith)
        requires
            0 <= x < h,
            q == x * (h - x),
    ;
    assert(h * h == 0x4000_0000_0000_0000) by (nonlinear_arith)
        requires
            h == 0x8000_0000,
    ;
    assert(num == UNITY * (16 * q)) by (nonlinear_arith)
        requires
            num == 16 * q * UNITY,
    ;
    assert(0 <= num <= UNITY * den) by (nonlinear_arith)
        requires
            num == UNITY * (16 * q),
            0 <= 16 * q <= den,
    ;
    vstd::arithmetic::div_mod::lemma_div_pos_is_pos(num, den);
    vstd::arithmetic::div_mod::lemma_div_is_ordered(num, UNITY * den, den);
    vstd::arithmetic::div_mod::lemma_div_multiples_vanish(UNITY as int, den);
}

/// No waveform leaves the range from `-UNITY` to `UNITY`.
pub proof fn lemma_raw_bounded(waveform: Waveform, phase: int)
    requires
        0 <= phase < PERIOD,
    ensures
        -UNITY <= raw(waveform, phase) <= UNITY,
{
    match waveform {
        Waveform::Sine => {
            if phase < HALF_PERIOD {
                lemma_sine_arch_bounded(phase);
            } else {
                lemma_sine_arch_bounded(phase - HALF_PERIOD);
            }
        },
        Waveform::Sawtooth => {
            lemma_sawtooth_is_half_phase(phase);
        },
        Waveform::Square => {},
    }
}

/// The sine wave is odd about the half cycle, and each arch is symmetric
/// about its middle.
pub proof fn lemma_sine_symmetry(phase: int)
    requires
        0 <= phase < HALF_PERIOD,
    ensures
        sine(phase + HALF_PERIOD) == -sine(phase),
        0 < phase ==> sine(HALF_PERIOD - phase) == sine(phase),
{
    let h = HALF_PERIOD as int;
    assert((h - phase) * (h - (h - phase)) == phase * (h - phase)) by (nonlinear_arith);
}

/// The sawtooth is half the phase, rounded down, less `UNITY`.
proof fn lemma_sawtooth_is_half_phase(phase: int)
    ensures
        sawtooth(phase) == phase / 2 - UNITY,
{
    assert(2 * UNITY * phase == 0x8000_0000 * phase) by (nonlinear_arith);
}

/// The waveforms at the quarter points of the cycle: the sine passes through
/// 0, `UNITY`, 0 and `-UNITY`; the sawtooth starts at `-UNITY` and crosses
/// zero at the half cycle; the square wave switches sign at the half cycle.
pub proof fn lemma_raw_landmarks()
    ensures
        sine(0) == 0,
        sine(HALF_PERIOD as int / 2) == UNITY,
        sine(HALF_PERIOD as int) == 0,
        sine(HALF_PERIOD + HALF_PERIOD as int / 2) == -UNITY,
        sawtooth(0) == -UNITY,
        sawtooth(HALF_PERIOD as int) == 0,
        sawtooth(PERIOD - 1) == UNITY - 1,
        square(0) == UNITY,
        square(HALF_PERIOD - 1) == UNITY,
        square(HALF_PERIOD as int) == -UNITY,
{
    let h = HALF_PERIOD as int;
    assert(5 * h * h == 0x1_4000_0000_0000_0000) by (nonlinear_arith)
        requires
            h == 0x8000_0000,
    ;
    let x: int = 0x4000_0000;
    let q = x * (h - x);
    assert(q == 0x1000_0000_0000_0000) by (nonlinear_arith)
        requires
            x == 0x4000_0000,
            h == 0x8000_0000,
            q == x * (h - x),
    ;
    assert(16 * q * UNITY == 0x4000_0000 * 0x1_0000_0000_0000_0000) by (nonlinear_arith)
        requires
            q == 0x1000_0000_0000_0000,
    ;
    let den = 5 * h * h - 4 * q;
    vstd::arithmetic::div_mod::lemma_div_multiples_vanish(0x4000_0000, den);
    lemma_sawtooth_is_half_phase(0);
    lemma_sawtooth_is_half_phase(h);
    lemma_sawtooth_is_half_phase(PERIOD - 1);
}

/// Evaluates `waveform` at `phase`.
pub fn sample_at(waveform: Waveform, phase: u32) -> (sample: i32)
    ensures
        sample == raw(waveform, phase as int),
        -UNITY <= sample <= UNITY,
{
    proof {
        lemma_raw_bounded(waveform, phase as int);
        lemma_sawtooth_is_half_phase(phase as int);
    }
    match waveform {
        Waveform::Sine => {
            if (phase as u64) < HALF_PERIOD {
                arch(phase) as i32
            } else {
                -(arch(phase - (HALF_PERIOD as u32)) as i32)
            }
        },
        Waveform::Sawtooth => {
            let ramp: u64 = (2 * (UNITY as u64) * (phase as u64)) / PERIOD;
            (ramp as i64 - UNITY as i64) as i32
        },
        Waveform::Square => {
            if (phase as u64) < HALF_PERIOD {
                UNITY as i32
            } else {
                -(UNITY as i32)
            }
        },
    }
}

/// Evaluates the sine arch at `x` phase units into a half cycle.
fn arch(x: u32) -> (value: u32)
    requires
        x < HALF_PERIOD,
    ensures
        value == sine_arch(x as int),
        value <= UNITY,
{
    let h: u128 = HALF_PERIOD as u128;
    proof {
        lemma_sine_arch_bounded(x as int);
        let q = (x as int) * (h - x);
        assert(0 <= q && 4 * q <= h * h) by (nonlinear_arith)
            requires
                0 <= x < h,
                q == (x as int) * (h - x),
        ;
        assert(h * h == 0x4000_0000_0000_0000) by (nonlinear_arith)
            requires
                h == 0x8000_0000,
        ;
    }
    let q: u128 = (x as u128) * (h - x as u128);
    let num: u128 = 16 * q * (UNITY as u128);
    let den: u128 = 5 * h * h - 4 * q;
    (num / den) as u32
}

} // verus!
