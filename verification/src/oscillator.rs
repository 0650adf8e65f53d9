//! The oscillator: one voice, made of a phase accumulator and an envelope.

use vstd::prelude::*;
use crate::envelope::{Envelope, EnvelopeState, lemma_envelope_steps_wf, lemma_fresh_wf, rate_for};
use crate::fixed::{PERIOD, UNITY, scale, scaled, lemma_scaled_bounds, abs};
use crate::waveform::{Waveform, raw, sample_at, lemma_raw_bounded};

verus! {

/// The attack time of every voice, in milliseconds.
pub const ATTACK_MS: u32 = 10;

/// The release time of every voice, in milliseconds.
pub const RELEASE_MS: u32 = 500;

/// The phase advance per sample of a tone of `frequency` hundredths of a
/// hertz at `sample_rate` samples per second: `frequency / (100 *
/// sample_rate)` cycles, in phase units, rounded down and wrapped into one
/// cycle. A sample rate of zero gives no advance.
pub open spec fn phase_step(frequency: int, sample_rate: int) -> int {
    if sample_rate <= 0 {
        0
    } else {
        ((frequency * PERIOD) / (100 * sample_rate)) % (PERIOD as int)
    }
}

/// The phase one step of `increment` after `phase`, wrapped into one cycle.
pub open spec fn next_phase(phase: int, increment: int) -> int {
    if phase + increment >= PERIOD {
        phase + increment - PERIOD
    } else {
        phase + increment
    }
}

/// The mathematical state of an oscillator.
pub struct OscillatorState {
    pub phase: int,
    pub phase_increment: int,
    pub frequency: int,
    pub waveform: Waveform,
    pub sample_rate: int,
    pub envelope: EnvelopeState,
}

impl OscillatorState {
    /// A new voice: at the start of its cycle, with a fresh envelope.
    pub open spec fn fresh(frequency: int, waveform: Waveform, sample_rate: int) -> OscillatorState {
        OscillatorState {
            phase: 0,
            phase_increment: phase_step(frequency, sample_rate),
            frequency,
            waveform,
            sample_rate,
            envelope: EnvelopeState::fresh(ATTACK_MS as int, RELEASE_MS as int, sample_rate),
        }
    }

    /// The phase lies within one cycle, the phase increment is the one that
    /// the frequency and the sample rate give, and the envelope is
    /// well-formed, with the rates that the attack and release times give at
    /// the sample rate.
    pub open spec fn wf(self) -> bool {
        &&& 0 <= self.phase < PERIOD
        &&& 0 <= self.frequency <= u32::MAX
        &&& 0 <= self.sample_rate <= u32::MAX
        &&& self.phase_increment == phase_step(self.frequency, self.sample_rate)
        &&& self.envelope.wf()
        &&& self.envelope.attack_rate == rate_for(ATTACK_MS as int, self.sample_rate)
        &&& self.envelope.release_rate == rate_for(RELEASE_MS as int, self.sample_rate)
    }

    /// The oscillator retuned to `frequency`; the phase is kept.
    pub open spec fn set_frequency(self, frequency: int) -> OscillatorState {
        OscillatorState {
            frequency,
            phase_increment: phase_step(frequency, self.sample_rate),
            ..self
        }
    }

    /// The oscillator back at the start of its cycle.
    pub open spec fn reset_phase(self) -> OscillatorState {
        OscillatorState { phase: 0, ..self }
    }

    /// The oscillator struck again at `frequency`: retuned, back at the start
    /// of its cycle, its envelope attacking again from the level it has.
    pub open spec fn restart(self, frequency: int) -> OscillatorState {
        OscillatorState {
            envelope: self.envelope.retrigger(),
            ..self.set_frequency(frequency).reset_phase()
        }
    }

    /// The oscillator with its envelope released.
    pub open spec fn start_release(self) -> OscillatorState {
        OscillatorState { envelope: self.envelope.release(), ..self }
    }

    /// The waveform's value at the current phase.
    pub open spec fn raw_sample(self) -> int {
        raw(self.waveform, self.phase)
    }

    /// The oscillator one phase step later.
    pub open spec fn advance_phase(self) -> OscillatorState {
        OscillatorState { phase: next_phase(self.phase, self.phase_increment), ..self }
    }

    /// The oscillator with its envelope one sample later.
    pub open spec fn tick_envelope(self) -> OscillatorState {
        OscillatorState { envelope: self.envelope.tick(), ..self }
    }

    /// The sample that the oscillator puts out next: the waveform at the
    /// current phase, attenuated by the level that the envelope has after its
    /// tick.
    pub open spec fn output(self) -> int {
        scaled(self.envelope.tick().level, self.raw_sample())
    }

    /// The oscillator one sample later: envelope ticked, phase advanced.
    pub open spec fn step(self) -> OscillatorState {
        self.tick_envelope().advance_phase()
    }

    /// The oscillator `n` samples later.
    pub open spec fn steps(self, n: nat) -> OscillatorState
        decreases n,
    {
        if n == 0 {
            self
        } else {
            self.steps((n - 1) as nat).step()
        }
    }

    /// Whether the voice has finished sounding.
    pub open spec fn is_done(self) -> bool {
        self.envelope.is_done()
    }
}

/// A phase step lies within one cycle.
pub proof fn lemma_phase_step_bounded(frequency: int, sample_rate: int)
    ensures
        0 <= phase_step(frequency, sample_rate) < PERIOD,
{
}

/// A new voice is well-formed and has not finished.
pub proof fn lemma_fresh_oscillator_wf(frequency: int, waveform: Waveform, sample_rate: int)
    requires
        0 <= frequency <= u32::MAX,
        0 <= sample_rate <= u32::MAX,
    ensures
        OscillatorState::fresh(frequency, waveform, sample_rate).wf(),
        !OscillatorState::fresh(frequency, waveform, sample_rate).is_done(),
{
    lemma_fresh_wf(ATTACK_MS as int, RELEASE_MS as int, sample_rate);
    lemma_phase_step_bounded(frequency, sample_rate);
}

/// The phase of an oscillator after `n` steps is its phase plus `n` phase
/// increments, wrapped into one cycle: the phase accumulates no error,
/// however long the oscillator runs.
pub proof fn lemma_phase_after_steps(o: OscillatorState, n: nat)
    requires
        o.wf(),
    ensures
        o.steps(n).phase == (o.phase + n * o.phase_increment) % (PERIOD as int),
        o.steps(n).phase_increment == o.phase_increment,
    decreases n,
{
    let inc = o.phase_increment;
    let period = PERIOD as int;
    lemma_phase_step_bounded(o.frequency, o.sample_rate);
    if n == 0 {
        vstd::arithmetic::div_mod::lemma_small_mod(o.phase as nat, period as nat);
    } else {
        let before = o.steps((n - 1) as nat);
        lemma_phase_after_steps(o, (n - 1) as nat);
        let sum = o.phase + (n - 1) * inc;
        assert(sum + inc == o.phase + n * inc) by (nonlinear_arith)
            requires
                sum == o.phase + (n - 1) * inc,
        ;
        vstd::arithmetic::div_mod::lemma_mod_bound(sum, period);
        vstd::arithmetic::div_mod::lemma_add_mod_noop(sum, inc, period);
        vstd::arithmetic::div_mod::lemma_small_mod(inc as nat, period as nat);
        let wrapped = sum % period + inc;
        if wrapped >= period {
            vstd::arithmetic::div_mod::lemma_mod_sub_multiples_vanish(wrapped, period);
            vstd::arithmetic::div_mod::lemma_small_mod((wrapped - period) as nat, period as nat);
        } else {
            vstd::arithmetic::div_mod::lemma_small_mod(wrapped as nat, period as nat);
        }
    }
}

/// Every operation keeps an oscillator well-formed.
pub proof fn lemma_oscillator_steps_wf(o: OscillatorState, frequency: int)
    requires
        o.wf(),
        0 <= frequency <= u32::MAX,
    ensures
        o.set_frequency(frequency).wf(),
        o.reset_phase().wf(),
        o.restart(frequency).wf(),
        o.start_release().wf(),
        o.advance_phase().wf(),
        o.tick_envelope().wf(),
        o.step().wf(),
{
    lemma_envelope_steps_wf(o.envelope, 0);
    lemma_phase_step_bounded(frequency, o.sample_rate);
    lemma_phase_step_bounded(o.frequency, o.sample_rate);
}

/// The sample an oscillator puts out is no louder than its envelope's level
/// after the tick, and so never leaves the range from `-UNITY` to `UNITY`.
pub proof fn lemma_output_bounded(o: OscillatorState)
    requires
        o.wf(),
    ensures
        abs(o.output()) <= o.envelope.tick().level,
        -UNITY <= o.output() <= UNITY,
        o.step().is_done() ==> o.output() == 0,
{
    lemma_envelope_steps_wf(o.envelope, 0);
    lemma_raw_bounded(o.waveform, o.phase);
    lemma_scaled_bounds(o.envelope.tick().level, o.raw_sample());
}

/// One voice: a phase accumulator that sweeps a waveform at a fixed
/// frequency, shaped by an attack/release envelope.
#[derive(Clone, Copy, Debug)]
pub struct Oscillator {
    phase: u32,
    phase_increment: u32,
    frequency: u32,
    waveform: Waveform,
    sample_rate: u32,
    envelope: Envelope,
}

impl View for Oscillator {
    type V = OscillatorState;

    closed spec fn view(&self) -> OscillatorState {
        OscillatorState {
            phase: self.phase as int,
            phase_increment: self.phase_increment as int,
            frequency: self.frequency as int,
            waveform: self.waveform,
            sample_rate: self.sample_rate as int,
            envelope: self.envelope@,
        }
    }
}

/// Computes the phase advance per sample of a tone of `frequency` hundredths
/// of a hertz at `sample_rate` samples per second.
pub fn phase_increment_for(frequency: u32, sample_rate: u32) -> (increment: u32)
    ensures
        increment == phase_step(frequency as int, sample_rate as int),
{
    if sample_rate == 0 {
        0
    } else {
        assert(frequency * PERIOD <= 0xffff_ffff * 0x1_0000_0000) by (nonlinear_arith)
            requires
                frequency <= 0xffff_ffff,
                PERIOD == 0x1_0000_0000,
        ;
        let cycles: u64 = (frequency as u64) * PERIOD;
        let per_sample: u64 = cycles / (100 * (sample_rate as u64));
        (per_sample % PERIOD) as u32
    }
}

impl Oscillator {
    /// Whether the oscillator satisfies its invariant.
    pub open spec fn wf(&self) -> bool {
        self@.wf()
    }

    /// Creates a voice of `frequency` hundredths of a hertz with the given
    /// waveform, for output at `sample_rate` samples per second. It starts
    /// silent at the beginning of its cycle, about to attack.
    pub fn new(frequency: u32, waveform: Waveform, sample_rate: u32) -> (osc: Oscillator)
        ensures
            osc.wf(),
            osc@ == OscillatorState::fresh(frequency as int, waveform, sample_rate as int),
    {
        Oscillator {
            phase: 0,
            phase_increment: phase_increment_for(frequency, sample_rate),
            frequency,
            waveform,
            sample_rate,
            envelope: Envelope::new(ATTACK_MS, RELEASE_MS, sample_rate),
        }
    }

    /// Moves the phase back to the start of the cycle.
    pub fn reset_phase(&mut self)
        requires
            old(self).wf(),
        ensures
            final(self).wf(),
            final(self)@ == old(self)@.reset_phase(),
    {
        self.phase = 0;
    }

    /// Strikes the voice again at `frequency`: retunes it, moves the phase
    /// back to the start of the cycle and restarts the attack from the level
    /// the envelope has.
    pub fn restart(&mut self, frequency: u32)
        requires
            old(self).wf(),
        ensures
            final(self).wf(),
            final(self)@ == old(self)@.restart(frequency as int),
    {
        self.set_frequency(frequency);
        self.reset_phase();
        self.envelope.retrigger();
    }

    /// Retunes the voice to `frequency` hundredths of a hertz; the phase is
    /// kept.
    pub fn set_frequency(&mut self, frequency: u32)
        requires
            old(self).wf(),
        ensures
            final(self).wf(),
            final(self)@ == old(self)@.set_frequency(frequency as int),
    {
        self.frequency = frequency;
        self.phase_increment = phase_increment_for(frequency, self.sample_rate);
    }

    /// Releases the voice: its envelope starts to fall from the level it has.
    /// Does nothing if the voice is already released.
    pub fn start_release(&mut self)
        requires
            old(self).wf(),
        ensures
            final(self).wf(),
            final(self)@ == old(self)@.start_release(),
    {
        self.envelope.release();
    }

    /// Advances the envelope by one sample and returns `sample` attenuated by
    /// the envelope's new level.
    pub fn apply_envelope(&mut self, sample: i32) -> (shaped: i32)
        requires
            old(self).wf(),
        ensures
            final(self).wf(),
            final(self)@ == old(self)@.tick_envelope(),
            shaped == scaled(final(self)@.envelope.level, sample as int),
    {
        let level = self.envelope.tick();
        scale(level, sample)
    }

    /// Evaluates the waveform at the current phase.
    pub fn raw_sample(&self) -> (sample: i32)
        requires
            self.wf(),
        ensures
            sample == self@.raw_sample(),
            -UNITY <= sample <= UNITY,
    {
        sample_at(self.waveform, self.phase)
    }

    /// Advances the phase by one sample, wrapping at the end of the cycle.
    pub fn advance_phase(&mut self)
        requires
            old(self).wf(),
        ensures
            final(self).wf(),
            final(self)@ == old(self)@.advance_phase(),
    {
        let sum: u64 = self.phase as u64 + self.phase_increment as u64;
        if sum >= PERIOD {
            self.phase = (sum - PERIOD) as u32;
        } else {
            self.phase = sum as u32;
        }
    }

    /// Produces the voice's next sample and moves the voice on by one sample:
    /// the waveform at the current phase, shaped by the envelope after its
    /// tick.
    pub fn sample_and_advance(&mut self) -> (sample: i32)
        requires
            old(self).wf(),
        ensures
            final(self).wf(),
            final(self)@ == old(self)@.step(),
            sample == old(self)@.output(),
            -UNITY <= sample <= UNITY,
    {
        proof {
            lemma_output_bounded(self@);
        }
        let raw = self.raw_sample();
        let shaped = self.apply_envelope(raw);
        self.advance_phase();
        shaped
    }

    /// Whether the voice has finished sounding.
    pub fn is_done(&self) -> (done: bool)
        ensures
            done == self@.is_done(),
    {
        self.envelope.is_done()
    }

    /// The current phase, in units of `1 / PERIOD` of a cycle.
    pub fn phase(&self) -> (phase: u32)
        ensures
            phase == self@.phase,
    {
        self.phase
    }

    /// The phase advance per sample.
    pub fn phase_increment(&self) -> (increment: u32)
        ensures
            increment == self@.phase_increment,
    {
        self.phase_increment
    }

    /// The frequency, in hundredths of a hertz.
    pub fn frequency(&self) -> (frequency: u32)
        ensures
            frequency == self@.frequency,
    {
        self.frequency
    }

    /// The waveform.
    pub fn waveform(&self) -> (waveform: Waveform)
        ensures
            waveform == self@.waveform,
    {
        self.waveform
    }

    /// The output sample rate, in samples per second.
    pub fn sample_rate(&self) -> (rate: u32)
        ensures
            rate == self@.sample_rate,
    {
        self.sample_rate
    }

    /// The envelope.
    pub fn envelope(&self) -> (envelope: &Envelope)
        ensures
            envelope@ == self@.envelope,
    {
        &self.envelope
    }
}

} // verus!
