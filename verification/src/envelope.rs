//! The attack/release envelope: a per-voice amplitude-shaping state machine.
//!
//! An envelope rises linearly from silence to full level (attack), holds
//! (sustain), falls linearly back to silence once released (release) and is
//! then finished (done). Levels are fixed-point gains between 0 and `UNITY`.

use vstd::prelude::*;
use crate::fixed::{UNITY, ceil_div, lemma_ceil_div, lemma_ceil_div_bound};

verus! {

/// The stage an envelope is in.
#[derive(Clone, Copy, Debug, PartialEq, Eq, Structural)]
pub enum Stage {
    /// The level rises by the attack rate on every tick.
    Attack,
    /// The level stays at `UNITY`.
    Sustain,
    /// The level falls by the release rate on every tick.
    Release,
    /// The level has reached zero after a release; the voice is silent.
    Done,
}

/// The mathematical state of an envelope.
pub struct EnvelopeState {
    pub stage: Stage,
    pub level: int,
    pub attack_rate: int,
    pub release_rate: int,
}

/// The level change per sample that covers the full scale in `time_ms`
/// milliseconds at `sample_rate` samples per second: `UNITY * 1000 /
/// (sample_rate * time_ms)`, rounded up, and `UNITY` where the time is
/// shorter than one sample.
pub open spec fn rate_for(time_ms: int, sample_rate: int) -> int {
    let span = sample_rate * time_ms;
    if span <= 1000 {
        UNITY as int
    } else {
        ceil_div(1000 * UNITY, span)
    }
}

impl EnvelopeState {
    /// A fresh envelope: silent, about to attack.
    pub open spec fn fresh(attack_ms: int, release_ms: int, sample_rate: int) -> EnvelopeState {
        EnvelopeState {
            stage: Stage::Attack,
            level: 0,
            attack_rate: rate_for(attack_ms, sample_rate),
            release_rate: rate_for(release_ms, sample_rate),
        }
    }

    /// The level lies between 0 and `UNITY`, both rates are positive steps of
    /// at most `UNITY`, a sustained envelope is at full level and a finished
    /// one is silent.
    pub open spec fn wf(self) -> bool {
        &&& 0 <= self.level <= UNITY
        &&& 1 <= self.attack_rate <= UNITY
        &&& 1 <= self.release_rate <= UNITY
        &&& self.stage is Sustain ==> self.level == UNITY
        &&& self.stage is Done ==> self.level == 0
    }

    /// The envelope one sample later.
    pub open spec fn tick(self) -> EnvelopeState {
        match self.stage {
            Stage::Attack => {
                if self.level + self.attack_rate >= UNITY {
                    EnvelopeState { stage: Stage::Sustain, level: UNITY as int, ..self }
                } else {
                    EnvelopeState { level: self.level + self.attack_rate, ..self }
                }
            },
            Stage::Release => {
                if self.level - self.release_rate <= 0 {
                    EnvelopeState { stage: Stage::Done, level: 0, ..self }
                } else {
                    EnvelopeState { level: self.level - self.release_rate, ..self }
                }
            },
            Stage::Sustain | Stage::Done => self,
        }
    }

    /// The envelope `n` samples later.
    pub open spec fn ticks(self, n: nat) -> EnvelopeState
        decreases n,
    {
        if n == 0 {
            self
        } else {
            self.ticks((n - 1) as nat).tick()
        }
    }

    /// The envelope after a release trigger: an attacking or sustained
    /// envelope starts to fall from the level it has; a released or finished
    /// one is unchanged.
    pub open spec fn release(self) -> EnvelopeState {
        match self.stage {
            Stage::Attack | Stage::Sustain => EnvelopeState { stage: Stage::Release, ..self },
            Stage::Release | Stage::Done => self,
        }
    }

    /// The envelope after a retrigger: it attacks again, starting from the
    /// level it has.
    pub open spec fn retrigger(self) -> EnvelopeState {
        EnvelopeState { stage: Stage::Attack, ..self }
    }

    /// Whether the envelope has finished.
    pub open spec fn is_done(self) -> bool {
        self.stage is Done
    }
}

/// An attack/release envelope.
#[derive(Clone, Copy, Debug)]
pub struct Envelope {
    stage: Stage,
    level: u32,
    attack_rate: u32,
    release_rate: u32,
}

impl View for Envelope {
    type V = EnvelopeState;

    closed spec fn view(&self) -> EnvelopeState {
        EnvelopeState {
            stage: self.stage,
            level: self.level as int,
            attack_rate: self.attack_rate as int,
            release_rate: self.release_rate as int,
        }
    }
}

/// Computes the level change per sample for a stage that lasts `time_ms`
/// milliseconds at `sample_rate` samples per second.
pub fn rate(time_ms: u32, sample_rate: u32) -> (r: u32)
    ensures
        r == rate_for(time_ms as int, sample_rate as int),
        1 <= r <= UNITY,
{
    assert(sample_rate * time_ms <= 0xffff_ffff * 0xffff_ffff) by (nonlinear_arith)
        requires
            sample_rate <= 0xffff_ffff,
            time_ms <= 0xffff_ffff,
    ;
    let span: u64 = (sample_rate as u64) * (time_ms as u64);
    if span <= 1000 {
        UNITY
    } else {
        let full: u64 = 1000 * (UNITY as u64);
        let quotient: u64 = full / span;
        let rounded: u64 = if full % span == 0 {
            quotient
        } else {
            quotient + 1
        };
        proof {
            lemma_ceil_div(full as int, span as int);
            assert(rounded <= UNITY) by {
                lemma_ceil_div_bound(full as int, span as int, UNITY as int);
            }
        }
        rounded as u32
    }
}

impl Envelope {
    /// Whether the envelope satisfies its invariant.
    pub open spec fn wf(&self) -> bool {
        self@.wf()
    }

    /// Creates an envelope that attacks for `attack_ms` milliseconds and
    /// releases for `release_ms` milliseconds at `sample_rate` samples per
    /// second. It starts silent, in the attack stage.
    pub fn new(attack_ms: u32, release_ms: u32, sample_rate: u32) -> (env: Envelope)
        ensures
            env.wf(),
            env@ == EnvelopeState::fresh(attack_ms as int, release_ms as int, sample_rate as int),
    {
        Envelope {
            stage: Stage::Attack,
            level: 0,
            attack_rate: rate(attack_ms, sample_rate),
            release_rate: rate(release_ms, sample_rate),
        }
    }

    /// Restarts the attack from the current level.
    pub fn retrigger(&mut self)
        requires
            old(self).wf(),
        ensures
            final(self).wf(),
            final(self)@ == old(self)@.retrigger(),
    {
        self.stage = Stage::Attack;
    }

    /// Starts the release from the current level; does nothing if the
    /// envelope is already released or finished.
    pub fn release(&mut self)
        requires
            old(self).wf(),
        ensures
            final(self).wf(),
            final(self)@ == old(self)@.release(),
    {
        match self.stage {
            Stage::Attack | Stage::Sustain => {
                self.stage = Stage::Release;
            },
            Stage::Release | Stage::Done => {},
        }
    }

    /// Advances the envelope by one sample and returns the new level.
    pub fn tick(&mut self) -> (level: u32)
        requires
            old(self).wf(),
        ensures
            final(self).wf(),
            final(self)@ == old(self)@.tick(),
            level == final(self)@.level,
    {
        match self.stage {
            Stage::Attack => {
                if self.level + self.attack_rate >= UNITY {
                    self.level = UNITY;
                    self.stage = Stage::Sustain;
                } else {
                    self.level = self.level + self.attack_rate;
                }
            },
            Stage::Release => {
                if self.level <= self.release_rate {
                    self.level = 0;
                    self.stage = Stage::Done;
                } else {
                    self.level = self.level - self.release_rate;
                }
            },
            Stage::Sustain | Stage::Done => {},
        }
        self.level
    }

    /// Whether the envelope has finished.
    pub fn is_done(&self) -> (done: bool)
        ensures
            done == self@.is_done(),
    {
        self.stage == Stage::Done
    }

    /// The current stage.
    pub fn stage(&self) -> (stage: Stage)
        ensures
            stage == self@.stage,
    {
        self.stage
    }

    /// The current level, between 0 and `UNITY`.
    pub fn level(&self) -> (level: u32)
        ensures
            level == self@.level,
    {
        self.level
    }

    /// The level gained per sample while attacking.
    pub fn attack_rate(&self) -> (rate: u32)
        ensures
            rate == self@.attack_rate,
    {
        self.attack_rate
    }

    /// The level lost per sample while releasing.
    pub fn release_rate(&self) -> (rate: u32)
        ensures
            rate == self@.release_rate,
    {
        self.release_rate
    }
}

/// Ticking, releasing and retriggering keep an envelope well-formed, and
/// leave its rates as they are.
pub proof fn lemma_envelope_steps_wf(e: EnvelopeState, n: nat)
    requires
        e.wf(),
    ensures
        e.tick().wf(),
        e.release().wf(),
        e.retrigger().wf(),
        e.ticks(n).wf(),
        e.ticks(n).attack_rate == e.attack_rate,
        e.ticks(n).release_rate == e.release_rate,
    decreases n,
{
    if n > 0 {
        lemma_envelope_steps_wf(e, (n - 1) as nat);
    }
}

/// Ticking `m` times and then `n` times is ticking `m + n` times.
pub proof fn lemma_ticks_add(e: EnvelopeState, m: nat, n: nat)
    ensures
        e.ticks(m).ticks(n) == e.ticks(m + n),
    decreases n,
{
    if n > 0 {
        lemma_ticks_add(e, m, (n - 1) as nat);
    }
}

/// A second release trigger changes nothing: the envelope, and with it every
/// later level, is the same as after the first.
pub proof fn lemma_release_idempotent(e: EnvelopeState, n: nat)
    ensures
        e.release().release() == e.release(),
        e.release().release().ticks(n) == e.release().ticks(n),
{
}

/// Releasing keeps the level, and the first tick after it lowers the level
/// by at most one release step: the level never jumps, whatever stage the
/// release interrupts.
pub proof fn lemma_release_is_continuous(e: EnvelopeState)
    requires
        e.wf(),
    ensures
        e.release().level == e.level,
        e.level - e.release_rate <= e.release().tick().level <= e.level,
        e.stage is Attack ==> e.release().stage is Release,
{
}

/// Retriggering keeps the level, and the first tick after it raises the
/// level by at most one attack step.
pub proof fn lemma_retrigger_is_continuous(e: EnvelopeState)
    requires
        e.wf(),
    ensures
        e.retrigger().stage is Attack,
        e.retrigger().level == e.level,
        e.level <= e.retrigger().tick().level <= e.level + e.attack_rate,
{
}

/// One tick moves the level by at most one attack step upward or one
/// release step downward.
pub proof fn lemma_tick_is_continuous(e: EnvelopeState)
    requires
        e.wf(),
    ensures
        e.level - e.release_rate <= e.tick().level <= e.level + e.attack_rate,
{
}

/// The level of a released envelope after `n` ticks is the level it was
/// released at less `n` release steps, and zero once that is used up; it
/// falls strictly until it is zero, and the envelope is finished from the
/// first tick on which it is.
pub proof fn lemma_release_falls(e: EnvelopeState, n: nat)
    requires
        e.wf(),
        e.stage is Release,
    ensures
        e.ticks(n).level == if e.level - n * e.release_rate > 0 {
            e.level - n * e.release_rate
        } else {
            0
        },
        e.ticks(n).stage == if n == 0 || e.level - n * e.release_rate > 0 {
            Stage::Release
        } else {
            Stage::Done
        },
        e.ticks(n).level > 0 ==> e.ticks(n + 1).level < e.ticks(n).level,
        e.ticks(n + 1).level <= e.ticks(n).level,
    decreases n,
{
    let r = e.release_rate;
    lemma_envelope_steps_wf(e, n);
    if n > 0 {
        lemma_release_falls(e, (n - 1) as nat);
        lemma_envelope_steps_wf(e, (n - 1) as nat);
        assert((n - 1) * r == n * r - r) by (nonlinear_arith);
    } else {
        assert(0 * r == 0) by (nonlinear_arith);
    }
}

/// A released envelope is finished, at level zero, after at most
/// `ceil(UNITY / release_rate)` ticks, and stays so.
pub proof fn lemma_release_completes(e: EnvelopeState, n: nat)
    requires
        e.wf(),
        e.stage is Release,
        n >= ceil_div(UNITY as int, e.release_rate),
    ensures
        e.ticks(n).is_done(),
        e.ticks(n).level == 0,
{
    let r = e.release_rate;
    lemma_ceil_div(UNITY as int, r);
    lemma_release_falls(e, n);
    assert(n * r >= UNITY) by (nonlinear_arith)
        requires
            n >= ceil_div(UNITY as int, r),
            ceil_div(UNITY as int, r) * r >= UNITY,
            r >= 1,
    ;
}

/// The level of an attacking envelope after `n` ticks is the level it
/// started at plus `n` attack steps, and `UNITY` once that is reached; the
/// envelope is sustained from the first tick on which it is.
pub proof fn lemma_attack_rises(e: EnvelopeState, n: nat)
    requires
        e.wf(),
        e.stage is Attack,
    ensures
        e.ticks(n).level == if e.level + n * e.attack_rate < UNITY {
            e.level + n * e.attack_rate
        } else {
            UNITY as int
        },
        e.ticks(n).stage == if n == 0 || e.level + n * e.attack_rate < UNITY {
            Stage::Attack
        } else {
            Stage::Sustain
        },
    decreases n,
{
    let r = e.attack_rate;
    if n > 0 {
        lemma_attack_rises(e, (n - 1) as nat);
        lemma_envelope_steps_wf(e, (n - 1) as nat);
        assert((n - 1) * r == n * r - r) by (nonlinear_arith);
    }
}

/// An attacking envelope is sustained, at full level, after at most
/// `ceil(UNITY / attack_rate)` ticks.
pub proof fn lemma_attack_completes(e: EnvelopeState, n: nat)
    requires
        e.wf(),
        e.stage is Attack,
        n >= ceil_div(UNITY as int, e.attack_rate),
    ensures
        e.ticks(n).stage is Sustain,
        e.ticks(n).level == UNITY,
{
    let r = e.attack_rate;
    lemma_ceil_div(UNITY as int, r);
    lemma_attack_rises(e, n);
    assert(n * r >= UNITY) by (nonlinear_arith)
        requires
            n >= ceil_div(UNITY as int, r),
            ceil_div(UNITY as int, r) * r >= UNITY,
            r >= 1,
    ;
}

/// A rate computed for a stage of `time_ms` milliseconds is a positive step
/// of at most `UNITY` that covers the full scale within that time: in any
/// number of samples that lasts at least `time_ms`, and in one sample where
/// the time is shorter than that.
pub proof fn lemma_rate_covers_scale(time_ms: int, sample_rate: int, n: nat)
    requires
        time_ms >= 0,
        sample_rate >= 0,
        n >= 1,
        n * 1000 >= sample_rate * time_ms,
    ensures
        1 <= rate_for(time_ms, sample_rate) <= UNITY,
        n * rate_for(time_ms, sample_rate) >= UNITY,
{
    let span = sample_rate * time_ms;
    let rate = rate_for(time_ms, sample_rate);
    if span <= 1000 {
        assert(n * rate >= UNITY) by (nonlinear_arith)
            requires
                n >= 1,
                rate == UNITY,
        ;
    } else {
        lemma_ceil_div(1000 * UNITY, span);
        assert((UNITY as int) * span >= 1000 * UNITY) by (nonlinear_arith)
            requires
                span >= 1000,
        ;
        lemma_ceil_div_bound(1000 * UNITY, span, UNITY as int);
        assert(n * rate >= UNITY) by (nonlinear_arith)
            requires
                rate * span >= 1000 * UNITY,
                n * 1000 >= span,
                span > 0,
                rate >= 1,
                n >= 1,
        ;
    }
}

/// A rate computed for a time of more than one sample is the least step that
/// covers the full scale within that time.
pub proof fn lemma_rate_is_least(time_ms: int, sample_rate: int)
    requires
        sample_rate * time_ms > 1000,
    ensures
        rate_for(time_ms, sample_rate) * (sample_rate * time_ms) >= 1000 * UNITY,
        (rate_for(time_ms, sample_rate) - 1) * (sample_rate * time_ms) < 1000 * UNITY,
{
    lemma_ceil_div(1000 * UNITY, sample_rate * time_ms);
}

/// A rate computed for any time and sample rate is a positive step of at
/// most `UNITY`.
pub proof fn lemma_rate_bounds(time_ms: int, sample_rate: int)
    requires
        time_ms >= 0,
        sample_rate >= 0,
    ensures
        1 <= rate_for(time_ms, sample_rate) <= UNITY,
{
    let span = sample_rate * time_ms;
    let n: nat = if span <= 1000 {
        1
    } else {
        span as nat
    };
    assert(n * 1000 >= span) by (nonlinear_arith)
        requires
            n >= 1,
            n >= span || span <= 1000,
    ;
    lemma_rate_covers_scale(time_ms, sample_rate, n);
}

/// A fresh envelope is well-formed.
pub proof fn lemma_fresh_wf(attack_ms: int, release_ms: int, sample_rate: int)
    requires
        attack_ms >= 0,
        release_ms >= 0,
        sample_rate >= 0,
    ensures
        EnvelopeState::fresh(attack_ms, release_ms, sample_rate).wf(),
{
    lemma_rate_bounds(attack_ms, sample_rate);
    lemma_rate_bounds(release_ms, sample_rate);
}

/// A fresh envelope reaches full level within its attack time: after any
/// number of ticks that lasts at least `attack_ms` milliseconds it is
/// sustained at `UNITY`.
pub proof fn lemma_fresh_attack_time(attack_ms: int, release_ms: int, sample_rate: int, n: nat)
    requires
        attack_ms >= 0,
        release_ms >= 0,
        sample_rate >= 0,
        n >= 1,
        n * 1000 >= sample_rate * attack_ms,
    ensures
        EnvelopeState::fresh(attack_ms, release_ms, sample_rate).ticks(n).stage is Sustain,
        EnvelopeState::fresh(attack_ms, release_ms, sample_rate).ticks(n).level == UNITY,
{
    let e = EnvelopeState::fresh(attack_ms, release_ms, sample_rate);
    lemma_fresh_wf(attack_ms, release_ms, sample_rate);
    lemma_rate_covers_scale(attack_ms, sample_rate, n);
    lemma_attack_rises(e, n);
}

/// A released envelope is finished within its release time: after any number
/// of ticks that lasts at least as long as the time its release rate was
/// computed for.
pub proof fn lemma_release_time(e: EnvelopeState, release_ms: int, sample_rate: int, n: nat)
    requires
        e.wf(),
        e.stage is Release,
        e.release_rate == rate_for(release_ms, sample_rate),
        release_ms >= 0,
        sample_rate >= 0,
        n >= 1,
        n * 1000 >= sample_rate * release_ms,
    ensures
        e.ticks(n).is_done(),
        e.ticks(n).level == 0,
{
    lemma_rate_covers_scale(release_ms, sample_rate, n);
    lemma_release_falls(e, n);
}

} // verus!
