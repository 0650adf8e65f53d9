//! The synthesis engine: a pull-based sample source driven by note events.
//!
//! Note events are posted to the engine's queue at any time. Every pull
//! first applies the events that are queued, in the order in which they were
//! posted, then moves all voices on by one sample, and puts out the mix of
//! the voices that are still sounding.

use std::time::Duration;
use vstd::prelude::*;
use crate::bank::{BankState, VoiceBank, lemma_bank_steps_wf, lemma_sum_bounded};
use crate::fixed::{UNITY, clamp, trunc_div};
use crate::keys::{Key, frequency_from_key, frequency_of};
use crate::oscillator::Oscillator;
use crate::waveform::Waveform;

verus! {

/// The usual output sample rate, in samples per second.
pub const SAMPLE_RATE: u32 = 44_100;

/// The number of output channels; each carries the same signal.
pub const CHANNELS: u16 = 2;

/// The numerator of the headroom factor 4/5 by which the mix is attenuated.
pub const HEADROOM_NUM: u32 = 4;

/// The denominator of the headroom factor 4/5.
pub const HEADROOM_DEN: u32 = 5;

/// A note event.
#[derive(Clone, Copy, Debug, PartialEq, Eq, Structural)]
pub enum SynthCommand {
    /// The key was pressed.
    NoteOn(Key),
    /// The key was let go.
    NoteOff(Key),
}

/// The output sample for voices whose samples add up to `sum`, `active` of
/// them sounding: silence where none sounds, and otherwise the average
/// attenuated by the headroom factor, rounded toward zero and limited to the
/// range from `-UNITY` to `UNITY`.
pub open spec fn mix_of(sum: int, active: int) -> int {
    if active <= 0 {
        0
    } else {
        clamp(
            trunc_div(sum * HEADROOM_NUM, active * HEADROOM_DEN),
            -(UNITY as int),
            UNITY as int,
        )
    }
}

/// The mathematical state of the engine.
pub struct SynthState {
    /// The voices that are sounding.
    pub bank: BankState,
    /// The note events that wait for the next pull, oldest first.
    pub pending: Seq<SynthCommand>,
    /// The channel that the next sample goes to, counted from 0.
    pub channel: int,
    /// The sample of the frame that is being put out.
    pub held: int,
}

/// The bank after the note of `key` is started with `waveform`: unchanged
/// where the key plays no note.
pub open spec fn bank_note_on(bank: BankState, key: Key, waveform: Waveform) -> BankState {
    match frequency_of(key) {
        Some(frequency) => bank.note_on(key, frequency as int, waveform),
        None => bank,
    }
}

/// The bank after one note event; a note-on starts a sine voice.
pub open spec fn bank_apply(bank: BankState, command: SynthCommand) -> BankState {
    match command {
        SynthCommand::NoteOn(key) => bank_note_on(bank, key, Waveform::Sine),
        SynthCommand::NoteOff(key) => bank.note_off(key),
    }
}

/// The bank after the note events `commands`, applied first to last.
pub open spec fn bank_apply_all(bank: BankState, commands: Seq<SynthCommand>) -> BankState
    decreases commands.len(),
{
    if commands.len() == 0 {
        bank
    } else {
        bank_apply(bank_apply_all(bank, commands.drop_last()), commands.last())
    }
}

impl SynthState {
    /// The engine with no voices and no events queued.
    pub open spec fn empty(sample_rate: int) -> SynthState {
        SynthState { bank: BankState::empty(sample_rate), pending: Seq::empty(), channel: 0, held: 0 }
    }

    /// The bank is well-formed, the channel is one of the output channels,
    /// and the sample held lies between `-UNITY` and `UNITY`.
    pub open spec fn wf(self) -> bool {
        &&& self.bank.wf()
        &&& 0 <= self.channel < CHANNELS
        &&& -UNITY <= self.held <= UNITY
    }

    /// The engine after the note of `key` is started at once.
    pub open spec fn note_on(self, key: Key, waveform: Waveform) -> SynthState {
        SynthState { bank: bank_note_on(self.bank, key, waveform), ..self }
    }

    /// The engine after the note of `key` is ended at once.
    pub open spec fn note_off(self, key: Key) -> SynthState {
        SynthState { bank: self.bank.note_off(key), ..self }
    }

    /// The engine with `command` added to the end of its queue.
    pub open spec fn post(self, command: SynthCommand) -> SynthState {
        SynthState { pending: self.pending.push(command), ..self }
    }

    /// The engine after the queued events are applied, first to last, and the
    /// queue is emptied.
    pub open spec fn drain(self) -> SynthState {
        SynthState { bank: bank_apply_all(self.bank, self.pending), pending: Seq::empty(), ..self }
    }

    /// The sample that the next pull puts out.
    pub open spec fn sample(self) -> int {
        mix_of(self.drain().bank.sum(), self.drain().bank.active() as int)
    }

    /// The engine after a pull: queue drained, every voice one sample on.
    pub open spec fn pull(self) -> SynthState {
        SynthState { bank: self.drain().bank.tick(), pending: Seq::empty(), ..self }
    }

    /// The sample that the next call for a channel sample puts out: a newly
    /// pulled one at the start of a frame, and the one held for the frame
    /// after that.
    pub open spec fn next_sample(self) -> int {
        if self.channel == 0 {
            self.sample()
        } else {
            self.held
        }
    }

    /// The engine after a call for a channel sample: at the start of a frame
    /// it pulls and holds the sample; in every case it moves on to the next
    /// channel, and from the last one back to the first.
    pub open spec fn next(self) -> SynthState {
        let channel = if self.channel + 1 >= CHANNELS {
            0
        } else {
            self.channel + 1
        };
        if self.channel == 0 {
            SynthState { held: self.sample(), channel, ..self.pull() }
        } else {
            SynthState { channel, ..self }
        }
    }
}

/// Applying note events keeps a bank well-formed and leaves its sample rate
/// as it is.
pub proof fn lemma_apply_all_wf(bank: BankState, commands: Seq<SynthCommand>)
    requires
        bank.wf(),
    ensures
        bank_apply_all(bank, commands).wf(),
        bank_apply_all(bank, commands).sample_rate == bank.sample_rate,
    decreases commands.len(),
{
    if commands.len() > 0 {
        lemma_apply_all_wf(bank, commands.drop_last());
        lemma_apply_wf(bank_apply_all(bank, commands.drop_last()), commands.last());
    }
}

/// Applying one note event keeps a bank well-formed and leaves its sample
/// rate as it is.
pub proof fn lemma_apply_wf(bank: BankState, command: SynthCommand)
    requires
        bank.wf(),
    ensures
        bank_apply(bank, command).wf(),
        bank_apply(bank, command).sample_rate == bank.sample_rate,
{
    match command {
        SynthCommand::NoteOn(key) => {
            match frequency_of(key) {
                Some(frequency) => {
                    lemma_bank_steps_wf(bank, key, frequency as int, Waveform::Sine);
                },
                None => {},
            }
        },
        SynthCommand::NoteOff(key) => {
            lemma_bank_steps_wf(bank, key, 0, Waveform::Sine);
        },
    }
}

/// The mix never leaves the range from `-UNITY` to `UNITY`, whatever the
/// voices add up to; and where no voice is louder than `UNITY`, it stays
/// within the headroom factor of it.
pub proof fn lemma_mix_bounded(sum: int, active: int)
    ensures
        -UNITY <= mix_of(sum, active) <= UNITY,
        -(active * UNITY) <= sum <= active * UNITY ==> -(UNITY * HEADROOM_NUM) <= mix_of(
            sum,
            active,
        ) * HEADROOM_DEN <= UNITY * HEADROOM_NUM,
{
    if active > 0 && -(active * UNITY) <= sum <= active * UNITY {
        let d = active * HEADROOM_DEN;
        let top = if sum >= 0 {
            sum * HEADROOM_NUM
        } else {
            -(sum * HEADROOM_NUM)
        };
        let q = top / d;
        assert(0 <= top <= 4 * active * UNITY && d > 0) by (nonlinear_arith)
            requires
                top == if sum >= 0 {
                    sum * 4
                } else {
                    -(sum * 4)
                },
                -(active * UNITY) <= sum <= active * UNITY,
                d == active * 5,
                active > 0,
        ;
        vstd::arithmetic::div_mod::lemma_fundamental_div_mod(top, d);
        vstd::arithmetic::div_mod::lemma_mod_bound(top, d);
        vstd::arithmetic::div_mod::lemma_div_pos_is_pos(top, d);
        assert(q * 5 <= 4 * UNITY) by (nonlinear_arith)
            requires
                d * q <= top,
                top <= 4 * active * UNITY,
                d == active * 5,
                active > 0,
        ;
    }
}

/// Whatever is queued and however many voices sound, the sample of the next
/// pull lies between `-UNITY` and `UNITY`, and within the headroom factor of
/// them.
pub proof fn lemma_sample_within_headroom(s: SynthState)
    requires
        s.wf(),
    ensures
        -UNITY <= s.sample() <= UNITY,
        -(UNITY * HEADROOM_NUM) <= s.sample() * HEADROOM_DEN <= UNITY * HEADROOM_NUM,
        s.pull().wf(),
        s.next().wf(),
        -UNITY <= s.next_sample() <= UNITY,
{
    lemma_apply_all_wf(s.bank, s.pending);
    let drained = s.drain().bank;
    lemma_sum_bounded(drained);
    lemma_mix_bounded(drained.sum(), drained.active() as int);
    lemma_bank_steps_wf(drained, Key::Other, 0, Waveform::Sine);
}

/// Mixes voices whose samples add up to `sum`, `active` of them sounding,
/// into one output sample.
pub fn mix(sum: i128, active: usize) -> (sample: i32)
    ensures
        sample == mix_of(sum as int, active as int),
        -UNITY <= sample <= UNITY,
{
    if active == 0 {
        return 0;
    }
    let unity: i128 = UNITY as i128;
    let divisor: i128 = (active as i128) * (HEADROOM_DEN as i128);
    assert(unity * divisor <= 0x4000_0000 * (0xffff_ffff_ffff_ffff * 5)) by (nonlinear_arith)
        requires
            unity == 0x4000_0000,
            0 < divisor <= 0xffff_ffff_ffff_ffff * 5,
    ;
    let limit: i128 = unity * divisor;
    proof {
        lemma_quotient_reaches(sum as int, divisor as int, unity as int);
    }
    if sum >= limit {
        UNITY as i32
    } else if sum <= -limit {
        -(UNITY as i32)
    } else {
        let quotient: i128 = (sum * (HEADROOM_NUM as i128)) / divisor;
        if quotient > unity {
            UNITY as i32
        } else if quotient < -unity {
            -(UNITY as i32)
        } else {
            quotient as i32
        }
    }
}

/// A quotient by `d`, rounded toward zero, of four times a number of
/// magnitude at least `u * d` has magnitude at least `u`.
proof fn lemma_quotient_reaches(sum: int, d: int, u: int)
    requires
        d > 0,
        u >= 0,
    ensures
        sum >= u * d ==> trunc_div(sum * 4, d) >= u,
        sum <= -(u * d) ==> trunc_div(sum * 4, d) <= -u,
{
    if sum >= u * d {
        assert(sum * 4 >= u * d) by (nonlinear_arith)
            requires
                sum >= u * d,
                u >= 0,
                d > 0,
        ;
        vstd::arithmetic::div_mod::lemma_div_is_ordered(u * d, sum * 4, d);
        vstd::arithmetic::div_mod::lemma_div_multiples_vanish(u, d);
    }
    if sum <= -(u * d) {
        assert(-(sum * 4) >= u * d) by (nonlinear_arith)
            requires
                sum <= -(u * d),
                u >= 0,
                d > 0,
        ;
        vstd::arithmetic::div_mod::lemma_div_is_ordered(u * d, -(sum * 4), d);
        vstd::arithmetic::div_mod::lemma_div_multiples_vanish(u, d);
    }
}

/// A polyphonic synthesizer: a voice bank driven by a queue of note events,
/// pulled one sample at a time.
#[derive(Debug)]
pub struct Synthesizer {
    bank: VoiceBank,
    pending: Vec<SynthCommand>,
    channel: u16,
    held: i32,
}

impl View for Synthesizer {
    type V = SynthState;

    closed spec fn view(&self) -> SynthState {
        SynthState {
            bank: self.bank@,
            pending: self.pending@,
            channel: self.channel as int,
            held: self.held as int,
        }
    }
}

impl Synthesizer {
    /// Whether the synthesizer satisfies its invariant.
    pub closed spec fn wf(&self) -> bool {
        &&& self.bank.wf()
        &&& self.channel < CHANNELS
        &&& -UNITY <= self.held <= UNITY
    }

    /// A well-formed synthesizer has a well-formed state.
    pub proof fn lemma_wf_view(&self)
        requires
            self.wf(),
        ensures
            self@.wf(),
    {
        self.bank.lemma_wf_view();
    }

    /// Creates a synthesizer for output at `sample_rate` samples per second,
    /// with no voices and no events queued.
    pub fn new(sample_rate: u32) -> (synth: Synthesizer)
        ensures
            synth.wf(),
            synth@ == SynthState::empty(sample_rate as int),
    {
        Synthesizer { bank: VoiceBank::new(sample_rate), pending: Vec::new(), channel: 0, held: 0 }
    }

    /// Starts the note of `key` at once: strikes its voice again if it is
    /// sounding, inserts a new voice with `waveform` if not, and does nothing
    /// where the key plays no note.
    pub fn note_on(&mut self, key: Key, waveform: Waveform)
        requires
            old(self).wf(),
        ensures
            final(self).wf(),
            final(self)@ == old(self)@.note_on(key, waveform),
    {
        if let Some(frequency) = frequency_from_key(key) {
            self.bank.note_on(key, frequency, waveform);
        }
    }

    /// Ends the note of `key` at once: releases its voice if it is sounding,
    /// and does nothing otherwise.
    pub fn note_off(&mut self, key: &Key)
        requires
            old(self).wf(),
        ensures
            final(self).wf(),
            final(self)@ == old(self)@.note_off(*key),
    {
        self.bank.note_off(*key);
    }

    /// Adds `command` to the end of the queue; it takes effect on the next
    /// pull.
    pub fn post(&mut self, command: SynthCommand)
        requires
            old(self).wf(),
        ensures
            final(self).wf(),
            final(self)@ == old(self)@.post(command),
    {
        self.pending.push(command);
    }

    /// Queues a note-on for `key`.
    pub fn post_note_on(&mut self, key: Key)
        requires
            old(self).wf(),
        ensures
            final(self).wf(),
            final(self)@ == old(self)@.post(SynthCommand::NoteOn(key)),
    {
        self.post(SynthCommand::NoteOn(key));
    }

    /// Queues a note-off for `key`.
    pub fn post_note_off(&mut self, key: Key)
        requires
            old(self).wf(),
        ensures
            final(self).wf(),
            final(self)@ == old(self)@.post(SynthCommand::NoteOff(key)),
    {
        self.post(SynthCommand::NoteOff(key));
    }

    /// Applies the queued events, first to last, and empties the queue.
    pub fn process_commands(&mut self)
        requires
            old(self).wf(),
        ensures
            final(self).wf(),
            final(self)@ == old(self)@.drain(),
    {
        let ghost start = self.bank@;
        let n = self.pending.len();
        let mut i: usize = 0;
        while i < n
            invariant
                self.wf(),
                self.pending@ == old(self).pending@,
                self.channel == old(self).channel,
                self.held == old(self).held,
                n == self.pending.len(),
                i <= n,
                self.bank@ == bank_apply_all(start, self.pending@.subrange(0, i as int)),
            decreases n - i,
        {
            let command = self.pending[i];
            proof {
                assert(self.pending@.subrange(0, i + 1).drop_last() == self.pending@.subrange(
                    0,
                    i as int,
                ));
            }
            match command {
                SynthCommand::NoteOn(key) => {
                    self.note_on(key, Waveform::Sine);
                },
                SynthCommand::NoteOff(key) => {
                    self.note_off(&key);
                },
            }
            i += 1;
        }
        proof {
            assert(self.pending@.subrange(0, n as int) == self.pending@);
        }
        self.pending.clear();
    }

    /// Produces the next output sample: applies the queued events, moves
    /// every voice on by one sample, drops the voices that finished, and
    /// mixes those that remain. The sample never leaves the range from
    /// `-UNITY` to `UNITY`, and stays within the headroom factor of it.
    pub fn pull_sample(&mut self) -> (sample: i32)
        requires
            old(self).wf(),
        ensures
            final(self).wf(),
            final(self)@ == old(self)@.pull(),
            sample == old(self)@.sample(),
            -UNITY <= sample <= UNITY,
            -(UNITY * HEADROOM_NUM) <= sample * HEADROOM_DEN <= UNITY * HEADROOM_NUM,
    {
        self.process_commands();
        let tick = self.bank.tick_all();
        proof {
            lemma_mix_bounded(tick.sum as int, tick.active as int);
        }
        mix(tick.sum, tick.active)
    }

    /// Produces the next sample of the interleaved output: one call per
    /// channel and frame. The first call of a frame pulls a sample, and the
    /// calls for the other channels of the frame repeat it. The stream never
    /// ends, so the result is never `None`.
    pub fn next(&mut self) -> (sample: Option<i32>)
        requires
            old(self).wf(),
        ensures
            final(self).wf(),
            final(self)@ == old(self)@.next(),
            sample == Some(old(self)@.next_sample() as i32),
            -UNITY <= old(self)@.next_sample() <= UNITY,
    {
        if self.channel == 0 {
            self.held = self.pull_sample();
        }
        self.channel = if self.channel + 1 >= CHANNELS {
            0
        } else {
            self.channel + 1
        };
        Some(self.held)
    }

    /// The number of output channels.
    pub fn channels(&self) -> (channels: u16)
        ensures
            channels == CHANNELS,
    {
        CHANNELS
    }

    /// The output sample rate, in samples per second.
    pub fn sample_rate(&self) -> (rate: u32)
        ensures
            rate == self@.bank.sample_rate,
    {
        self.bank.sample_rate()
    }

    /// The number of samples until the output format changes: never, so
    /// `None`.
    pub fn current_frame_len(&self) -> (len: Option<usize>)
        ensures
            len is None,
    {
        None
    }

    /// The total duration of the output: unbounded, so `None`.
    pub fn total_duration(&self) -> (duration: Option<Duration>)
        ensures
            duration is None,
    {
        None
    }

    /// The number of voices in the bank.
    pub fn voice_count(&self) -> (n: usize)
        requires
            self.wf(),
        ensures
            n == self@.bank.voices.len(),
    {
        self.bank.len()
    }

    /// The number of events in the queue.
    pub fn pending_count(&self) -> (n: usize)
        ensures
            n == self@.pending.len(),
    {
        self.pending.len()
    }

    /// The voice of `key`, if it is in the bank.
    pub fn voice(&self, key: Key) -> (voice: Option<Oscillator>)
        requires
            self.wf(),
        ensures
            voice is Some == self@.bank.voices.contains_key(key),
            voice is Some ==> voice->0@ == self@.bank.voices[key] && voice->0.wf(),
    {
        self.bank.voice(key)
    }
}

} // verus!
