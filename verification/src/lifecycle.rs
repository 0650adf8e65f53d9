//! The life of a voice in the bank, from its note-on to its removal.
//!
//! These theorems follow a single voice through the ticks of the bank: what
//! a note-off and a repeated note-on do to it, how its level falls once it is
//! released, and when it leaves the bank.

use vstd::prelude::*;
use crate::bank::{BankState, lemma_bank_steps_wf};
use crate::envelope::{
    Stage,
    lemma_envelope_steps_wf,
    lemma_release_completes,
    lemma_release_falls,
    lemma_release_is_continuous,
    lemma_release_time,
    lemma_retrigger_is_continuous,
};
use crate::fixed::{UNITY, abs, ceil_div};
use crate::keys::Key;
use crate::oscillator::{OscillatorState, RELEASE_MS, lemma_oscillator_steps_wf, lemma_output_bounded};
use crate::waveform::Waveform;

verus! {

/// Stepping an oscillator ticks its envelope and leaves its tuning alone:
/// after `n` steps the envelope is the one after `n` ticks, whatever the
/// phase does.
pub proof fn lemma_steps_envelope(o: OscillatorState, n: nat)
    requires
        o.wf(),
    ensures
        o.steps(n).wf(),
        o.steps(n).envelope == o.envelope.ticks(n),
        o.steps(n).frequency == o.frequency,
        o.steps(n).waveform == o.waveform,
        o.steps(n).sample_rate == o.sample_rate,
    decreases n,
{
    if n > 0 {
        lemma_steps_envelope(o, (n - 1) as nat);
        lemma_oscillator_steps_wf(o.steps((n - 1) as nat), 0);
    }
}

/// A voice stays in the bank exactly as long as it has not finished, and
/// while it stays, the bank's ticks are the voice's own steps: the other
/// voices have no influence on it.
pub proof fn lemma_voice_in_bank(b: BankState, key: Key, n: nat)
    requires
        b.wf(),
    ensures
        b.ticks(n).wf(),
        b.ticks(n).sample_rate == b.sample_rate,
        b.ticks(n).voices.contains_key(key) <==> b.voices.contains_key(key) && !b.voices[key].steps(
            n,
        ).is_done(),
        b.ticks(n).voices.contains_key(key) ==> b.ticks(n).voices[key] == b.voices[key].steps(n),
    decreases n,
{
    if n > 0 {
        lemma_voice_in_bank(b, key, (n - 1) as nat);
        lemma_bank_steps_wf(b.ticks((n - 1) as nat), key, 0, Waveform::Sine);
    }
}

/// A note-off for a key that is sounding releases its voice from the level
/// it has, whatever stage it interrupts, and leaves every other voice alone;
/// the first tick after it lowers the level by at most one release step.
pub proof fn lemma_note_off_releases(b: BankState, key: Key, other: Key)
    requires
        b.wf(),
        b.voices.contains_key(key),
        other != key,
    ensures
        b.note_off(key).voices.dom() == b.voices.dom(),
        b.note_off(key).voices[key].envelope == b.voices[key].envelope.release(),
        b.note_off(key).voices[key].envelope.stage is Release,
        b.note_off(key).voices[key].envelope.level == b.voices[key].envelope.level,
        b.voices[key].envelope.level - b.voices[key].envelope.release_rate <= b.note_off(
            key,
        ).voices[key].step().envelope.level <= b.voices[key].envelope.level,
        b.note_off(key).voices[other] == b.voices[other],
{
    lemma_release_is_continuous(b.voices[key].envelope);
}

/// A note-off for a key that is not sounding changes nothing.
pub proof fn lemma_note_off_unknown_key(b: BankState, key: Key)
    requires
        !b.voices.contains_key(key),
    ensures
        b.note_off(key) == b,
{
}

/// A second note-off for the same key changes nothing: the bank, and with it
/// every later state of every voice, is the same as after the first.
pub proof fn lemma_note_off_idempotent(b: BankState, key: Key, n: nat)
    ensures
        b.note_off(key).note_off(key) == b.note_off(key),
        b.note_off(key).note_off(key).ticks(n) == b.note_off(key).ticks(n),
{
    if b.voices.contains_key(key) {
        let once = b.note_off(key);
        assert(once.note_off(key).voices =~= once.voices);
    }
}

/// A note-on for a key that is sounding adds no voice: it strikes the voice
/// again, which keeps its level and attacks from there, so that the first
/// tick after it raises the level by at most one attack step.
pub proof fn lemma_note_on_retriggers(b: BankState, key: Key, frequency: int, waveform: Waveform)
    requires
        b.wf(),
        b.voices.contains_key(key),
    ensures
        b.note_on(key, frequency, waveform).voices.dom() == b.voices.dom(),
        b.note_on(key, frequency, waveform).voices[key].envelope.stage is Attack,
        b.note_on(key, frequency, waveform).voices[key].envelope.level
            == b.voices[key].envelope.level,
        b.voices[key].envelope.level <= b.note_on(
            key,
            frequency,
            waveform,
        ).voices[key].step().envelope.level <= b.voices[key].envelope.level
            + b.voices[key].envelope.attack_rate,
{
    lemma_retrigger_is_continuous(b.voices[key].envelope);
}

/// A released voice fades out and leaves the bank. While it is in the bank
/// after `n` ticks, its level is the level it was released at less `n`
/// release steps, its next sample is no louder than the level one step
/// further down, and that level is strictly lower than the one before. It
/// has left the bank after `ceil(UNITY / release_rate)` ticks at the latest,
/// and so after any number of ticks that lasts as long as the release time.
pub proof fn lemma_released_voice_fades(b: BankState, key: Key, n: nat)
    requires
        b.wf(),
        b.voices.contains_key(key),
        b.voices[key].envelope.stage is Release,
    ensures
        b.ticks(n).voices.contains_key(key) <==> n == 0 || b.voices[key].envelope.level - n
            * b.voices[key].envelope.release_rate > 0,
        b.ticks(n).voices.contains_key(key) ==> {
            &&& b.ticks(n).voices[key].envelope.stage is Release
            &&& b.ticks(n).voices[key].envelope.level == b.voices[key].envelope.level - n
                * b.voices[key].envelope.release_rate
            &&& abs(b.ticks(n).voices[key].output()) <= b.ticks(
                n,
            ).voices[key].step().envelope.level
            &&& b.ticks(n).voices[key].step().envelope.level < b.ticks(n).voices[key].envelope.level
                || b.ticks(n).voices[key].envelope.level == 0
        },
        n >= ceil_div(UNITY as int, b.voices[key].envelope.release_rate)
            ==> !b.ticks(n).voices.contains_key(key),
        n >= 1 && n * 1000 >= b.sample_rate * RELEASE_MS ==> !b.ticks(n).voices.contains_key(key),
{
    let voice = b.voices[key];
    let e = voice.envelope;
    lemma_voice_in_bank(b, key, n);
    lemma_steps_envelope(voice, n);
    lemma_release_falls(e, n);
    lemma_envelope_steps_wf(e, n);
    if b.ticks(n).voices.contains_key(key) {
        lemma_output_bounded(voice.steps(n));
    }
    if n >= ceil_div(UNITY as int, e.release_rate) {
        lemma_release_completes(e, n);
    }
    if n >= 1 && n * 1000 >= b.sample_rate * RELEASE_MS {
        lemma_release_time(e, RELEASE_MS as int, b.sample_rate, n);
    }
}

/// After a note-off the voice of the key fades out and leaves the bank: it
/// is gone after `ceil(UNITY / release_rate)` ticks at the latest, and so
/// after any number of ticks that lasts as long as the release time.
pub proof fn lemma_note_off_removes(b: BankState, key: Key, n: nat)
    requires
        b.wf(),
        n >= 1 && n * 1000 >= b.sample_rate * RELEASE_MS || b.voices.contains_key(key) && n
            >= ceil_div(UNITY as int, b.voices[key].envelope.release_rate),
    ensures
        !b.note_off(key).ticks(n).voices.contains_key(key),
{
    lemma_bank_steps_wf(b, key, 0, Waveform::Sine);
    if b.voices.contains_key(key) {
        lemma_note_off_releases(b, key, if key == Key::Other {
            Key::A
        } else {
            Key::Other
        });
        lemma_released_voice_fades(b.note_off(key), key, n);
    } else {
        lemma_voice_in_bank(b, key, n);
    }
}

/// The stage of a voice in the bank is never `Done`: a finished voice is
/// removed on the tick that finishes it.
pub proof fn lemma_no_finished_voice(b: BankState, key: Key, n: nat)
    requires
        b.wf(),
        b.ticks(n).voices.contains_key(key),
    ensures
        b.ticks(n).voices[key].envelope.stage != Stage::Done,
{
    lemma_voice_in_bank(b, key, n);
}

} // verus!
