//! Runs of the engine: what holds after any sequence of posted note events
//! and pulls.

use vstd::prelude::*;
use crate::bank::{BankState, lemma_bank_steps_wf};
use crate::keys::{Key, frequency_of};
use crate::lifecycle::{lemma_note_off_idempotent, lemma_note_off_removes};
use crate::oscillator::RELEASE_MS;
use crate::synth::{
    SynthCommand,
    SynthState,
    bank_apply,
    bank_apply_all,
    lemma_apply_all_wf,
    lemma_apply_wf,
};
use crate::waveform::Waveform;

verus! {

/// One step of a run: a note event is posted, or a sample is pulled.
pub enum Step {
    Post(SynthCommand),
    Pull,
}

/// The engine after one step.
pub open spec fn step(s: SynthState, step: Step) -> SynthState {
    match step {
        Step::Post(command) => s.post(command),
        Step::Pull => s.pull(),
    }
}

/// The engine after the steps of `trace`, first to last, starting empty.
pub open spec fn run(sample_rate: int, trace: Seq<Step>) -> SynthState
    decreases trace.len(),
{
    if trace.len() == 0 {
        SynthState::empty(sample_rate)
    } else {
        step(run(sample_rate, trace.drop_last()), trace.last())
    }
}

/// The keys that have received a note-on in `trace` and whose voice has not
/// since then finished and been removed from the bank.
pub open spec fn struck(sample_rate: int, trace: Seq<Step>) -> Set<Key>
    decreases trace.len(),
{
    if trace.len() == 0 {
        Set::empty()
    } else {
        let before = trace.drop_last();
        match trace.last() {
            Step::Post(SynthCommand::NoteOn(key)) => struck(sample_rate, before).insert(key),
            Step::Post(SynthCommand::NoteOff(_)) => struck(sample_rate, before),
            Step::Pull => struck(sample_rate, before).difference(
                run(sample_rate, before).drain().bank.finished(),
            ),
        }
    }
}

/// The keys with a note-on among `commands`.
pub open spec fn note_ons(commands: Seq<SynthCommand>) -> Set<Key> {
    Set::new(|key: Key| commands.contains(SynthCommand::NoteOn(key)))
}

/// Note events add voices only for keys that get a note-on and that play a
/// note; they remove none.
pub proof fn lemma_apply_all_voices(bank: BankState, commands: Seq<SynthCommand>, key: Key)
    ensures
        bank.voices.contains_key(key) ==> bank_apply_all(bank, commands).voices.contains_key(key),
        bank_apply_all(bank, commands).voices.contains_key(key) ==> bank.voices.contains_key(key)
            || (note_ons(commands).contains(key) && frequency_of(key) is Some),
    decreases commands.len(),
{
    if commands.len() > 0 {
        lemma_apply_all_voices(bank, commands.drop_last(), key);
    }
}

/// After any run the engine is well-formed, and every voice in the bank, and
/// every key with a note-on in the queue, belongs to a key that has received
/// a note-on and has not been removed since.
pub proof fn lemma_run_invariant(sample_rate: int, trace: Seq<Step>)
    requires
        0 <= sample_rate <= u32::MAX,
    ensures
        run(sample_rate, trace).wf(),
        run(sample_rate, trace).bank.sample_rate == sample_rate,
        struck(sample_rate, trace).finite(),
        run(sample_rate, trace).bank.voices.dom().subset_of(struck(sample_rate, trace)),
        note_ons(run(sample_rate, trace).pending).subset_of(struck(sample_rate, trace)),
    decreases trace.len(),
{
    let after = run(sample_rate, trace);
    if trace.len() > 0 {
        let before = trace.drop_last();
        let s = run(sample_rate, before);
        lemma_run_invariant(sample_rate, before);
        match trace.last() {
            Step::Post(command) => {
                assert forall|key: Key| note_ons(after.pending).contains(key) implies struck(
                    sample_rate,
                    trace,
                ).contains(key) by {
                    if command != SynthCommand::NoteOn(key) {
                        assert(note_ons(s.pending).contains(key));
                    }
                }
            },
            Step::Pull => {
                lemma_apply_all_wf(s.bank, s.pending);
                lemma_bank_steps_wf(s.drain().bank, Key::Other, 0, Waveform::Sine);
                assert forall|key: Key| after.bank.voices.contains_key(key) implies struck(
                    sample_rate,
                    trace,
                ).contains(key) by {
                    lemma_apply_all_voices(s.bank, s.pending, key);
                }
            },
        }
    }
}

/// The bank never holds more voices than there are keys that have received a
/// note-on and whose voice has not since finished and been removed: after
/// any sequence of posted note events and pulls, every voice belongs to such
/// a key, and there is at most one voice for each.
pub proof fn lemma_voices_bounded_by_struck_keys(sample_rate: int, trace: Seq<Step>)
    requires
        0 <= sample_rate <= u32::MAX,
    ensures
        run(sample_rate, trace).bank.voices.dom().subset_of(struck(sample_rate, trace)),
        run(sample_rate, trace).bank.voices.len() <= struck(sample_rate, trace).len(),
{
    lemma_run_invariant(sample_rate, trace);
    vstd::set_lib::lemma_len_subset(
        run(sample_rate, trace).bank.voices.dom(),
        struck(sample_rate, trace),
    );
}

/// A key whose voice was removed by a pull has no voice after it, and counts
/// as struck again only once it receives another note-on.
pub proof fn lemma_pull_removes_finished(sample_rate: int, trace: Seq<Step>, key: Key)
    requires
        0 <= sample_rate <= u32::MAX,
        run(sample_rate, trace).drain().bank.finished().contains(key),
    ensures
        !run(sample_rate, trace.push(Step::Pull)).bank.voices.contains_key(key),
        !struck(sample_rate, trace.push(Step::Pull)).contains(key),
{
    assert(trace.push(Step::Pull).drop_last() =~= trace);
}

/// Applying a note-off twice in a row is the same as applying it once.
pub proof fn lemma_apply_note_off_idempotent(bank: BankState, key: Key)
    ensures
        bank_apply(bank_apply(bank, SynthCommand::NoteOff(key)), SynthCommand::NoteOff(key))
            == bank_apply(bank, SynthCommand::NoteOff(key)),
{
    lemma_note_off_idempotent(bank, key, 0);
}

/// Posting a note-off twice in a row is the same as posting it once: the
/// next pull puts out the same sample and leaves the same engine behind.
pub proof fn lemma_post_note_off_idempotent(s: SynthState, key: Key)
    ensures
        s.post(SynthCommand::NoteOff(key)).post(SynthCommand::NoteOff(key)).pull() == s.post(
            SynthCommand::NoteOff(key),
        ).pull(),
        s.post(SynthCommand::NoteOff(key)).post(SynthCommand::NoteOff(key)).sample() == s.post(
            SynthCommand::NoteOff(key),
        ).sample(),
{
    let off = SynthCommand::NoteOff(key);
    let once = s.pending.push(off);
    let twice = once.push(off);
    assert(twice.drop_last() =~= once);
    assert(once.drop_last() =~= s.pending);
    lemma_apply_note_off_idempotent(bank_apply_all(s.bank, s.pending), key);
}

/// Over one frame the engine pulls once, and both channels get the sample of
/// that pull: after the frame the engine is where one pull leaves it, at the
/// start of the next frame.
pub proof fn lemma_frame_repeats_sample(s: SynthState)
    requires
        s.channel == 0,
    ensures
        s.next_sample() == s.sample(),
        s.next().next_sample() == s.sample(),
        s.next().next().bank == s.pull().bank,
        s.next().next().pending == s.pull().pending,
        s.next().next().channel == 0,
{
}

/// The engine after `n` pulls with no event posted between them.
pub open spec fn pulls(s: SynthState, n: nat) -> SynthState
    decreases n,
{
    if n == 0 {
        s
    } else {
        pulls(s, (n - 1) as nat).pull()
    }
}

/// Pulls with no event posted between them drain the queue once and then
/// tick the bank: after `n` of them the queue is empty and the bank is the
/// drained bank `n` ticks later.
pub proof fn lemma_pulls_are_ticks(s: SynthState, n: nat)
    requires
        n >= 1,
    ensures
        pulls(s, n).bank == s.drain().bank.ticks(n),
        pulls(s, n).pending.len() == 0,
    decreases n,
{
    if n > 1 {
        lemma_pulls_are_ticks(s, (n - 1) as nat);
    } else {
        assert(pulls(s, 0) == s);
        assert(s.drain().bank.ticks(0) == s.drain().bank);
    }
}

/// After a note-off is posted, the voice of its key fades out and leaves the
/// bank: it is gone after any number of pulls that lasts as long as the
/// release time, unless the key is struck again in between.
pub proof fn lemma_posted_note_off_removes(s: SynthState, key: Key, n: nat)
    requires
        s.wf(),
        n >= 1,
        n * 1000 >= s.bank.sample_rate * RELEASE_MS,
    ensures
        !pulls(s.post(SynthCommand::NoteOff(key)), n).bank.voices.contains_key(key),
{
    let off = SynthCommand::NoteOff(key);
    lemma_pulls_are_ticks(s.post(off), n);
    lemma_drain_in_order(s, off);
    lemma_apply_all_wf(s.bank, s.pending);
    lemma_note_off_removes(s.drain().bank, key, n);
}

/// A pull with nothing queued is one tick of the bank.
pub proof fn lemma_pull_with_empty_queue(s: SynthState)
    requires
        s.pending.len() == 0,
    ensures
        s.pull().bank == s.bank.tick(),
        s.pull().pending.len() == 0,
{
}

/// Draining the queue is applying its events one by one, first to last: an
/// event posted behind a queue takes effect after the events of the queue.
pub proof fn lemma_drain_in_order(s: SynthState, command: SynthCommand)
    requires
        s.wf(),
    ensures
        s.post(command).drain().bank == bank_apply(s.drain().bank, command),
        s.post(command).drain().wf(),
{
    assert(s.pending.push(command).drop_last() =~= s.pending);
    lemma_apply_all_wf(s.bank, s.pending);
    lemma_apply_wf(s.drain().bank, command);
}

} // verus!
