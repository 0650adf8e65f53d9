//! The voice bank: the voices that are sounding, one per key.
//!
//! The bank is a map from keys to oscillators. A note-on inserts a voice or
//! strikes the one that is there again, a note-off releases it, and every
//! tick moves all voices on by one sample and drops those that have finished.

use vstd::prelude::*;
use vstd::set::fold::{is_fun_commutative, lemma_fold_empty, lemma_fold_insert};
use crate::fixed::UNITY;
use crate::keys::Key;
use crate::oscillator::{
    Oscillator,
    OscillatorState,
    lemma_fresh_oscillator_wf,
    lemma_oscillator_steps_wf,
    lemma_output_bounded,
};
use crate::waveform::Waveform;

verus! {

/// The mathematical state of a voice bank.
pub struct BankState {
    pub voices: Map<Key, OscillatorState>,
    pub sample_rate: int,
}

impl BankState {
    /// The bank with no voices.
    pub open spec fn empty(sample_rate: int) -> BankState {
        BankState { voices: Map::empty(), sample_rate }
    }

    /// The bank holds finitely many voices, each well-formed, made for the
    /// bank's sample rate, and not finished.
    pub open spec fn wf(self) -> bool {
        &&& self.voices.dom().finite()
        &&& 0 <= self.sample_rate <= u32::MAX
        &&& forall|k: Key| #[trigger]
            self.voices.contains_key(k) ==> {
                &&& self.voices[k].wf()
                &&& self.voices[k].sample_rate == self.sample_rate
                &&& !self.voices[k].is_done()
            }
    }

    /// The bank after a note-on: the voice of `key` is struck again at
    /// `frequency` if there is one, and a new voice is inserted if not.
    pub open spec fn note_on(self, key: Key, frequency: int, waveform: Waveform) -> BankState {
        let voice = if self.voices.contains_key(key) {
            self.voices[key].restart(frequency)
        } else {
            OscillatorState::fresh(frequency, waveform, self.sample_rate)
        };
        BankState { voices: self.voices.insert(key, voice), ..self }
    }

    /// The bank after a note-off: the voice of `key` is released if there is
    /// one; otherwise nothing changes.
    pub open spec fn note_off(self, key: Key) -> BankState {
        if self.voices.contains_key(key) {
            BankState { voices: self.voices.insert(key, self.voices[key].start_release()), ..self }
        } else {
            self
        }
    }

    /// Whether `key` has a voice that is still sounding after the next tick.
    pub open spec fn survives(self, key: Key) -> bool {
        self.voices.contains_key(key) && !self.voices[key].step().is_done()
    }

    /// The keys whose voices finish on the next tick.
    pub open spec fn finished(self) -> Set<Key> {
        Set::new(|k: Key| self.voices.contains_key(k) && self.voices[k].step().is_done())
    }

    /// The bank one sample later: every voice moved on by one sample, and
    /// those that finished with it removed.
    pub open spec fn tick(self) -> BankState {
        BankState {
            voices: Map::new(|k: Key| self.survives(k), |k: Key| self.voices[k].step()),
            ..self
        }
    }

    /// The bank `n` samples later.
    pub open spec fn ticks(self, n: nat) -> BankState
        decreases n,
    {
        if n == 0 {
            self
        } else {
            self.ticks((n - 1) as nat).tick()
        }
    }

    /// Adds the next output of the voice of a key to a running sum.
    pub open spec fn accumulate(self) -> spec_fn(int, Key) -> int {
        |acc: int, k: Key| acc + self.voices[k].output()
    }

    /// The sum of the next outputs of the voices that survive the next tick.
    pub open spec fn sum(self) -> int {
        self.tick().voices.dom().fold(0int, self.accumulate())
    }

    /// The number of voices that survive the next tick.
    pub open spec fn active(self) -> nat {
        self.tick().voices.dom().len()
    }
}

/// The empty bank is well-formed, and note-on, note-off and tick keep a bank
/// well-formed.
pub proof fn lemma_bank_steps_wf(b: BankState, key: Key, frequency: int, waveform: Waveform)
    requires
        b.wf(),
        0 <= frequency <= u32::MAX,
    ensures
        BankState::empty(b.sample_rate).wf(),
        b.note_on(key, frequency, waveform).wf(),
        b.note_off(key).wf(),
        b.tick().wf(),
        b.finished().finite(),
{
    let on = b.note_on(key, frequency, waveform);
    assert forall|k: Key| #[trigger] on.voices.contains_key(k) implies {
        &&& on.voices[k].wf()
        &&& on.voices[k].sample_rate == on.sample_rate
        &&& !on.voices[k].is_done()
    } by {
        if k == key {
            if b.voices.contains_key(key) {
                lemma_oscillator_steps_wf(b.voices[key], frequency);
            } else {
                lemma_fresh_oscillator_wf(frequency, waveform, b.sample_rate);
            }
        }
    }
    let off = b.note_off(key);
    assert forall|k: Key| #[trigger] off.voices.contains_key(k) implies {
        &&& off.voices[k].wf()
        &&& off.voices[k].sample_rate == off.sample_rate
        &&& !off.voices[k].is_done()
    } by {
        lemma_oscillator_steps_wf(b.voices[k], 0);
    }
    let next = b.tick();
    vstd::set_lib::lemma_len_subset(next.voices.dom(), b.voices.dom());
    vstd::set_lib::lemma_len_subset(b.finished(), b.voices.dom());
    assert forall|k: Key| #[trigger] next.voices.contains_key(k) implies {
        &&& next.voices[k].wf()
        &&& next.voices[k].sample_rate == next.sample_rate
        &&& !next.voices[k].is_done()
    } by {
        lemma_oscillator_steps_wf(b.voices[k], 0);
    }
}

/// The outputs of any finite set of voices of a bank add up to no more than
/// `UNITY` for each of them, in either direction.
pub proof fn lemma_partial_sum_bounded(b: BankState, keys: Set<Key>)
    requires
        b.wf(),
        keys.finite(),
        keys.subset_of(b.voices.dom()),
    ensures
        -(keys.len() * UNITY) <= keys.fold(0int, b.accumulate()) <= keys.len() * UNITY,
    decreases keys.len(),
{
    if keys.len() == 0 {
        assert(keys =~= Set::<Key>::empty());
        lemma_fold_empty::<Key, int>(0int, b.accumulate());
    } else {
        let key = keys.choose();
        let rest = keys.remove(key);
        lemma_partial_sum_bounded(b, rest);
        lemma_accumulate_commutes(b);
        lemma_fold_insert::<Key, int>(rest, 0int, b.accumulate(), key);
        lemma_output_bounded(b.voices[key]);
        assert(keys.len() * UNITY == rest.len() * UNITY + UNITY) by (nonlinear_arith)
            requires
                keys.len() == rest.len() + 1,
        ;
    }
}

/// The sum of a tick is no more than `UNITY` for each voice that survives
/// it, in either direction.
pub proof fn lemma_sum_bounded(b: BankState)
    requires
        b.wf(),
    ensures
        -(b.active() * UNITY) <= b.sum() <= b.active() * UNITY,
{
    lemma_bank_steps_wf(b, Key::Other, 0, Waveform::Sine);
    lemma_partial_sum_bounded(b, b.tick().voices.dom());
}

/// One key with the voice that it sounds.
#[derive(Clone, Copy, Debug)]
struct Slot {
    key: Key,
    voice: Oscillator,
}

/// Whether `slots` holds `key` at index `i`.
spec fn holds(slots: Seq<Slot>, key: Key, i: int) -> bool {
    0 <= i < slots.len() && slots[i].key == key
}

/// No key occurs in two slots.
spec fn distinct(slots: Seq<Slot>) -> bool {
    forall|i: int, j: int| 0 <= i < j < slots.len() ==> slots[i].key != slots[j].key
}

/// The keys held by the first `n` slots.
spec fn prefix_keys(slots: Seq<Slot>, n: int) -> Set<Key> {
    Set::new(|k: Key| exists|i: int| i < n && holds(slots, k, i))
}

/// The map from each key in `slots` to the voice beside it.
spec fn slots_map(slots: Seq<Slot>) -> Map<Key, OscillatorState> {
    Map::new(
        |k: Key| exists|i: int| holds(slots, k, i),
        |k: Key| slots[choose|i: int| holds(slots, k, i)].voice@,
    )
}

proof fn lemma_slot_in_map(slots: Seq<Slot>, i: int)
    requires
        distinct(slots),
        0 <= i < slots.len(),
    ensures
        slots_map(slots).contains_key(slots[i].key),
        slots_map(slots)[slots[i].key] == slots[i].voice@,
{
    assert(holds(slots, slots[i].key, i));
}

proof fn lemma_prefix_keys(slots: Seq<Slot>, n: int)
    requires
        distinct(slots),
        0 <= n <= slots.len(),
    ensures
        prefix_keys(slots, n).finite(),
        prefix_keys(slots, n).len() == n,
        n < slots.len() ==> !prefix_keys(slots, n).contains(slots[n].key),
        n < slots.len() ==> prefix_keys(slots, n + 1) == prefix_keys(slots, n).insert(
            slots[n].key,
        ),
        n == slots.len() ==> prefix_keys(slots, n) == slots_map(slots).dom(),
    decreases n,
{
    if n == 0 {
        assert(prefix_keys(slots, 0) =~= Set::<Key>::empty());
    } else {
        lemma_prefix_keys(slots, n - 1);
    }
    if n < slots.len() {
        assert(holds(slots, slots[n].key, n));
        assert(prefix_keys(slots, n + 1) =~= prefix_keys(slots, n).insert(slots[n].key));
    } else {
        assert(prefix_keys(slots, n) =~= slots_map(slots).dom());
    }
}

proof fn lemma_update_slot(slots: Seq<Slot>, i: int, slot: Slot)
    requires
        distinct(slots),
        0 <= i < slots.len(),
        slot.key == slots[i].key,
    ensures
        distinct(slots.update(i, slot)),
        slots_map(slots.update(i, slot)) == slots_map(slots).insert(slot.key, slot.voice@),
{
    let after = slots.update(i, slot);
    let want = slots_map(slots).insert(slot.key, slot.voice@);
    assert forall|k: Key| slots_map(after).contains_key(k) <==> want.contains_key(k) by {
        if slots_map(after).contains_key(k) {
            let j = choose|j: int| holds(after, k, j);
            assert(holds(slots, k, j));
        }
        if slots_map(slots).contains_key(k) {
            let j = choose|j: int| holds(slots, k, j);
            assert(holds(after, k, j));
        }
        if k == slot.key {
            assert(holds(after, k, i));
        }
    }
    assert forall|k: Key| slots_map(after).contains_key(k) implies slots_map(after)[k]
        == want[k] by {
        let j = choose|j: int| holds(after, k, j);
        lemma_slot_in_map(after, j);
        if j != i {
            lemma_slot_in_map(slots, j);
        }
    }
}

proof fn lemma_push_slot(slots: Seq<Slot>, slot: Slot)
    requires
        distinct(slots),
        !slots_map(slots).contains_key(slot.key),
    ensures
        distinct(slots.push(slot)),
        slots_map(slots.push(slot)) == slots_map(slots).insert(slot.key, slot.voice@),
{
    let after = slots.push(slot);
    assert forall|a: int, b: int| 0 <= a < b < after.len() implies after[a].key
        != after[b].key by {
        if b == slots.len() {
            assert(holds(slots, slots[a].key, a));
        }
    }
    let want = slots_map(slots).insert(slot.key, slot.voice@);
    assert forall|k: Key| slots_map(after).contains_key(k) <==> want.contains_key(k) by {
        if slots_map(after).contains_key(k) {
            let j = choose|j: int| holds(after, k, j);
            if j < slots.len() {
                assert(holds(slots, k, j));
            }
        }
        if slots_map(slots).contains_key(k) {
            let j = choose|j: int| holds(slots, k, j);
            assert(holds(after, k, j));
        }
        if k == slot.key {
            assert(holds(after, k, slots.len() as int));
        }
    }
    assert forall|k: Key| slots_map(after).contains_key(k) implies slots_map(after)[k]
        == want[k] by {
        let j = choose|j: int| holds(after, k, j);
        lemma_slot_in_map(after, j);
        if j < slots.len() {
            lemma_slot_in_map(slots, j);
        }
    }
}

/// What one tick of the bank yields.
#[derive(Debug)]
pub struct Tick {
    /// The sum of the samples of the voices that are still sounding.
    pub sum: i128,
    /// The number of voices that are still sounding.
    pub active: usize,
    /// The keys whose voices finished on this tick and were removed.
    pub finished: Vec<Key>,
}

/// The voices that are sounding, one per key.
#[derive(Debug)]
pub struct VoiceBank {
    slots: Vec<Slot>,
    sample_rate: u32,
}

impl View for VoiceBank {
    type V = BankState;

    closed spec fn view(&self) -> BankState {
        BankState { voices: slots_map(self.slots@), sample_rate: self.sample_rate as int }
    }
}

impl VoiceBank {
    /// Whether the bank satisfies its invariant: it is well-formed as a map,
    /// and its representation holds each key once.
    pub closed spec fn wf(&self) -> bool {
        &&& distinct(self.slots@)
        &&& self@.wf()
    }

    /// A well-formed bank is a well-formed map.
    pub proof fn lemma_wf_view(&self)
        requires
            self.wf(),
        ensures
            self@.wf(),
    {
    }

    /// Creates an empty bank whose voices will be made for `sample_rate`
    /// samples per second.
    pub fn new(sample_rate: u32) -> (bank: VoiceBank)
        ensures
            bank.wf(),
            bank@ == BankState::empty(sample_rate as int),
    {
        let bank = VoiceBank { slots: Vec::new(), sample_rate };
        proof {
            assert(slots_map(bank.slots@) =~= Map::<Key, OscillatorState>::empty());
        }
        bank
    }

    /// The sample rate that the bank's voices are made for.
    pub fn sample_rate(&self) -> (rate: u32)
        ensures
            rate == self@.sample_rate,
    {
        self.sample_rate
    }

    /// The number of voices in the bank.
    pub fn len(&self) -> (n: usize)
        requires
            self.wf(),
        ensures
            n == self@.voices.len(),
    {
        proof {
            lemma_prefix_keys(self.slots@, self.slots@.len() as int);
        }
        self.slots.len()
    }

    /// Whether the bank holds no voice.
    pub fn is_empty(&self) -> (empty: bool)
        requires
            self.wf(),
        ensures
            empty == (self@.voices.len() == 0),
    {
        proof {
            lemma_prefix_keys(self.slots@, self.slots@.len() as int);
        }
        self.slots.len() == 0
    }

    /// The index of the slot that holds `key`, if any.
    fn position(&self, key: Key) -> (found: Option<usize>)
        ensures
            match found {
                Some(i) => holds(self.slots@, key, i as int),
                None => !self@.voices.contains_key(key),
            },
    {
        let mut i: usize = 0;
        while i < self.slots.len()
            invariant
                i <= self.slots.len(),
                forall|j: int| 0 <= j < i ==> !holds(self.slots@, key, j),
            decreases self.slots.len() - i,
        {
            if self.slots[i].key == key {
                return Some(i);
            }
            i += 1;
        }
        None
    }

    /// Whether `key` has a voice in the bank.
    pub fn contains(&self, key: Key) -> (present: bool)
        ensures
            present == self@.voices.contains_key(key),
    {
        match self.position(key) {
            Some(i) => {
                true
            },
            None => false,
        }
    }

    /// The voice of `key`, if it has one.
    pub fn voice(&self, key: Key) -> (voice: Option<Oscillator>)
        requires
            self.wf(),
        ensures
            voice is Some == self@.voices.contains_key(key),
            voice is Some ==> voice->0@ == self@.voices[key] && voice->0.wf(),
    {
        match self.position(key) {
            Some(i) => {
                proof {
                    lemma_slot_in_map(self.slots@, i as int);
                }
                Some(self.slots[i].voice)
            },
            None => None,
        }
    }

    /// Starts the note of `key`: strikes its voice again at `frequency` if it
    /// has one, and otherwise inserts a new voice of `frequency` hundredths
    /// of a hertz with the given waveform.
    pub fn note_on(&mut self, key: Key, frequency: u32, waveform: Waveform)
        requires
            old(self).wf(),
        ensures
            final(self).wf(),
            final(self)@ == old(self)@.note_on(key, frequency as int, waveform),
    {
        proof {
            lemma_bank_steps_wf(self@, key, frequency as int, waveform);
        }
        match self.position(key) {
            Some(i) => {
                let mut slot = self.slots[i];
                proof {
                    lemma_slot_in_map(self.slots@, i as int);
                }
                slot.voice.restart(frequency);
                proof {
                    lemma_update_slot(self.slots@, i as int, slot);
                }
                self.slots[i] = slot;
            },
            None => {
                let slot = Slot { key, voice: Oscillator::new(frequency, waveform, self.sample_rate) };
                proof {
                    lemma_push_slot(self.slots@, slot);
                }
                self.slots.push(slot);
            },
        }
    }

    /// Ends the note of `key`: releases its voice if it has one, and does
    /// nothing otherwise.
    pub fn note_off(&mut self, key: Key)
        requires
            old(self).wf(),
        ensures
            final(self).wf(),
            final(self)@ == old(self)@.note_off(key),
    {
        proof {
            lemma_bank_steps_wf(self@, key, 0, Waveform::Sine);
        }
        match self.position(key) {
            Some(i) => {
                let mut slot = self.slots[i];
                proof {
                    lemma_slot_in_map(self.slots@, i as int);
                }
                slot.voice.start_release();
                proof {
                    lemma_update_slot(self.slots@, i as int, slot);
                }
                self.slots[i] = slot;
            },
            None => {},
        }
    }

    /// Moves every voice on by one sample, removes the voices that finished
    /// with it, and reports the sum of the samples of the voices that remain,
    /// their number, and the keys of those removed.
    pub fn tick_all(&mut self) -> (tick: Tick)
        requires
            old(self).wf(),
        ensures
            final(self).wf(),
            final(self)@ == old(self)@.tick(),
            tick.sum == old(self)@.sum(),
            tick.active == old(self)@.active(),
            tick.finished@.no_duplicates(),
            tick.finished@.to_set() == old(self)@.finished(),
            -(tick.active * UNITY) <= tick.sum <= tick.active * UNITY,
    {
        let ghost before = self@;
        let ghost slots = self.slots@;
        let n = self.slots.len();
        let mut sum: i128 = 0;
        let mut finished: Vec<Key> = Vec::new();
        let mut kept: usize = 0;
        let mut i: usize = 0;
        proof {
            lemma_bank_steps_wf(before, Key::Other, 0, Waveform::Sine);
            lemma_accumulate_commutes(before);
            lemma_prefix_keys(slots, 0);
            lemma_fold_empty::<Key, int>(0int, before.accumulate());
            assert(sounding(before, slots, 0) =~= Set::<Key>::empty());
            assert(slots_map(self.slots@.subrange(0, 0)) =~= before.tick().voices.restrict(
                sounding(before, slots, 0),
            ));
        }
        while i < n
            invariant
                before.wf(),
                before.voices == slots_map(slots),
                distinct(slots),
                is_fun_commutative(before.accumulate()),
                n == slots.len(),
                n == self.slots.len(),
                self.sample_rate == before.sample_rate,
                kept <= i <= n,
                forall|j: int| i <= j < n ==> self.slots[j] == slots[j],
                distinct(self.slots@.subrange(0, kept as int)),
                slots_map(self.slots@.subrange(0, kept as int)) == before.tick().voices.restrict(
                    sounding(before, slots, i as int),
                ),
                sounding(before, slots, i as int).finite(),
                sounding(before, slots, i as int).len() == kept,
                sum == sounding(before, slots, i as int).fold(0int, before.accumulate()),
                -(kept * UNITY) <= sum <= kept * UNITY,
                finished@.no_duplicates(),
                finished@.to_set() == silenced(before, slots, i as int),
            decreases n - i,
        {
            let mut slot = self.slots[i];
            let ghost voice = slot.voice@;
            let ghost head = self.slots@.subrange(0, kept as int);
            proof {
                lemma_slot_in_map(slots, i as int);
                lemma_prefix_keys(slots, i as int);
                lemma_output_bounded(voice);
                lemma_sounding_step(before, slots, i as int);
            }
            let sample = slot.voice.sample_and_advance();
            if slot.voice.is_done() {
                proof {
                    finished@.lemma_push_to_set_commute(slot.key);
                }
                finished.push(slot.key);
            } else {
                proof {
                    lemma_push_slot(head, slot);
                    lemma_fold_insert::<Key, int>(
                        sounding(before, slots, i as int),
                        0int,
                        before.accumulate(),
                        slot.key,
                    );
                }
                sum = sum + sample as i128;
                self.slots[kept] = slot;
                proof {
                    assert(self.slots@.subrange(0, kept + 1) =~= head.push(slot));
                    assert(slots_map(head.push(slot)) =~= before.tick().voices.restrict(
                        sounding(before, slots, i + 1),
                    ));
                }
                kept += 1;
            }
            i += 1;
        }
        self.slots.truncate(kept);
        proof {
            lemma_prefix_keys(slots, n as int);
            assert(sounding(before, slots, n as int) =~= before.tick().voices.dom());
            assert(slots_map(self.slots@) =~= before.tick().voices);
        }
        Tick { sum, active: kept, finished }
    }
}

/// The keys among the first `n` slots whose voices survive the next tick.
spec fn sounding(b: BankState, slots: Seq<Slot>, n: int) -> Set<Key> {
    Set::new(|k: Key| prefix_keys(slots, n).contains(k) && b.survives(k))
}

/// The keys among the first `n` slots whose voices finish on the next tick.
spec fn silenced(b: BankState, slots: Seq<Slot>, n: int) -> Set<Key> {
    Set::new(|k: Key| prefix_keys(slots, n).contains(k) && !b.survives(k))
}

proof fn lemma_accumulate_commutes(b: BankState)
    ensures
        is_fun_commutative(b.accumulate()),
{
    let f = b.accumulate();
    assert forall|a1: Key, a2: Key, acc: int| #[trigger] f(f(acc, a2), a1) == f(f(acc, a1), a2) by {}
}

proof fn lemma_sounding_step(b: BankState, slots: Seq<Slot>, n: int)
    requires
        distinct(slots),
        b.voices == slots_map(slots),
        0 <= n < slots.len(),
    ensures
        !sounding(b, slots, n).contains(slots[n].key),
        !silenced(b, slots, n).contains(slots[n].key),
        b.survives(slots[n].key) ==> sounding(b, slots, n + 1) == sounding(b, slots, n).insert(
            slots[n].key,
        ) && silenced(b, slots, n + 1) == silenced(b, slots, n),
        !b.survives(slots[n].key) ==> sounding(b, slots, n + 1) == sounding(b, slots, n)
            && silenced(b, slots, n + 1) == silenced(b, slots, n).insert(slots[n].key),
{
    lemma_prefix_keys(slots, n);
}

} // verus!
