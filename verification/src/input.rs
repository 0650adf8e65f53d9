//! Edge detection: from two successive snapshots of the keys that are held
//! down to the note events between them.

use vstd::prelude::*;
use crate::keys::Key;
use crate::synth::SynthCommand;

verus! {

/// The predicate that holds of the keys that do not occur in `keys`.
pub open spec fn absent_from(keys: Seq<Key>) -> spec_fn(Key) -> bool {
    |key: Key| !keys.contains(key)
}

/// The keys of `current` that are not in `previous`, in the order of
/// `current`: the keys that went down between the two snapshots.
pub open spec fn pressed(previous: Seq<Key>, current: Seq<Key>) -> Seq<Key> {
    current.filter(absent_from(previous))
}

/// The keys of `previous` that are not in `current`, in the order of
/// `previous`: the keys that came up between the two snapshots.
pub open spec fn released(previous: Seq<Key>, current: Seq<Key>) -> Seq<Key> {
    previous.filter(absent_from(current))
}

/// A note-on for each of `keys`.
pub open spec fn note_ons_for(keys: Seq<Key>) -> Seq<SynthCommand> {
    keys.map_values(|key: Key| SynthCommand::NoteOn(key))
}

/// A note-off for each of `keys`.
pub open spec fn note_offs_for(keys: Seq<Key>) -> Seq<SynthCommand> {
    keys.map_values(|key: Key| SynthCommand::NoteOff(key))
}

/// The note events between two snapshots: a note-on for every key that went
/// down, then a note-off for every key that came up.
pub open spec fn events_between(previous: Seq<Key>, current: Seq<Key>) -> Seq<SynthCommand> {
    note_ons_for(pressed(previous, current)) + note_offs_for(released(previous, current))
}

/// Whether `key` occurs in `keys`.
pub fn is_held(keys: &Vec<Key>, key: Key) -> (held: bool)
    ensures
        held == keys@.contains(key),
{
    let mut i: usize = 0;
    while i < keys.len()
        invariant
            i <= keys.len(),
            forall|j: int| 0 <= j < i ==> keys@[j] != key,
        decreases keys.len() - i,
    {
        if keys[i] == key {
            return true;
        }
        i += 1;
    }
    false
}

/// Filtering one more element keeps it exactly where the predicate holds.
proof fn lemma_filter_next(keys: Seq<Key>, n: int, pred: spec_fn(Key) -> bool)
    requires
        0 <= n < keys.len(),
    ensures
        keys.subrange(0, n + 1).filter(pred) == if pred(keys[n]) {
            keys.subrange(0, n).filter(pred).push(keys[n])
        } else {
            keys.subrange(0, n).filter(pred)
        },
{
    reveal(Seq::filter);
    assert(keys.subrange(0, n + 1).drop_last() == keys.subrange(0, n));
}

/// Computes the note events between two snapshots of the keys held down: a
/// note-on for every key of `current` that is not in `previous`, then a
/// note-off for every key of `previous` that is not in `current`.
pub fn key_events(previous: &Vec<Key>, current: &Vec<Key>) -> (events: Vec<SynthCommand>)
    ensures
        events@ == events_between(previous@, current@),
{
    let mut events: Vec<SynthCommand> = Vec::new();
    let mut i: usize = 0;
    proof {
        reveal(Seq::filter);
    }
    while i < current.len()
        invariant
            i <= current.len(),
            events@ == note_ons_for(pressed(previous@, current@.subrange(0, i as int))),
        decreases current.len() - i,
    {
        let key = current[i];
        proof {
            lemma_filter_next(current@, i as int, absent_from(previous@));
        }
        if !is_held(previous, key) {
            events.push(SynthCommand::NoteOn(key));
        }
        i += 1;
    }
    let ghost downs = events@;
    let mut j: usize = 0;
    proof {
        reveal(Seq::filter);
        assert(current@.subrange(0, current@.len() as int) == current@);
    }
    while j < previous.len()
        invariant
            j <= previous.len(),
            downs == note_ons_for(pressed(previous@, current@)),
            events@ == downs + note_offs_for(released(previous@.subrange(0, j as int), current@)),
        decreases previous.len() - j,
    {
        let key = previous[j];
        proof {
            lemma_filter_next(previous@, j as int, absent_from(current@));
        }
        if !is_held(current, key) {
            events.push(SynthCommand::NoteOff(key));
        }
        j += 1;
    }
    proof {
        assert(previous@.subrange(0, previous@.len() as int) == previous@);
    }
    events
}

/// Every event between two snapshots is a note-on for a key that is held now
/// and was not before, or a note-off for a key that was held before and is
/// not now; and two equal snapshots give no event.
pub proof fn lemma_events_are_edges(previous: Seq<Key>, current: Seq<Key>, i: int)
    requires
        0 <= i < events_between(previous, current).len(),
    ensures
        match events_between(previous, current)[i] {
            SynthCommand::NoteOn(key) => current.contains(key) && !previous.contains(key),
            SynthCommand::NoteOff(key) => previous.contains(key) && !current.contains(key),
        },
        events_between(previous, previous).len() == 0,
{
    let downs = pressed(previous, current);
    let ups = released(previous, current);
    if i < downs.len() {
        current.lemma_filter_pred(absent_from(previous), i);
        current.lemma_filter_contains_rev(absent_from(previous), downs[i]);
    } else {
        previous.lemma_filter_pred(absent_from(current), i - downs.len());
        previous.lemma_filter_contains_rev(absent_from(current), ups[i - downs.len()]);
    }
    let same = pressed(previous, previous);
    if same.len() > 0 {
        previous.lemma_filter_pred(absent_from(previous), 0);
        previous.lemma_filter_contains_rev(absent_from(previous), same[0]);
    }
}

} // verus!
