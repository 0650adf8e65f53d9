//! The playable keys and the note each of them sounds.

use vstd::prelude::*;

verus! {

/// A key of the keyboard, as far as the synthesizer tells keys apart.
///
/// The thirteen named keys form one chromatic octave laid out like a piano:
/// the home row plays the white keys and the row above it the black ones.
#[derive(Clone, Copy, Debug, PartialEq, Eq, Hash, Structural)]
pub enum Key {
    A,
    W,
    S,
    E,
    D,
    F,
    T,
    G,
    Y,
    H,
    U,
    J,
    K,
    /// Any key that plays no note.
    Other,
}

/// The frequency of the note that `key` plays, in hundredths of a hertz, or
/// `None` where the key plays no note: the equal-tempered octave from C4
/// (261.63 Hz) to C5 (523.25 Hz).
pub open spec fn frequency_of(key: Key) -> Option<u32> {
    match key {
        Key::A => Some(26163u32),
        Key::W => Some(27718u32),
        Key::S => Some(29366u32),
        Key::E => Some(31113u32),
        Key::D => Some(32963u32),
        Key::F => Some(34923u32),
        Key::T => Some(36999u32),
        Key::G => Some(39200u32),
        Key::Y => Some(41530u32),
        Key::H => Some(44000u32),
        Key::U => Some(46616u32),
        Key::J => Some(49388u32),
        Key::K => Some(52325u32),
        Key::Other => None,
    }
}

/// Looks up the frequency of the note that `key` plays, in hundredths of a
/// hertz; `None` for a key that plays no note.
pub fn frequency_from_key(key: Key) -> (frequency: Option<u32>)
    ensures
        frequency == frequency_of(key),
{
    match key {
        Key::A => Some(26163),
        Key::W => Some(27718),
        Key::S => Some(29366),
        Key::E => Some(31113),
        Key::D => Some(32963),
        Key::F => Some(34923),
        Key::T => Some(36999),
        Key::G => Some(39200),
        Key::Y => Some(41530),
        Key::H => Some(44000),
        Key::U => Some(46616),
        Key::J => Some(49388),
        Key::K => Some(52325),
        Key::Other => None,
    }
}

/// Every key but `Other` plays a note, no two keys play the same note, and
/// every note lies within the octave from C4 to C5.
pub proof fn lemma_keys_play_distinct_notes(a: Key, b: Key)
    ensures
        frequency_of(a) is None <==> a is Other,
        frequency_of(a) is Some ==> 26163 <= frequency_of(a)->0 <= 52325,
        frequency_of(a) is Some && frequency_of(a) == frequency_of(b) ==> a == b,
{
}

} // verus!
