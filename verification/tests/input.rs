use keysynth::input::{is_held, key_events};
use keysynth::keys::Key;
use keysynth::synth::SynthCommand;

#[test]
fn no_change_gives_no_event() {
    let held = vec![Key::A, Key::D, Key::G];
    assert_eq!(key_events(&held, &held), vec![]);
    assert_eq!(key_events(&vec![], &vec![]), vec![]);
}

#[test]
fn a_key_that_goes_down_gives_a_note_on() {
    let events = key_events(&vec![Key::A], &vec![Key::A, Key::W]);
    assert_eq!(events, vec![SynthCommand::NoteOn(Key::W)]);
}

#[test]
fn a_key_that_comes_up_gives_a_note_off() {
    let events = key_events(&vec![Key::A, Key::W], &vec![Key::W]);
    assert_eq!(events, vec![SynthCommand::NoteOff(Key::A)]);
}

#[test]
fn note_ons_come_before_note_offs_each_in_snapshot_order() {
    let previous = vec![Key::K, Key::A, Key::S, Key::J];
    let current = vec![Key::D, Key::A, Key::F, Key::E];
    let events = key_events(&previous, &current);
    assert_eq!(
        events,
        vec![
            SynthCommand::NoteOn(Key::D),
            SynthCommand::NoteOn(Key::F),
            SynthCommand::NoteOn(Key::E),
            SynthCommand::NoteOff(Key::K),
            SynthCommand::NoteOff(Key::S),
            SynthCommand::NoteOff(Key::J),
        ]
    );
}

#[test]
fn first_snapshot_strikes_every_key_held() {
    let events = key_events(&vec![], &vec![Key::H, Key::Other]);
    assert_eq!(
        events,
        vec![SynthCommand::NoteOn(Key::H), SynthCommand::NoteOn(Key::Other)]
    );
}

#[test]
fn is_held_finds_a_key_in_a_snapshot() {
    let held = vec![Key::A, Key::D];
    assert!(is_held(&held, Key::A));
    assert!(is_held(&held, Key::D));
    assert!(!is_held(&held, Key::W));
    assert!(!is_held(&vec![], Key::A));
}
