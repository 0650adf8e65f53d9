use keysynth::bank::VoiceBank;
use keysynth::envelope::Stage;
use keysynth::fixed::UNITY;
use keysynth::keys::Key;
use keysynth::waveform::Waveform;

const ATTACK_RATE: u32 = 2_434_789;

#[test]
fn new_bank_is_empty() {
    let bank = VoiceBank::new(44_100);
    assert_eq!(bank.len(), 0);
    assert!(bank.is_empty());
    assert_eq!(bank.sample_rate(), 44_100);
    assert!(!bank.contains(Key::A));
    assert!(bank.voice(Key::A).is_none());
}

#[test]
fn note_on_inserts_a_voice() {
    let mut bank = VoiceBank::new(44_100);
    bank.note_on(Key::A, 26_163, Waveform::Sine);
    assert_eq!(bank.len(), 1);
    assert!(!bank.is_empty());
    assert!(bank.contains(Key::A));
    assert!(!bank.contains(Key::W));
    let voice = bank.voice(Key::A).unwrap();
    assert_eq!(voice.frequency(), 26_163);
    assert_eq!(voice.sample_rate(), 44_100);
    assert_eq!(voice.phase(), 0);
    assert_eq!(voice.envelope().stage(), Stage::Attack);
}

#[test]
fn note_on_for_a_sounding_key_adds_no_voice() {
    let mut bank = VoiceBank::new(44_100);
    bank.note_on(Key::A, 26_163, Waveform::Sine);
    bank.note_on(Key::W, 27_718, Waveform::Square);
    bank.tick_all();
    bank.note_on(Key::A, 44_000, Waveform::Sawtooth);
    assert_eq!(bank.len(), 2);
    let voice = bank.voice(Key::A).unwrap();
    assert_eq!(voice.frequency(), 44_000);
    assert_eq!(voice.waveform(), Waveform::Sine);
    assert_eq!(voice.phase(), 0);
    assert_eq!(voice.envelope().level(), ATTACK_RATE);
    assert_eq!(voice.envelope().stage(), Stage::Attack);
    let other = bank.voice(Key::W).unwrap();
    assert_eq!(other.phase(), 26_994_989);
    assert_eq!(other.waveform(), Waveform::Square);
}

#[test]
fn note_off_releases_only_the_voice_of_the_key() {
    let mut bank = VoiceBank::new(44_100);
    bank.note_on(Key::A, 26_163, Waveform::Sine);
    bank.note_on(Key::W, 27_718, Waveform::Sine);
    bank.tick_all();
    bank.note_off(Key::A);
    assert_eq!(bank.len(), 2);
    assert_eq!(bank.voice(Key::A).unwrap().envelope().stage(), Stage::Release);
    assert_eq!(bank.voice(Key::A).unwrap().envelope().level(), ATTACK_RATE);
    assert_eq!(bank.voice(Key::W).unwrap().envelope().stage(), Stage::Attack);
}

#[test]
fn note_off_for_an_unknown_key_is_ignored() {
    let mut bank = VoiceBank::new(44_100);
    bank.note_on(Key::A, 26_163, Waveform::Sine);
    bank.note_off(Key::K);
    bank.note_off(Key::Other);
    assert_eq!(bank.len(), 1);
    assert_eq!(bank.voice(Key::A).unwrap().envelope().stage(), Stage::Attack);
}

#[test]
fn tick_of_an_empty_bank_is_silent() {
    let mut bank = VoiceBank::new(44_100);
    let tick = bank.tick_all();
    assert_eq!(tick.sum, 0);
    assert_eq!(tick.active, 0);
    assert!(tick.finished.is_empty());
}

#[test]
fn tick_sums_the_samples_of_all_voices() {
    let mut bank = VoiceBank::new(44_100);
    bank.note_on(Key::A, 26_163, Waveform::Square);
    bank.note_on(Key::W, 27_718, Waveform::Sawtooth);
    bank.note_on(Key::S, 29_366, Waveform::Sine);
    let tick = bank.tick_all();
    assert_eq!(tick.sum, 0);
    assert_eq!(tick.active, 3);
    assert!(tick.finished.is_empty());
    let mut solo = VoiceBank::new(44_100);
    solo.note_on(Key::A, 26_163, Waveform::Square);
    let tick = solo.tick_all();
    assert_eq!(tick.sum, ATTACK_RATE as i128);
    assert_eq!(tick.active, 1);
}

#[test]
fn tick_removes_the_voices_that_finished() {
    let mut bank = VoiceBank::new(44_100);
    bank.note_on(Key::A, 26_163, Waveform::Square);
    bank.note_on(Key::W, 27_718, Waveform::Square);
    bank.note_on(Key::S, 29_366, Waveform::Square);
    bank.tick_all();
    bank.note_off(Key::A);
    bank.note_off(Key::S);
    let mut removed: Vec<Key> = Vec::new();
    let mut pulls: u32 = 0;
    while removed.is_empty() {
        let tick = bank.tick_all();
        pulls += 1;
        assert_eq!(tick.active, bank.len());
        removed = tick.finished;
    }
    assert_eq!(pulls, 50);
    assert_eq!(removed, vec![Key::A, Key::S]);
    assert_eq!(bank.len(), 1);
    assert!(bank.contains(Key::W));
    assert!(!bank.contains(Key::A));
    assert!(!bank.contains(Key::S));
    let tick = bank.tick_all();
    assert_eq!(tick.active, 1);
    assert_eq!(tick.sum, 52 * ATTACK_RATE as i128);
}

#[test]
fn a_removed_voice_starts_afresh_on_the_next_note_on() {
    let mut bank = VoiceBank::new(44_100);
    bank.note_on(Key::A, 26_163, Waveform::Sine);
    bank.note_off(Key::A);
    let tick = bank.tick_all();
    assert_eq!(tick.finished, vec![Key::A]);
    assert_eq!(tick.active, 0);
    assert_eq!(tick.sum, 0);
    assert!(bank.is_empty());
    bank.note_on(Key::A, 26_163, Waveform::Square);
    let voice = bank.voice(Key::A).unwrap();
    assert_eq!(voice.waveform(), Waveform::Square);
    assert_eq!(voice.envelope().level(), 0);
    assert_eq!(voice.envelope().stage(), Stage::Attack);
}

#[test]
fn the_sum_stays_within_the_number_of_voices() {
    let keys = [Key::A, Key::W, Key::S, Key::E, Key::D, Key::F, Key::T];
    let mut bank = VoiceBank::new(44_100);
    let mut frequency: u32 = 20_000;
    for key in keys {
        bank.note_on(key, frequency, Waveform::Square);
        frequency += 7_919;
    }
    for _ in 0..2_000u32 {
        let tick = bank.tick_all();
        assert_eq!(tick.active, 7);
        assert!(tick.sum.abs() <= 7 * UNITY as i128);
    }
}
