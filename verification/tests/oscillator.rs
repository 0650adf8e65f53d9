use keysynth::envelope::Stage;
use keysynth::fixed::UNITY;
use keysynth::keys::{frequency_from_key, Key};
use keysynth::oscillator::{phase_increment_for, Oscillator, ATTACK_MS, RELEASE_MS};
use keysynth::waveform::Waveform;

const FULL: i32 = UNITY as i32;
const ATTACK_RATE: u32 = 2_434_789;

#[test]
fn keys_play_the_octave_from_c4() {
    assert_eq!(frequency_from_key(Key::A), Some(26_163));
    assert_eq!(frequency_from_key(Key::W), Some(27_718));
    assert_eq!(frequency_from_key(Key::S), Some(29_366));
    assert_eq!(frequency_from_key(Key::E), Some(31_113));
    assert_eq!(frequency_from_key(Key::D), Some(32_963));
    assert_eq!(frequency_from_key(Key::F), Some(34_923));
    assert_eq!(frequency_from_key(Key::T), Some(36_999));
    assert_eq!(frequency_from_key(Key::G), Some(39_200));
    assert_eq!(frequency_from_key(Key::Y), Some(41_530));
    assert_eq!(frequency_from_key(Key::H), Some(44_000));
    assert_eq!(frequency_from_key(Key::U), Some(46_616));
    assert_eq!(frequency_from_key(Key::J), Some(49_388));
    assert_eq!(frequency_from_key(Key::K), Some(52_325));
}

#[test]
fn other_keys_play_no_note() {
    assert_eq!(frequency_from_key(Key::Other), None);
}

#[test]
fn phase_increment_is_cycles_per_sample() {
    assert_eq!(phase_increment_for(26_163, 44_100), 25_480_550);
    assert_eq!(phase_increment_for(27_718, 44_100), 26_994_989);
    assert_eq!(phase_increment_for(44_000, 44_100), 42_852_281);
    assert_eq!(phase_increment_for(50, 1), 0x8000_0000);
}

#[test]
fn phase_increment_wraps_into_one_cycle() {
    assert_eq!(phase_increment_for(4_410_000, 44_100), 0);
    assert_eq!(phase_increment_for(441_000_000, 44_100), 0);
    assert_eq!(phase_increment_for(150, 1), 0x8000_0000);
    assert_eq!(phase_increment_for(u32::MAX, 1), 4_080_218_931);
}

#[test]
fn phase_increment_at_zero_sample_rate_is_zero() {
    assert_eq!(phase_increment_for(44_000, 0), 0);
}

#[test]
fn envelope_times_are_ten_and_five_hundred_milliseconds() {
    assert_eq!(ATTACK_MS, 10);
    assert_eq!(RELEASE_MS, 500);
}

#[test]
fn new_oscillator_starts_at_phase_zero() {
    let osc = Oscillator::new(26_163, Waveform::Sine, 44_100);
    assert_eq!(osc.phase(), 0);
    assert_eq!(osc.phase_increment(), 25_480_550);
    assert_eq!(osc.frequency(), 26_163);
    assert_eq!(osc.waveform(), Waveform::Sine);
    assert_eq!(osc.sample_rate(), 44_100);
    assert_eq!(osc.envelope().stage(), Stage::Attack);
    assert_eq!(osc.envelope().level(), 0);
    assert_eq!(osc.envelope().attack_rate(), ATTACK_RATE);
    assert_eq!(osc.envelope().release_rate(), 48_696);
    assert!(!osc.is_done());
}

#[test]
fn set_frequency_keeps_the_phase() {
    let mut osc = Oscillator::new(26_163, Waveform::Sine, 44_100);
    osc.advance_phase();
    osc.advance_phase();
    osc.set_frequency(44_000);
    assert_eq!(osc.phase(), 2 * 25_480_550);
    assert_eq!(osc.frequency(), 44_000);
    assert_eq!(osc.phase_increment(), 42_852_281);
}

#[test]
fn reset_phase_returns_to_the_start_of_the_cycle() {
    let mut osc = Oscillator::new(26_163, Waveform::Sine, 44_100);
    osc.advance_phase();
    osc.reset_phase();
    assert_eq!(osc.phase(), 0);
    assert_eq!(osc.phase_increment(), 25_480_550);
}

#[test]
fn advance_phase_wraps_at_the_end_of_the_cycle() {
    let mut osc = Oscillator::new(150, Waveform::Square, 4);
    assert_eq!(osc.phase_increment(), 0x6000_0000);
    osc.advance_phase();
    assert_eq!(osc.phase(), 0x6000_0000);
    osc.advance_phase();
    assert_eq!(osc.phase(), 0xc000_0000);
    osc.advance_phase();
    assert_eq!(osc.phase(), 0x2000_0000);
}

#[test]
fn phase_stays_in_step_over_a_long_run() {
    let mut osc = Oscillator::new(44_000, Waveform::Sine, 44_100);
    let mut expected: u64 = 0;
    for _ in 0..1_000_000u32 {
        osc.advance_phase();
        expected = (expected + 42_852_281) % 0x1_0000_0000;
    }
    assert_eq!(osc.phase() as u64, expected);
}

#[test]
fn raw_sample_reads_the_waveform_at_the_phase() {
    let mut osc = Oscillator::new(26_163, Waveform::Sine, 44_100);
    assert_eq!(osc.raw_sample(), 0);
    osc.advance_phase();
    assert_eq!(osc.raw_sample(), 40_666_581);
    assert_eq!(osc.phase(), 25_480_550);
    let saw = Oscillator::new(26_163, Waveform::Sawtooth, 44_100);
    assert_eq!(saw.raw_sample(), -FULL);
    let square = Oscillator::new(26_163, Waveform::Square, 44_100);
    assert_eq!(square.raw_sample(), FULL);
}

#[test]
fn apply_envelope_ticks_and_attenuates() {
    let mut osc = Oscillator::new(26_163, Waveform::Sine, 44_100);
    assert_eq!(osc.apply_envelope(FULL), ATTACK_RATE as i32);
    assert_eq!(osc.envelope().level(), ATTACK_RATE);
    assert_eq!(osc.apply_envelope(-FULL), -2 * ATTACK_RATE as i32);
    assert_eq!(osc.apply_envelope(1000), 6);
    assert_eq!(osc.phase(), 0);
}

#[test]
fn sample_and_advance_shapes_the_waveform() {
    let mut osc = Oscillator::new(26_163, Waveform::Sine, 44_100);
    assert_eq!(osc.sample_and_advance(), 0);
    assert_eq!(osc.phase(), 25_480_550);
    assert_eq!(osc.sample_and_advance(), 184_428);
    assert_eq!(osc.phase(), 2 * 25_480_550);
    assert_eq!(osc.envelope().level(), 2 * ATTACK_RATE);
}

#[test]
fn sustained_square_wave_is_at_full_scale() {
    let mut osc = Oscillator::new(44_000, Waveform::Square, 44_100);
    for _ in 0..441u32 {
        osc.sample_and_advance();
    }
    assert_eq!(osc.envelope().stage(), Stage::Sustain);
    let sample: i32 = osc.sample_and_advance();
    assert!(sample == FULL || sample == -FULL);
}

#[test]
fn restart_retunes_resets_and_attacks_from_the_current_level() {
    let mut osc = Oscillator::new(26_163, Waveform::Sine, 44_100);
    for _ in 0..100u32 {
        osc.sample_and_advance();
    }
    osc.start_release();
    osc.sample_and_advance();
    let level: u32 = osc.envelope().level();
    assert_eq!(level, 243_430_204);
    osc.restart(44_000);
    assert_eq!(osc.phase(), 0);
    assert_eq!(osc.frequency(), 44_000);
    assert_eq!(osc.phase_increment(), 42_852_281);
    assert_eq!(osc.envelope().stage(), Stage::Attack);
    assert_eq!(osc.envelope().level(), level);
}

#[test]
fn start_release_fades_the_voice_out() {
    let mut osc = Oscillator::new(26_163, Waveform::Square, 44_100);
    for _ in 0..441u32 {
        osc.sample_and_advance();
    }
    osc.start_release();
    assert_eq!(osc.envelope().stage(), Stage::Release);
    let mut pulls: u32 = 0;
    let mut last: i32 = FULL;
    while !osc.is_done() {
        let sample: i32 = osc.sample_and_advance();
        assert!(sample.abs() < last);
        last = sample.abs();
        pulls += 1;
    }
    assert_eq!(pulls, 22_050);
    assert_eq!(last, 0);
    assert_eq!(osc.sample_and_advance(), 0);
}

#[test]
fn second_start_release_changes_nothing() {
    let mut once = Oscillator::new(26_163, Waveform::Sine, 44_100);
    let mut twice = Oscillator::new(26_163, Waveform::Sine, 44_100);
    for _ in 0..50u32 {
        once.sample_and_advance();
        twice.sample_and_advance();
    }
    once.start_release();
    twice.start_release();
    twice.start_release();
    for _ in 0..6_000u32 {
        assert_eq!(once.sample_and_advance(), twice.sample_and_advance());
    }
    assert!(once.is_done() && twice.is_done());
}
