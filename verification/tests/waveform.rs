use keysynth::fixed::{scale, HALF_PERIOD, PERIOD, UNITY};
use keysynth::waveform::{sample_at, Waveform};

const FULL: i32 = UNITY as i32;

#[test]
fn sine_passes_through_its_landmarks() {
    assert_eq!(sample_at(Waveform::Sine, 0), 0);
    assert_eq!(sample_at(Waveform::Sine, 0x4000_0000), FULL);
    assert_eq!(sample_at(Waveform::Sine, 0x8000_0000), 0);
    assert_eq!(sample_at(Waveform::Sine, 0xc000_0000), -FULL);
}

#[test]
fn sine_at_exact_points() {
    assert_eq!(sample_at(Waveform::Sine, (PERIOD / 8) as u32), 757_935_405);
    assert_eq!(sample_at(Waveform::Sine, (PERIOD / 12) as u32), 536_870_911);
    assert_eq!(sample_at(Waveform::Sine, 25_480_550), 40_666_581);
    assert_eq!(sample_at(Waveform::Sine, (HALF_PERIOD - 1) as u32), 1);
    assert_eq!(sample_at(Waveform::Sine, u32::MAX), -1);
}

#[test]
fn sine_is_odd_about_the_half_cycle() {
    for i in 0..4096u32 {
        let phase: u32 = i * 0x0008_0000;
        let first: i32 = sample_at(Waveform::Sine, phase);
        let second: i32 = sample_at(Waveform::Sine, phase + 0x8000_0000);
        assert_eq!(second, -first);
    }
}

#[test]
fn sine_stays_close_to_the_true_sine() {
    for i in 0..10_000u64 {
        let phase: u32 = (i * PERIOD / 10_000) as u32;
        let got: f64 = sample_at(Waveform::Sine, phase) as f64 / UNITY as f64;
        let want: f64 = (2.0 * std::f64::consts::PI * phase as f64 / PERIOD as f64).sin();
        assert!((got - want).abs() < 0.002);
    }
}

#[test]
fn sawtooth_ramps_from_bottom_to_top() {
    assert_eq!(sample_at(Waveform::Sawtooth, 0), -FULL);
    assert_eq!(sample_at(Waveform::Sawtooth, 1), -FULL);
    assert_eq!(sample_at(Waveform::Sawtooth, 0x4000_0000), -FULL / 2);
    assert_eq!(sample_at(Waveform::Sawtooth, 0x8000_0000), 0);
    assert_eq!(sample_at(Waveform::Sawtooth, u32::MAX), FULL - 1);
}

#[test]
fn square_switches_sign_at_the_half_cycle() {
    assert_eq!(sample_at(Waveform::Square, 0), FULL);
    assert_eq!(sample_at(Waveform::Square, 0x7fff_ffff), FULL);
    assert_eq!(sample_at(Waveform::Square, 0x8000_0000), -FULL);
    assert_eq!(sample_at(Waveform::Square, u32::MAX), -FULL);
}

#[test]
fn no_waveform_leaves_the_unit_range() {
    for waveform in [Waveform::Sine, Waveform::Sawtooth, Waveform::Square] {
        for i in 0..65_536u32 {
            let sample: i32 = sample_at(waveform, i * 65_536 + (i % 7));
            assert!(-FULL <= sample && sample <= FULL);
        }
    }
}

#[test]
fn scale_attenuates_toward_zero() {
    assert_eq!(scale(UNITY / 2, FULL), FULL / 2);
    assert_eq!(scale(UNITY / 2, -FULL), -FULL / 2);
    assert_eq!(scale(3, 5), 0);
    assert_eq!(scale(UNITY - 1, -3), -2);
    assert_eq!(scale(1 << 29, 3), 1);
    assert_eq!(scale(1 << 29, -3), -1);
}

#[test]
fn scale_at_full_and_zero_gain() {
    assert_eq!(scale(UNITY, -12_345), -12_345);
    assert_eq!(scale(UNITY, i32::MIN), i32::MIN);
    assert_eq!(scale(UNITY, i32::MAX), i32::MAX);
    assert_eq!(scale(0, i32::MAX), 0);
    assert_eq!(scale(0, i32::MIN), 0);
}
