use keysynth::envelope::{rate, Envelope, Stage};
use keysynth::fixed::UNITY;

const ATTACK_RATE: u32 = 2_434_789;
const RELEASE_RATE: u32 = 48_696;

fn fresh() -> Envelope {
    Envelope::new(10, 500, 44_100)
}

fn tick_times(env: &mut Envelope, n: u32) {
    for _ in 0..n {
        env.tick();
    }
}

#[test]
fn new_envelope_is_silent_and_attacking() {
    let env = fresh();
    assert_eq!(env.stage(), Stage::Attack);
    assert_eq!(env.level(), 0);
    assert!(!env.is_done());
}

#[test]
fn rates_cover_the_scale_in_the_given_time() {
    let env = fresh();
    assert_eq!(env.attack_rate(), ATTACK_RATE);
    assert_eq!(env.release_rate(), RELEASE_RATE);
    assert_eq!(rate(1000, 48_000), 22_370);
}

#[test]
fn rate_of_a_time_below_one_sample_is_the_full_scale() {
    assert_eq!(rate(0, 44_100), UNITY);
    assert_eq!(rate(10, 0), UNITY);
    assert_eq!(rate(1, 1000), UNITY);
    assert_eq!(rate(1, 2000), UNITY / 2);
}

#[test]
fn rate_of_the_longest_time_is_one_step() {
    assert_eq!(rate(u32::MAX, u32::MAX), 1);
}

#[test]
fn attack_rises_by_one_step_per_tick() {
    let mut env = fresh();
    assert_eq!(env.tick(), ATTACK_RATE);
    assert_eq!(env.tick(), 2 * ATTACK_RATE);
    assert_eq!(env.level(), 2 * ATTACK_RATE);
    assert_eq!(env.stage(), Stage::Attack);
}

#[test]
fn attack_completes_after_441_ticks() {
    let mut env = fresh();
    tick_times(&mut env, 440);
    assert_eq!(env.level(), 440 * ATTACK_RATE);
    assert_eq!(env.stage(), Stage::Attack);
    assert_eq!(env.tick(), UNITY);
    assert_eq!(env.stage(), Stage::Sustain);
}

#[test]
fn sustain_holds_the_full_level() {
    let mut env = fresh();
    tick_times(&mut env, 441);
    assert_eq!(env.tick(), UNITY);
    tick_times(&mut env, 1000);
    assert_eq!(env.level(), UNITY);
    assert_eq!(env.stage(), Stage::Sustain);
}

#[test]
fn release_from_sustain_falls_from_the_full_level() {
    let mut env = fresh();
    tick_times(&mut env, 441);
    env.release();
    assert_eq!(env.stage(), Stage::Release);
    assert_eq!(env.level(), UNITY);
    assert_eq!(env.tick(), UNITY - RELEASE_RATE);
}

#[test]
fn release_completes_after_22050_ticks() {
    let mut env = fresh();
    tick_times(&mut env, 441);
    env.release();
    tick_times(&mut env, 22_049);
    assert_eq!(env.level(), 43_720);
    assert_eq!(env.stage(), Stage::Release);
    assert!(!env.is_done());
    assert_eq!(env.tick(), 0);
    assert_eq!(env.stage(), Stage::Done);
    assert!(env.is_done());
}

#[test]
fn release_in_mid_attack_falls_from_the_current_level() {
    let mut env = fresh();
    tick_times(&mut env, 100);
    let level: u32 = env.level();
    assert_eq!(level, 243_478_900);
    env.release();
    assert_eq!(env.stage(), Stage::Release);
    assert_eq!(env.level(), level);
    assert_eq!(env.tick(), 243_430_204);
}

#[test]
fn release_before_the_first_tick_finishes_at_once() {
    let mut env = fresh();
    env.release();
    assert_eq!(env.stage(), Stage::Release);
    assert_eq!(env.tick(), 0);
    assert!(env.is_done());
}

#[test]
fn second_release_changes_nothing() {
    let mut once = fresh();
    let mut twice = fresh();
    tick_times(&mut once, 200);
    tick_times(&mut twice, 200);
    once.release();
    twice.release();
    tick_times(&mut once, 50);
    tick_times(&mut twice, 50);
    twice.release();
    for _ in 0..30_000 {
        assert_eq!(once.tick(), twice.tick());
        assert_eq!(once.stage(), twice.stage());
    }
    assert!(once.is_done());
}

#[test]
fn release_of_a_finished_envelope_changes_nothing() {
    let mut env = fresh();
    env.release();
    env.tick();
    assert!(env.is_done());
    env.release();
    assert_eq!(env.stage(), Stage::Done);
    assert_eq!(env.tick(), 0);
    assert_eq!(env.stage(), Stage::Done);
}

#[test]
fn released_level_falls_strictly_until_it_is_zero() {
    let mut env = fresh();
    tick_times(&mut env, 441);
    env.release();
    let mut last: u32 = env.level();
    let mut ticks: u32 = 0;
    while !env.is_done() {
        let level: u32 = env.tick();
        assert!(level < last);
        assert!(last - level <= RELEASE_RATE);
        last = level;
        ticks += 1;
    }
    assert_eq!(last, 0);
    assert_eq!(ticks, 22_050);
}

#[test]
fn retrigger_attacks_again_from_the_current_level() {
    let mut env = fresh();
    tick_times(&mut env, 441);
    env.release();
    tick_times(&mut env, 1000);
    let level: u32 = env.level();
    assert_eq!(level, UNITY - 1000 * RELEASE_RATE);
    env.retrigger();
    assert_eq!(env.stage(), Stage::Attack);
    assert_eq!(env.level(), level);
    assert_eq!(env.tick(), level + ATTACK_RATE);
}

#[test]
fn retrigger_in_sustain_returns_to_sustain_on_the_next_tick() {
    let mut env = fresh();
    tick_times(&mut env, 441);
    env.retrigger();
    assert_eq!(env.stage(), Stage::Attack);
    assert_eq!(env.level(), UNITY);
    assert_eq!(env.tick(), UNITY);
    assert_eq!(env.stage(), Stage::Sustain);
}

#[test]
fn retrigger_of_a_finished_envelope_starts_from_silence() {
    let mut env = fresh();
    env.release();
    env.tick();
    env.retrigger();
    assert_eq!(env.stage(), Stage::Attack);
    assert_eq!(env.level(), 0);
    assert_eq!(env.tick(), ATTACK_RATE);
}

#[test]
fn level_never_jumps_by_more_than_one_step() {
    let mut env = fresh();
    let mut last: u32 = env.level();
    for i in 0..60_000u32 {
        if i == 300 || i == 20_000 {
            env.release();
        }
        if i == 5_000 || i == 40_000 {
            env.retrigger();
        }
        let level: u32 = env.tick();
        assert!(level <= UNITY);
        if level > last {
            assert!(level - last <= ATTACK_RATE);
        } else {
            assert!(last - level <= RELEASE_RATE);
        }
        last = level;
    }
}
