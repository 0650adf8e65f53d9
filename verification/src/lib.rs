//! A polyphonic synthesizer engine in fixed-point arithmetic.
//!
//! Note events go in, one sample at a time comes out. Each sounding key has
//! one voice: an oscillator whose amplitude is shaped by an attack/release
//! envelope. Every pull applies the note events that are queued, moves all
//! voices on by one sample, drops the voices that have faded out, and mixes
//! those that remain into one sample with headroom.
//!
//! All quantities are integers, so that every sample is exact and the same
//! on every machine: amplitudes and levels in units of `1 / UNITY`, phases in
//! units of `1 / PERIOD` of a cycle, frequencies in hundredths of a hertz,
//! times in milliseconds.
//!
//! Each type has a mathematical state as its view, and each operation says
//! what it does to that state. The theorems in `lifecycle` and `trace` say
//! what follows for a voice over its life and for the engine over any run.

pub mod bank;
pub mod envelope;
pub mod fixed;
pub mod input;
pub mod keys;
pub mod lifecycle;
pub mod oscillator;
pub mod synth;
pub mod trace;
pub mod waveform;

pub use crate::bank::{Tick, VoiceBank};
pub use crate::envelope::{Envelope, Stage};
pub use crate::fixed::UNITY;
pub use crate::keys::{frequency_from_key, Key};
pub use crate::oscillator::Oscillator;
pub use crate::synth::{SynthCommand, Synthesizer, SAMPLE_RATE};
pub use crate::waveform::Waveform;
