//! Tests of the oscillator engine: phase stepping, wraparound,
//! periodicity, and the sampled wave's landmark values and bounds.

use sine_synth::pitch::{Pitch, PhaseAccumulator, CYCLE, HALF_CYCLE, QUARTER_CYCLE, UNIT};

#[test]
fn advance_takes_quarter_cycle_step() {
    // 11025 Hz at a 44100 Hz sample rate: exactly a quarter cycle per sample.
    let pitch = Pitch::Sine { frequency: 11_025_000, volume: UNIT };
    let mut accumulator = PhaseAccumulator { phase: 0 };
    pitch.advance(&mut accumulator, 44_100);
    assert_eq!(accumulator.phase, QUARTER_CYCLE);
    pitch.advance(&mut accumulator, 44_100);
    assert_eq!(accumulator.phase, HALF_CYCLE);
}

#[test]
fn advance_wraps_at_cycle_end() {
    let pitch = Pitch::Sine { frequency: 11_025_000, volume: UNIT };
    let mut accumulator = PhaseAccumulator { phase: CYCLE - 1 };
    pitch.advance(&mut accumulator, 44_100);
    assert_eq!(accumulator.phase, QUARTER_CYCLE - 1);
}

#[test]
fn advance_wraps_once_per_cycle() {
    let pitch = Pitch::Sine { frequency: 11_025_000, volume: UNIT };
    let mut accumulator = PhaseAccumulator { phase: 0 };
    for _ in 0..4 {
        pitch.advance(&mut accumulator, 44_100);
    }
    assert_eq!(accumulator.phase, 0);
}

#[test]
fn advance_with_zero_frequency_stands_still() {
    let pitch = Pitch::Sine { frequency: 0, volume: UNIT };
    let mut accumulator = PhaseAccumulator { phase: 1234 };
    pitch.advance(&mut accumulator, 44_100);
    assert_eq!(accumulator.phase, 1234);
}

#[test]
fn periodicity_returns_near_start() {
    // 441 Hz at 44100 Hz: one period is exactly 100 samples. After 100
    // advances the phase must be back within one step of its start.
    let pitch = Pitch::Sine { frequency: 441_000, volume: UNIT };
    let step: u64 = (CYCLE * 441_000) / (1000 * 44_100);
    let mut accumulator = PhaseAccumulator { phase: 0 };
    for _ in 0..100 {
        pitch.advance(&mut accumulator, 44_100);
    }
    let direct = accumulator.phase;
    let around = CYCLE - accumulator.phase;
    let distance = if direct < around { direct } else { around };
    assert!(distance <= step);
}

#[test]
fn wave_at_rest_is_silent() {
    let pitch = Pitch::Sine { frequency: 440_000, volume: UNIT };
    let mut accumulator = PhaseAccumulator { phase: 0 };
    assert_eq!(pitch.wave(&mut accumulator, 44_100), 0);
    assert_eq!(accumulator.phase, 0);
}

#[test]
fn wave_at_crest_reproduces_volume() {
    let full = Pitch::Sine { frequency: 440_000, volume: UNIT };
    let mut accumulator = PhaseAccumulator { phase: QUARTER_CYCLE };
    assert_eq!(full.wave(&mut accumulator, 44_100), UNIT as i64);
    let half = Pitch::Sine { frequency: 440_000, volume: 16_384 };
    assert_eq!(half.wave(&mut accumulator, 44_100), 16_384);
}

#[test]
fn wave_at_half_cycle_is_silent() {
    let pitch = Pitch::Sine { frequency: 440_000, volume: UNIT };
    let mut accumulator = PhaseAccumulator { phase: HALF_CYCLE };
    assert_eq!(pitch.wave(&mut accumulator, 44_100), 0);
}

#[test]
fn wave_at_trough_is_negative_volume() {
    let pitch = Pitch::Sine { frequency: 440_000, volume: UNIT };
    let mut accumulator = PhaseAccumulator { phase: HALF_CYCLE + QUARTER_CYCLE };
    assert_eq!(pitch.wave(&mut accumulator, 44_100), -(UNIT as i64));
}

#[test]
fn wave_magnitude_never_exceeds_volume() {
    let volume: u64 = 12_345;
    let pitch = Pitch::Sine { frequency: 440_000, volume };
    let mut phase: u64 = 0;
    while phase < CYCLE {
        let mut accumulator = PhaseAccumulator { phase };
        let amplitude = pitch.wave(&mut accumulator, 44_100);
        assert!(amplitude.unsigned_abs() <= volume);
        phase += 7_919_993;
    }
}

#[test]
fn wave_with_zero_volume_is_silent() {
    let pitch = Pitch::Sine { frequency: 440_000, volume: 0 };
    let mut accumulator = PhaseAccumulator { phase: QUARTER_CYCLE };
    assert_eq!(pitch.wave(&mut accumulator, 44_100), 0);
}

#[test]
fn is_valid_accepts_audible_and_rejects_out_of_range() {
    let audible = Pitch::Sine { frequency: 440_000, volume: UNIT };
    assert!(audible.is_valid(44_100));
    let too_loud = Pitch::Sine { frequency: 440_000, volume: UNIT + 1 };
    assert!(!too_loud.is_valid(44_100));
    let too_high = Pitch::Sine { frequency: 44_100_001, volume: UNIT };
    assert!(!too_high.is_valid(44_100));
    let at_ceiling = Pitch::Sine { frequency: 44_100_000, volume: UNIT };
    assert!(at_ceiling.is_valid(44_100));
}
