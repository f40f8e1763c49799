//! Tests of the voice registry and of control-plane intent application:
//! atomic add, in-place update, clear, and the normalized render path.

use sine_synth::intent::Intent;
use sine_synth::pitch::{Pitch, PhaseAccumulator, UNIT};
use sine_synth::registry::VoiceRegistry;

#[test]
fn new_registry_is_empty_and_renders_silence() {
    let mut registry = VoiceRegistry::new(44_100);
    assert_eq!(registry.voice_count(), 0);
    assert!(registry.can_add());
    assert_eq!(registry.sample_rate(), 44_100);
    assert_eq!(registry.render_tick(), 0);
}

#[test]
fn add_mints_distinct_ids_and_stores_parameters() {
    let mut registry = VoiceRegistry::new(44_100);
    let a = registry.add(Pitch::Sine { frequency: 440_000, volume: UNIT });
    let b = registry.add(Pitch::Sine { frequency: 220_000, volume: 100 });
    assert_ne!(a, b);
    assert_eq!(registry.voice_count(), 2);
    assert_eq!(registry.voice_at(0), (a, Pitch::Sine { frequency: 440_000, volume: UNIT }));
    assert_eq!(registry.voice_at(1), (b, Pitch::Sine { frequency: 220_000, volume: 100 }));
}

#[test]
fn first_tick_after_add_is_silent_then_follows_the_wave() {
    // One voice at 440 Hz, half volume, 44100 Hz: the first tick samples
    // the zero phase, the second samples the phase one step in.
    let pitch = Pitch::Sine { frequency: 440_000, volume: 16_384 };
    let mut registry = VoiceRegistry::new(44_100);
    registry.add(pitch);
    let samples = registry.render(2);
    assert_eq!(samples[0], 0);
    let mut accumulator = PhaseAccumulator { phase: 0 };
    pitch.advance(&mut accumulator, 44_100);
    let expected = pitch.wave(&mut accumulator, 44_100);
    assert_eq!(samples[1], expected);
    assert!(samples[1] > 0);
}

#[test]
fn clear_then_tick_outputs_exact_zero() {
    let mut registry = VoiceRegistry::new(48_000);
    registry.add(Pitch::Sine { frequency: 440_000, volume: UNIT });
    registry.add(Pitch::Sine { frequency: 660_000, volume: 20_000 });
    registry.render(5);
    registry.clear();
    assert_eq!(registry.voice_count(), 0);
    assert_eq!(registry.render_tick(), 0);
}

#[test]
fn two_full_voices_at_crest_reach_the_clipping_boundary() {
    // Two voices, full volume, stepping a quarter cycle per sample: the
    // first tick sums two silent waves, the second finds both at their
    // crest, and normalization brings the sum back exactly to UNIT.
    let mut registry = VoiceRegistry::new(44_100);
    registry.add(Pitch::Sine { frequency: 11_025_000, volume: UNIT });
    registry.add(Pitch::Sine { frequency: 11_025_000, volume: UNIT });
    assert_eq!(registry.render_tick(), 0);
    assert_eq!(registry.render_tick(), UNIT as i64);
}

#[test]
fn single_voice_walks_the_whole_wave() {
    let mut registry = VoiceRegistry::new(44_100);
    registry.add(Pitch::Sine { frequency: 11_025_000, volume: UNIT });
    let samples = registry.render(4);
    assert_eq!(samples, vec![0, UNIT as i64, 0, -(UNIT as i64)]);
}

#[test]
fn update_replaces_parameters_but_keeps_phase() {
    let mut registry = VoiceRegistry::new(44_100);
    let id = registry.add(Pitch::Sine { frequency: 11_025_000, volume: UNIT });
    // One tick: output 0, phase now at the crest.
    assert_eq!(registry.render_tick(), 0);
    // Quieter parameters; the phase must not reset, so the next tick
    // samples the crest at the new volume.
    registry.update(id, Pitch::Sine { frequency: 11_025_000, volume: 16_384 });
    assert_eq!(registry.render_tick(), 16_384);
}

#[test]
fn update_of_absent_id_is_a_no_op() {
    let mut registry = VoiceRegistry::new(44_100);
    let id = registry.add(Pitch::Sine { frequency: 440_000, volume: UNIT });
    registry.update(id + 1, Pitch::Sine { frequency: 220_000, volume: 1 });
    assert_eq!(registry.voice_count(), 1);
    assert_eq!(registry.voice_at(0), (id, Pitch::Sine { frequency: 440_000, volume: UNIT }));
}

#[test]
fn render_returns_the_requested_length() {
    let mut registry = VoiceRegistry::new(48_000);
    registry.add(Pitch::Sine { frequency: 330_000, volume: 5_000 });
    assert_eq!(registry.render(17).len(), 17);
    assert_eq!(registry.render(0).len(), 0);
}

#[test]
fn normalization_averages_unequal_voices() {
    // One voice at the crest of full volume, one still silent at phase
    // zero: the mix is the truncated average of UNIT and 0.
    let mut registry = VoiceRegistry::new(44_100);
    registry.add(Pitch::Sine { frequency: 11_025_000, volume: UNIT });
    registry.add(Pitch::Sine { frequency: 0, volume: UNIT });
    assert_eq!(registry.render_tick(), 0);
    assert_eq!(registry.render_tick(), (UNIT / 2) as i64);
}

#[test]
fn apply_intent_add_returns_the_minted_id() {
    let mut registry = VoiceRegistry::new(44_100);
    let added = registry.apply_intent(Intent::Add(Pitch::Sine { frequency: 440_000, volume: 1 }));
    assert_eq!(added, Some(0));
    assert_eq!(registry.apply_intent(Intent::Clear), None);
    assert_eq!(registry.voice_count(), 0);
}

#[test]
fn apply_intents_runs_in_submission_order() {
    let mut registry = VoiceRegistry::new(44_100);
    let first = Pitch::Sine { frequency: 440_000, volume: UNIT };
    let last = Pitch::Sine { frequency: 550_000, volume: 9_000 };
    let intents = vec![
        Intent::Add(first),
        Intent::Add(first),
        Intent::Clear,
        Intent::Add(last),
        Intent::Update(2, Pitch::Sine { frequency: 660_000, volume: 9_999 }),
    ];
    registry.apply_intents(&intents);
    assert_eq!(registry.voice_count(), 1);
    // The surviving voice was minted third, so it carries identifier 2,
    // and the trailing update found it.
    assert_eq!(registry.voice_at(0), (2, Pitch::Sine { frequency: 660_000, volume: 9_999 }));
}

#[test]
fn update_intent_on_cleared_registry_is_ignored() {
    let mut registry = VoiceRegistry::new(44_100);
    let id = registry.add(Pitch::Sine { frequency: 440_000, volume: UNIT });
    registry.clear();
    registry.apply_intent(Intent::Update(id, Pitch::Sine { frequency: 220_000, volume: 1 }));
    assert_eq!(registry.voice_count(), 0);
    assert_eq!(registry.render_tick(), 0);
}
