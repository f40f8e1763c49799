//! An additive sine-wave synthesizer core: a registry of tone generators
//! ("voices"), mutated by control-plane intents and rendered one output
//! sample at a time by the audio plane.
//!
//! All quantities are fixed-point integers: a voice's phase is a fraction of
//! one cycle in units of `1 / CYCLE`, frequencies are in millihertz, and
//! volumes and output samples are scaled so that `UNIT` stands for `1.0`.
//! The surrounding application converts to and from floating point and the
//! audio device at its own boundary.

pub mod intent;
pub mod pitch;
pub mod registry;
