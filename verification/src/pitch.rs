//! The oscillator engine: pure functions that sample and advance the phase
//! of one tone generator at a time.

use vstd::prelude::*;

verus! {

use vstd::arithmetic::div_mod::{
    lemma_add_mod_noop, lemma_fundamental_div_mod, lemma_mod_bound, lemma_mod_multiples_vanish,
    lemma_small_mod,
};

/// Phase units in one full oscillation cycle: phases live in `[0, CYCLE)`.
pub const CYCLE: u64 = 0x1_0000_0000;

/// Half a cycle: the wave is non-negative below it and non-positive above it.
pub const HALF_CYCLE: u64 = 0x8000_0000;

/// A quarter cycle: the crest of the wave.
pub const QUARTER_CYCLE: u64 = 0x4000_0000;

/// Amplitude scale: a volume or sample of `UNIT` stands for `1.0`.
pub const UNIT: u64 = 32768;

/// Frequencies are stated in millihertz: `MILLI` of them make one hertz.
pub const MILLI: u64 = 1000;

/// Largest sample rate, in hertz, that the engine accepts.
pub const MAX_SAMPLE_RATE: u64 = 1_000_000;

/// The parameters of one tone generator. `Sine` is the only waveform kind;
/// its `frequency` is in millihertz and its `volume` in `[0, UNIT]`.
#[derive(Clone, Copy, Debug, PartialEq, Eq, Structural)]
pub enum Pitch {
    Sine { frequency: u64, volume: u64 },
}

/// The continuously evolving oscillation state of one voice: its phase,
/// as a fraction of a cycle in units of `1 / CYCLE`, kept in `[0, CYCLE)`.
#[derive(Clone, Copy, Debug, PartialEq, Eq, Structural)]
pub struct PhaseAccumulator {
    pub phase: u64,
}

impl Pitch {
    /// The oscillation frequency in millihertz.
    pub open spec fn frequency(self) -> u64 {
        match self {
            Pitch::Sine { frequency, volume: _ } => frequency,
        }
    }

    /// The volume, scaled so that `UNIT` is full volume.
    pub open spec fn volume(self) -> u64 {
        match self {
            Pitch::Sine { frequency: _, volume } => volume,
        }
    }
}

/// A pitch the engine can play at the given sample rate: volume at most
/// full, frequency at most the sample rate (in hertz; the phase step then
/// stays within one cycle, so a single wraparound subtraction is exact).
pub open spec fn valid_pitch(pitch: Pitch, sample_rate: u64) -> bool {
    &&& pitch.volume() <= UNIT
    &&& pitch.frequency() <= MILLI * sample_rate
}

/// How far one output sample moves the phase: the fraction
/// `frequency / (MILLI * sample_rate)` of a full cycle, rounded down.
pub open spec fn phase_step(frequency: u64, sample_rate: u64) -> int {
    CYCLE * frequency / (MILLI * sample_rate)
}

/// The phase after one output sample: stepped forward, wrapped back by one
/// cycle if it reached the end of the cycle.
pub open spec fn advance_phase(phase: int, frequency: u64, sample_rate: u64) -> int {
    let stepped = phase + phase_step(frequency, sample_rate);
    if stepped >= CYCLE {
        stepped - CYCLE
    } else {
        stepped
    }
}

/// The phase after `n` output samples.
pub open spec fn advance_phases(phase: int, frequency: u64, sample_rate: u64, n: nat) -> int
    decreases n,
{
    if n == 0 {
        phase
    } else {
        advance_phase(advance_phases(phase, frequency, sample_rate, (n - 1) as nat), frequency, sample_rate)
    }
}

/// Magnitude of the wave over half a cycle, for `t` in `[0, HALF_CYCLE]`,
/// scaled so the crest is `UNIT`. The curve is the rational approximation
/// `16 t (h - t) / (5 h^2 - 4 t (h - t))` of `sin(pi t / h)`, exact at the
/// ends and at the crest.
pub open spec fn half_wave_mag(t: int) -> int {
    let u = t * (HALF_CYCLE - t);
    16 * u * UNIT / (5 * HALF_CYCLE * HALF_CYCLE - 4 * u)
}

/// The signed amplitude of a sine voice at the given phase and volume:
/// positive over the first half of the cycle, negative over the second.
pub open spec fn wave_amplitude(phase: u64, volume: u64) -> int {
    if phase < HALF_CYCLE {
        half_wave_mag(phase as int) * volume / (UNIT as int)
    } else {
        -(half_wave_mag(phase - HALF_CYCLE) * volume / (UNIT as int))
    }
}

/// The number of output samples in one full period of a voice:
/// `MILLI * sample_rate / frequency`, rounded to the nearest integer.
pub open spec fn period_samples(frequency: u64, sample_rate: u64) -> int {
    (2 * MILLI * sample_rate + frequency) / (2 * frequency)
}

/// The distance between two phases, measured the short way around the
/// cycle.
pub open spec fn circular_distance(a: int, b: int) -> int {
    let d = if a >= b {
        a - b
    } else {
        b - a
    };
    if CYCLE - d < d {
        CYCLE - d
    } else {
        d
    }
}

/// A quotient is bounded by `c` whenever the dividend is bounded by `c`
/// times the divisor.
pub proof fn lemma_div_bound(x: int, d: int, c: int)
    by (nonlinear_arith)
    requires
        1 <= d,
        0 <= x <= c * d,
    ensures
        0 <= x / d <= c,
{
}

/// The phase step never exceeds one full cycle while the frequency stays
/// at or below the sample rate.
pub proof fn lemma_step_bound(frequency: u64, sample_rate: u64)
    requires
        1 <= sample_rate,
        frequency <= MILLI * sample_rate,
    ensures
        0 <= phase_step(frequency, sample_rate) <= CYCLE,
{
    assert(CYCLE * frequency <= CYCLE * (MILLI * sample_rate)) by (nonlinear_arith)
        requires
            frequency <= MILLI * sample_rate,
    ;
    lemma_div_bound(CYCLE * frequency, MILLI * sample_rate, CYCLE as int);
}

/// The product `t (HALF_CYCLE - t)` stays at most a quarter of the square
/// of `HALF_CYCLE` on the half-cycle domain.
proof fn lemma_half_wave_product_bound(t: int)
    by (nonlinear_arith)
    requires
        0 <= t <= HALF_CYCLE,
    ensures
        0 <= t * (HALF_CYCLE - t),
        4 * (t * (HALF_CYCLE - t)) <= HALF_CYCLE * HALF_CYCLE,
{
}

/// The half-wave magnitude stays within `[0, UNIT]`.
pub proof fn lemma_half_wave_mag_range(t: int)
    requires
        0 <= t <= HALF_CYCLE,
    ensures
        0 <= half_wave_mag(t) <= UNIT,
{
    lemma_half_wave_product_bound(t);
    let u = t * (HALF_CYCLE - t);
    let den = 5 * HALF_CYCLE * HALF_CYCLE - 4 * u;
    assert(16 * u * UNIT <= UNIT * den) by (nonlinear_arith)
        requires
            0 <= u,
            4 * u <= HALF_CYCLE * HALF_CYCLE,
            den == 5 * HALF_CYCLE * HALF_CYCLE - 4 * u,
    ;
    lemma_div_bound(16 * u * UNIT, den, UNIT as int);
}

/// The wave is silent at the start of the cycle.
pub proof fn lemma_wave_at_rest(volume: u64)
    ensures
        wave_amplitude(0, volume) == 0,
{
}

/// At the crest of the cycle the wave reproduces the volume exactly.
pub proof fn lemma_wave_at_crest(volume: u64)
    requires
        volume <= UNIT,
    ensures
        wave_amplitude(QUARTER_CYCLE, volume) == volume,
{
    assert(half_wave_mag(QUARTER_CYCLE as int) == UNIT) by {
        assert((QUARTER_CYCLE as int) * (HALF_CYCLE - QUARTER_CYCLE) == 0x1000_0000_0000_0000)
            by (nonlinear_arith)
            requires
                QUARTER_CYCLE == 0x4000_0000u64,
                HALF_CYCLE == 0x8000_0000u64,
        ;
        assert(16 * ((QUARTER_CYCLE as int) * (HALF_CYCLE - QUARTER_CYCLE)) * UNIT
            == 0x8000_0000_0000_0000_0000) by (nonlinear_arith)
            requires
                (QUARTER_CYCLE as int) * (HALF_CYCLE - QUARTER_CYCLE) == 0x1000_0000_0000_0000,
                UNIT == 32768u64,
        ;
        assert(5 * HALF_CYCLE * HALF_CYCLE == 0x1_4000_0000_0000_0000) by (nonlinear_arith)
            requires
                HALF_CYCLE == 0x8000_0000u64,
        ;
        assert(0x8000_0000_0000_0000_0000int / 0x1_0000_0000_0000_0000int == 0x8000);
    }
}

/// The output magnitude of a voice never exceeds its volume, at any phase.
pub proof fn lemma_wave_bounded(phase: u64, volume: u64)
    requires
        phase < CYCLE,
        volume <= UNIT,
    ensures
        -(volume as int) <= wave_amplitude(phase, volume) <= volume as int,
{
    let t: int = if phase < HALF_CYCLE {
        phase as int
    } else {
        phase - HALF_CYCLE
    };
    lemma_half_wave_mag_range(t);
    let m = half_wave_mag(t);
    assert(m * volume <= UNIT * volume) by (nonlinear_arith)
        requires
            0 <= m <= UNIT,
            0 <= volume,
    ;
    assert(0 <= m * volume) by (nonlinear_arith)
        requires
            0 <= m,
            0 <= volume,
    ;
    lemma_div_bound(m * volume, UNIT as int, volume as int);
    assert(UNIT * volume / (UNIT as int) == volume) by (nonlinear_arith);
}

/// Advancing is addition of the phase step modulo one cycle: the single
/// wraparound subtraction is exact while the step is within one cycle.
proof fn lemma_advance_phase_mod(phase: int, frequency: u64, sample_rate: u64)
    requires
        0 <= phase < CYCLE,
        1 <= sample_rate,
        frequency <= MILLI * sample_rate,
    ensures
        0 <= advance_phase(phase, frequency, sample_rate) < CYCLE,
        advance_phase(phase, frequency, sample_rate) == (phase + phase_step(
            frequency,
            sample_rate,
        )) % (CYCLE as int),
{
    lemma_step_bound(frequency, sample_rate);
    let step = phase_step(frequency, sample_rate);
    let x = phase + step;
    if x < CYCLE {
        lemma_small_mod(x as nat, CYCLE as nat);
    } else {
        lemma_mod_multiples_vanish(1, x - CYCLE, CYCLE as int);
        assert((CYCLE as int) * 1 + (x - CYCLE) == x);
        lemma_small_mod((x - CYCLE) as nat, CYCLE as nat);
    }
}

/// Advancing `n` times is addition of `n` phase steps modulo one cycle.
proof fn lemma_advance_phases_mod(phase: int, frequency: u64, sample_rate: u64, n: nat)
    requires
        0 <= phase < CYCLE,
        1 <= sample_rate,
        frequency <= MILLI * sample_rate,
    ensures
        0 <= advance_phases(phase, frequency, sample_rate, n) < CYCLE,
        advance_phases(phase, frequency, sample_rate, n) == (phase + n * phase_step(
            frequency,
            sample_rate,
        )) % (CYCLE as int),
    decreases n,
{
    let c = CYCLE as int;
    let step = phase_step(frequency, sample_rate);
    lemma_step_bound(frequency, sample_rate);
    if n == 0 {
        assert(n * step == 0) by (nonlinear_arith)
            requires
                n == 0,
        ;
        lemma_small_mod(phase as nat, CYCLE as nat);
    } else {
        lemma_advance_phases_mod(phase, frequency, sample_rate, (n - 1) as nat);
        let prev = advance_phases(phase, frequency, sample_rate, (n - 1) as nat);
        lemma_advance_phase_mod(prev, frequency, sample_rate);
        let x = phase + (n - 1) * step;
        assert(prev == x % c);
        if step < CYCLE {
            lemma_small_mod(step as nat, CYCLE as nat);
            lemma_add_mod_noop(x, step, c);
            assert((x % c + step % c) % c == (x + step) % c);
        } else {
            assert(step == c);
            lemma_mod_bound(x, c);
            lemma_mod_multiples_vanish(1, x % c, c);
            assert(c * 1 + x % c == x % c + step);
            lemma_small_mod((x % c) as nat, c as nat);
            lemma_mod_multiples_vanish(1, x, c);
            assert(c * 1 + x == x + step);
        }
        assert((n - 1) * step + step == n * step) by (nonlinear_arith);
    }
}

/// The sharp arithmetic behind the periodicity bound: the number of
/// samples in a rounded period times the rounded phase step lands within
/// one step of a full cycle. The remainders of the two roundings are
/// passed in explicitly.
proof fn lemma_period_step_product(c: int, f: int, s: int, step: int, n: int, r1: int, r2: int)
    requires
        c == 0x1_0000_0000,
        1 <= f <= s,
        s <= 16384 * f,
        c * f == s * step + r1,
        0 <= r1 < s,
        2 * s + f == 2 * f * n + r2,
        0 <= r2 < 2 * f,
        0 <= step,
    ensures
        c - step <= n * step <= c + step,
        1 <= n,
{
    assert(1 <= n) by (nonlinear_arith)
        requires
            2 * s + f == 2 * f * n + r2,
            0 <= r2 < 2 * f,
            1 <= f <= s,
    ;
    // upper bound: (n - 1) * step <= c, by cancelling the positive factor
    // 2 * f * s from a product of the two division identities
    assert(0 <= 2 * f * (n - 1) <= 2 * s) by (nonlinear_arith)
        requires
            2 * s + f == 2 * f * n + r2,
            0 <= r2,
            1 <= f,
            1 <= n,
    ;
    assert(0 <= s * step <= c * f);
    assert((2 * f * (n - 1)) * (s * step) <= (2 * s) * (c * f)) by (nonlinear_arith)
        requires
            0 <= 2 * f * (n - 1) <= 2 * s,
            0 <= s * step <= c * f,
    ;
    assert((2 * f * (n - 1)) * (s * step) == (2 * f * s) * ((n - 1) * step)) by (nonlinear_arith);
    assert((2 * s) * (c * f) == (2 * f * s) * c) by (nonlinear_arith);
    assert((n - 1) * step <= c) by (nonlinear_arith)
        requires
            (2 * f * s) * ((n - 1) * step) <= (2 * f * s) * c,
            1 <= f,
            1 <= s,
    ;
    // lower bound: c <= (n + 1) * step, the same way
    assert(2 * s + f + 1 <= 2 * f * (n + 1)) by (nonlinear_arith)
        requires
            2 * s + f == 2 * f * n + r2,
            r2 < 2 * f,
    ;
    assert(c * f - s + 1 <= s * step);
    assert(c * f * f >= 2 * (s * s) + f * s + s) by (nonlinear_arith)
        requires
            c == 0x1_0000_0000,
            1 <= f,
            1 <= s,
            s <= 16384 * f,
    ;
    assert(0 <= c * f - s + 1) by (nonlinear_arith)
        requires
            c == 0x1_0000_0000,
            1 <= f <= s,
            s <= 16384 * f,
    ;
    assert((2 * s + f + 1) * (c * f - s + 1) <= (2 * f * (n + 1)) * (s * step)) by (
    nonlinear_arith)
        requires
            0 <= 2 * s + f + 1 <= 2 * f * (n + 1),
            0 <= c * f - s + 1 <= s * step,
    ;
    assert((2 * f * s) * c <= (2 * s + f + 1) * (c * f - s + 1)) by (nonlinear_arith)
        requires
            c * f * f >= 2 * (s * s) + f * s + s,
            1 <= f,
            1 <= s,
            1 <= c,
    ;
    assert((2 * f * (n + 1)) * (s * step) == (2 * f * s) * ((n + 1) * step)) by (nonlinear_arith);
    assert(c <= (n + 1) * step) by (nonlinear_arith)
        requires
            (2 * f * s) * c <= (2 * f * s) * ((n + 1) * step),
            1 <= f,
            1 <= s,
    ;
    assert((n - 1) * step + step == n * step) by (nonlinear_arith);
    assert((n + 1) * step - step == n * step) by (nonlinear_arith);
}

/// Periodicity: after one nominal period of a voice — `MILLI * sample_rate
/// / frequency` output samples, rounded to nearest — the phase comes back
/// to within one phase step of where it started, measured around the
/// cycle. Exact while the period is at most 16384 samples.
pub proof fn lemma_advance_periodicity(phase: u64, frequency: u64, sample_rate: u64)
    requires
        phase < CYCLE,
        1 <= sample_rate <= MAX_SAMPLE_RATE,
        1 <= frequency <= MILLI * sample_rate,
        MILLI * sample_rate <= 16384 * frequency,
    ensures
        circular_distance(
            advance_phases(
                phase as int,
                frequency,
                sample_rate,
                period_samples(frequency, sample_rate) as nat,
            ),
            phase as int,
        ) <= phase_step(frequency, sample_rate),
{
    let c = CYCLE as int;
    let f = frequency as int;
    let s = (MILLI * sample_rate) as int;
    let step = phase_step(frequency, sample_rate);
    let n = period_samples(frequency, sample_rate);
    lemma_step_bound(frequency, sample_rate);
    assert(step == c * f / s);
    assert(2 * MILLI * sample_rate + frequency == 2 * s + f) by (nonlinear_arith)
        requires
            s == MILLI * sample_rate,
            f == frequency,
    ;
    assert(n == (2 * s + f) / (2 * f));
    lemma_fundamental_div_mod(c * f, s);
    lemma_mod_bound(c * f, s);
    let r1 = (c * f) % s;
    lemma_fundamental_div_mod(2 * s + f, 2 * f);
    lemma_mod_bound(2 * s + f, 2 * f);
    let r2 = (2 * s + f) % (2 * f);
    lemma_period_step_product(c, f, s, step, n, r1, r2);
    let end = advance_phases(phase as int, frequency, sample_rate, n as nat);
    lemma_advance_phases_mod(phase as int, frequency, sample_rate, n as nat);
    assert((n as nat) * step == n * step);
    let x = phase + n * step;
    assert(end == x % c);
    if x < c {
        lemma_small_mod(x as nat, c as nat);
        assert(end == x);
    } else if x < 2 * c {
        lemma_mod_multiples_vanish(1, x - c, c);
        assert(c * 1 + (x - c) == x);
        lemma_small_mod((x - c) as nat, c as nat);
        assert(end == x - c);
    } else {
        lemma_mod_multiples_vanish(2, x - 2 * c, c);
        assert(c * 2 + (x - 2 * c) == x);
        lemma_small_mod((x - 2 * c) as nat, c as nat);
        assert(end == x - 2 * c);
    }
}

/// Computes the half-wave magnitude for `t` in `[0, HALF_CYCLE]`.
fn half_wave(t: u64) -> (m: u64)
    requires
        t <= HALF_CYCLE,
    ensures
        m == half_wave_mag(t as int),
        m <= UNIT,
{
    proof {
        lemma_half_wave_product_bound(t as int);
        lemma_half_wave_mag_range(t as int);
    }
    let u: u64 = t * (HALF_CYCLE - t);
    let num: u128 = 16 * (u as u128) * (UNIT as u128);
    let den: u128 = 5 * (HALF_CYCLE as u128) * (HALF_CYCLE as u128) - 4 * (u as u128);
    (num / den) as u64
}

impl Pitch {
    /// Samples the wave of this voice at the accumulator's current phase.
    /// The accumulator is left untouched; the sample rate plays no part in
    /// sampling, only in advancing.
    #[allow(unused_variables)]
    pub fn wave(&self, phase_accumulator: &mut PhaseAccumulator, sample_rate: u64) -> (amplitude:
        i64)
        requires
            old(phase_accumulator).phase < CYCLE,
            self.volume() <= UNIT,
        ensures
            *final(phase_accumulator) == *old(phase_accumulator),
            amplitude == wave_amplitude(old(phase_accumulator).phase, self.volume()),
            -(self.volume() as int) <= amplitude <= self.volume() as int,
    {
        match self {
            Pitch::Sine { frequency: _, volume } => {
                let phase = phase_accumulator.phase;
                proof {
                    lemma_wave_bounded(phase, *volume);
                }
                if phase < HALF_CYCLE {
                    let m = half_wave(phase);
                    proof {
                        assert(m * *volume <= UNIT * UNIT) by (nonlinear_arith)
                            requires
                                m <= UNIT,
                                *volume <= UNIT,
                        ;
                    }
                    ((m * *volume) / UNIT) as i64
                } else {
                    let m = half_wave(phase - HALF_CYCLE);
                    proof {
                        assert(m * *volume <= UNIT * UNIT) by (nonlinear_arith)
                            requires
                                m <= UNIT,
                                *volume <= UNIT,
                        ;
                    }
                    -(((m * *volume) / UNIT) as i64)
                }
            },
        }
    }

    /// Decides whether this pitch is playable at the given sample rate,
    /// so a caller can reject out-of-range parameters before they reach
    /// the registry.
    pub fn is_valid(&self, sample_rate: u64) -> (valid: bool)
        requires
            1 <= sample_rate <= MAX_SAMPLE_RATE,
        ensures
            valid == valid_pitch(*self, sample_rate),
    {
        match self {
            Pitch::Sine { frequency, volume } => {
                *volume <= UNIT && *frequency <= MILLI * sample_rate
            },
        }
    }

    /// Advances the accumulator's phase by one output sample's step,
    /// wrapping around at the end of the cycle.
    pub fn advance(&self, phase_accumulator: &mut PhaseAccumulator, sample_rate: u64)
        requires
            1 <= sample_rate <= MAX_SAMPLE_RATE,
            self.frequency() <= MILLI * sample_rate,
            old(phase_accumulator).phase < CYCLE,
        ensures
            final(phase_accumulator).phase == advance_phase(
                old(phase_accumulator).phase as int,
                self.frequency(),
                sample_rate,
            ),
            final(phase_accumulator).phase < CYCLE,
    {
        match self {
            Pitch::Sine { frequency, volume: _ } => {
                proof {
                    lemma_step_bound(*frequency, sample_rate);
                    assert(CYCLE * *frequency <= CYCLE * (MILLI * sample_rate)) by (nonlinear_arith)
                        requires
                            *frequency <= MILLI * sample_rate,
                    ;
                }
                let step: u64 = CYCLE * *frequency / (MILLI * sample_rate);
                let stepped: u64 = phase_accumulator.phase + step;
                if stepped >= CYCLE {
                    phase_accumulator.phase = stepped - CYCLE;
                } else {
                    phase_accumulator.phase = stepped;
                }
            },
        }
    }
}

} // verus!
