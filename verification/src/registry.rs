//! The voice registry: the shared collection of live voices, keyed by a
//! unique voice identifier. The control plane mutates it through `add`,
//! `update` and `clear`; the audio plane reads and advances it one output
//! sample at a time through `render_tick`.

use vstd::prelude::*;

verus! {

use crate::pitch::{
    advance_phase, lemma_div_bound, valid_pitch, wave_amplitude, Pitch, PhaseAccumulator, CYCLE,
    MAX_SAMPLE_RATE, UNIT,
};

/// Most voices a registry will hold at once; keeps the mixing accumulator
/// far away from overflow.
pub const MAX_VOICES: usize = 1000000;

/// One row of the parameters map: a voice identifier and what it plays.
#[derive(Clone, Copy, Debug, PartialEq, Eq, Structural)]
pub struct VoiceEntry {
    pub id: u64,
    pub pitch: Pitch,
}

/// One row of the oscillator-state map: a voice identifier and where its
/// oscillation currently stands.
#[derive(Clone, Copy, Debug, PartialEq, Eq, Structural)]
pub struct PhaseEntry {
    pub id: u64,
    pub accumulator: PhaseAccumulator,
}

/// The registry as the two maps the planes agree on: voice parameters and
/// oscillator phases, both keyed by the same identifiers, plus the next
/// identifier to mint and the sample rate the device negotiated.
#[verifier::ext_equal]
pub ghost struct RegistryModel {
    pub parameters: Map<u64, Pitch>,
    pub oscillators: Map<u64, u64>,
    pub next_id: u64,
    pub sample_rate: u64,
}

/// The authoritative collection of live voices. The parameters rows and
/// the oscillator rows are kept aligned index by index, with identifiers
/// strictly increasing, so every identifier appears in both or in neither.
pub struct VoiceRegistry {
    voices: Vec<VoiceEntry>,
    phases: Vec<PhaseEntry>,
    next_id: u64,
    sample_rate: u64,
}

impl VoiceRegistry {
    /// The parameters rows.
    pub closed spec fn voices_seq(self) -> Seq<VoiceEntry> {
        self.voices@
    }

    /// The oscillator rows.
    pub closed spec fn phases_seq(self) -> Seq<PhaseEntry> {
        self.phases@
    }

    /// The identifier the next added voice will get.
    pub closed spec fn next_id_spec(self) -> u64 {
        self.next_id
    }

    /// The sample rate, in hertz, this registry renders at.
    pub closed spec fn sample_rate_spec(self) -> u64 {
        self.sample_rate
    }

    /// Well-formedness: the two row lists pair up identifier by
    /// identifier, identifiers are strictly increasing and below the next
    /// one to mint, every pitch is playable at the sample rate, and every
    /// phase lies within one cycle.
    pub closed spec fn wf(self) -> bool {
        &&& 1 <= self.sample_rate <= MAX_SAMPLE_RATE
        &&& self.voices@.len() == self.phases@.len()
        &&& self.voices@.len() <= MAX_VOICES
        &&& (forall|i: int|
            0 <= i < self.voices@.len() ==> (#[trigger] self.phases@[i]).id == self.voices@[i].id)
        &&& (forall|i: int|
            0 <= i < self.voices@.len() ==> (#[trigger] self.voices@[i]).id < self.next_id)
        &&& (forall|i: int, j: int|
            0 <= i < j < self.voices@.len() ==> (#[trigger] self.voices@[i]).id < (
            #[trigger] self.voices@[j]).id)
        &&& (forall|i: int|
            0 <= i < self.voices@.len() ==> valid_pitch(
                (#[trigger] self.voices@[i]).pitch,
                self.sample_rate,
            ))
        &&& (forall|i: int|
            0 <= i < self.phases@.len() ==> (#[trigger] self.phases@[i]).accumulator.phase < CYCLE)
    }

    /// Whether an identifier has a row in the parameters map.
    pub closed spec fn has_voice(self, id: u64) -> bool {
        exists|i: int| 0 <= i < self.voices@.len() && (#[trigger] self.voices@[i]).id == id
    }

    /// Whether an identifier has a row in the oscillator-state map.
    pub closed spec fn has_oscillator(self, id: u64) -> bool {
        exists|i: int| 0 <= i < self.phases@.len() && (#[trigger] self.phases@[i]).id == id
    }

    /// The row index of an identifier in the parameters map.
    pub closed spec fn voice_index(self, id: u64) -> int {
        choose|i: int| 0 <= i < self.voices@.len() && (#[trigger] self.voices@[i]).id == id
    }

    /// The row index of an identifier in the oscillator-state map.
    pub closed spec fn oscillator_index(self, id: u64) -> int {
        choose|i: int| 0 <= i < self.phases@.len() && (#[trigger] self.phases@[i]).id == id
    }

    /// The parameters of the voice with this identifier.
    pub closed spec fn pitch_at_id(self, id: u64) -> Pitch {
        self.voices@[self.voice_index(id)].pitch
    }

    /// The oscillator phase of the voice with this identifier.
    pub closed spec fn phase_at_id(self, id: u64) -> u64 {
        self.phases@[self.oscillator_index(id)].accumulator.phase
    }

    /// The parameters map: what each live voice plays.
    pub open spec fn params_map(self) -> Map<u64, Pitch> {
        Map::new(|id: u64| self.has_voice(id), |id: u64| self.pitch_at_id(id))
    }

    /// The oscillator-state map: where each live voice stands in its cycle.
    pub open spec fn phases_map(self) -> Map<u64, u64> {
        Map::new(|id: u64| self.has_oscillator(id), |id: u64| self.phase_at_id(id))
    }

    /// The registry seen as its two maps.
    pub open spec fn model(self) -> RegistryModel {
        RegistryModel {
            parameters: self.params_map(),
            oscillators: self.phases_map(),
            next_id: self.next_id_spec(),
            sample_rate: self.sample_rate_spec(),
        }
    }

    /// In a well-formed registry each row is found again under its own
    /// identifier: identifiers are unique, so the looked-up index is the
    /// row's index, in both maps.
    pub proof fn lemma_row_lookup(self, i: int)
        requires
            self.wf(),
            0 <= i < self.voices_seq().len(),
        ensures
            self.has_voice(self.voices_seq()[i].id),
            self.voice_index(self.voices_seq()[i].id) == i,
            self.has_oscillator(self.voices_seq()[i].id),
            self.oscillator_index(self.voices_seq()[i].id) == i,
            self.pitch_at_id(self.voices_seq()[i].id) == self.voices_seq()[i].pitch,
            self.phase_at_id(self.voices_seq()[i].id) == self.phases_seq()[i].accumulator.phase,
    {
        let id = self.voices@[i].id;
        assert(self.has_voice(id));
        let j = self.voice_index(id);
        if j < i {
            assert(self.voices@[j].id < self.voices@[i].id);
        } else if j > i {
            assert(self.voices@[i].id < self.voices@[j].id);
        }
        assert(self.phases@[i].id == id);
        assert(self.has_oscillator(id));
        let k = self.oscillator_index(id);
        assert(self.phases@[k].id == self.voices@[k].id);
        if k < i {
            assert(self.voices@[k].id < self.voices@[i].id);
        } else if k > i {
            assert(self.voices@[i].id < self.voices@[k].id);
        }
    }

    /// Creates an empty registry for a device-negotiated sample rate.
    pub fn new(sample_rate: u64) -> (registry: VoiceRegistry)
        requires
            1 <= sample_rate <= MAX_SAMPLE_RATE,
        ensures
            registry.wf(),
            registry.voices_seq().len() == 0,
            registry.next_id_spec() == 0,
            registry.sample_rate_spec() == sample_rate,
            registry.params_map() == Map::<u64, Pitch>::empty(),
            registry.phases_map() == Map::<u64, u64>::empty(),
    {
        let registry = VoiceRegistry {
            voices: Vec::new(),
            phases: Vec::new(),
            next_id: 0,
            sample_rate,
        };
        proof {
            assert(registry.params_map() =~= Map::<u64, Pitch>::empty());
            assert(registry.phases_map() =~= Map::<u64, u64>::empty());
        }
        registry
    }

    /// Adds a voice: mints a fresh identifier and inserts its parameters
    /// and a zeroed oscillator state as one atomic unit. Returns the new
    /// identifier.
    pub fn add(&mut self, pitch: Pitch) -> (id: u64)
        requires
            old(self).wf(),
            valid_pitch(pitch, old(self).sample_rate_spec()),
            old(self).voices_seq().len() < MAX_VOICES,
            old(self).next_id_spec() < u64::MAX,
        ensures
            final(self).wf(),
            id == old(self).next_id_spec(),
            !old(self).has_voice(id),
            final(self).has_voice(id),
            final(self).pitch_at_id(id) == pitch,
            final(self).phase_at_id(id) == 0,
            final(self).voices_seq().len() == old(self).voices_seq().len() + 1,
            forall|k: u64|
                #[trigger] final(self).has_voice(k) <==> (k == id || old(self).has_voice(k)),
            forall|k: u64|
                k != id && old(self).has_voice(k) ==> final(self).pitch_at_id(k) == old(
                    self,
                ).pitch_at_id(k) && final(self).phase_at_id(k) == old(self).phase_at_id(k),
            final(self).model() == (RegistryModel {
                parameters: old(self).model().parameters.insert(id, pitch),
                oscillators: old(self).model().oscillators.insert(id, 0),
                next_id: (old(self).next_id_spec() + 1) as u64,
                sample_rate: old(self).sample_rate_spec(),
            }),
    {
        let id = self.next_id;
        self.next_id = self.next_id + 1;
        self.voices.push(VoiceEntry { id, pitch });
        self.phases.push(PhaseEntry { id, accumulator: PhaseAccumulator { phase: 0 } });
        proof {
            let oldr = *old(self);
            let newr = *self;
            let n = oldr.voices@.len() as int;
            assert(newr.wf());
            if oldr.has_voice(id) {
                let i = oldr.voice_index(id);
                assert(oldr.voices@[i].id < oldr.next_id);
                assert(false);
            }
            newr.lemma_row_lookup(n);
            assert forall|k: u64| #[trigger] newr.has_voice(k) implies (k == id || oldr.has_voice(
                k,
            )) by {
                let i = newr.voice_index(k);
                if i < n {
                    assert(oldr.voices@[i].id == k);
                }
            }
            assert forall|k: u64| k == id || oldr.has_voice(k) implies #[trigger] newr.has_voice(
                k,
            ) by {
                if k != id {
                    let i = oldr.voice_index(k);
                    assert(newr.voices@[i].id == k);
                }
            }
            assert forall|k: u64| k != id && oldr.has_voice(k) implies newr.pitch_at_id(k) == oldr
                .pitch_at_id(k) && newr.phase_at_id(k) == oldr.phase_at_id(k) by {
                let i = oldr.voice_index(k);
                oldr.lemma_row_lookup(i);
                assert(newr.voices@[i].id == k);
                newr.lemma_row_lookup(i);
            }
            assert forall|k: u64| #[trigger] newr.has_oscillator(k) implies (k == id
                || oldr.has_oscillator(k)) by {
                let i = newr.oscillator_index(k);
                if i < n {
                    assert(oldr.phases@[i].id == k);
                }
            }
            assert forall|k: u64| k == id || oldr.has_oscillator(k) implies #[trigger] newr
                .has_oscillator(k) by {
                if k != id {
                    let i = oldr.oscillator_index(k);
                    assert(newr.phases@[i].id == k);
                }
            }
            assert forall|k: u64| k != id && oldr.has_oscillator(k) implies newr.phase_at_id(k)
                == oldr.phase_at_id(k) by {
                let i = oldr.oscillator_index(k);
                assert(oldr.voices@[i].id == oldr.phases@[i].id);
                oldr.lemma_row_lookup(i);
                assert(newr.voices@[i].id == k);
                newr.lemma_row_lookup(i);
            }
            assert(newr.params_map() =~= oldr.params_map().insert(id, pitch));
            assert(newr.phases_map() =~= oldr.phases_map().insert(id, 0));
            assert(newr.model() =~= (RegistryModel {
                parameters: oldr.model().parameters.insert(id, pitch),
                oscillators: oldr.model().oscillators.insert(id, 0),
                next_id: (oldr.next_id + 1) as u64,
                sample_rate: oldr.sample_rate,
            }));
        }
        id
    }

    /// Replaces the parameters of an existing voice, leaving its
    /// oscillator state untouched so the waveform does not reset its
    /// phase. Updating an absent identifier — a lost race with a
    /// concurrent clear — is a harmless no-op.
    pub fn update(&mut self, id: u64, pitch: Pitch)
        requires
            old(self).wf(),
            valid_pitch(pitch, old(self).sample_rate_spec()),
        ensures
            final(self).wf(),
            final(self).voices_seq().len() == old(self).voices_seq().len(),
            forall|k: u64| #[trigger] final(self).has_voice(k) <==> old(self).has_voice(k),
            old(self).has_voice(id) ==> final(self).pitch_at_id(id) == pitch,
            forall|k: u64|
                k != id && old(self).has_voice(k) ==> final(self).pitch_at_id(k) == old(
                    self,
                ).pitch_at_id(k),
            old(self).has_voice(id) ==> final(self).model() == (RegistryModel {
                parameters: old(self).model().parameters.insert(id, pitch),
                oscillators: old(self).model().oscillators,
                next_id: old(self).next_id_spec(),
                sample_rate: old(self).sample_rate_spec(),
            }),
            !old(self).has_voice(id) ==> *final(self) == *old(self),
    {
        let n = self.voices.len();
        let mut i: usize = 0;
        while i < n
            invariant
                old(self).wf(),
                valid_pitch(pitch, old(self).sample_rate_spec()),
                *self == *old(self),
                n == self.voices@.len(),
                i <= n,
                forall|j: int| 0 <= j < i ==> (#[trigger] self.voices@[j]).id != id,
            decreases n - i,
        {
            if self.voices[i].id == id {
                self.voices.set(i, VoiceEntry { id, pitch });
                proof {
                    let oldr = *old(self);
                    let newr = *self;
                    let ii = i as int;
                    assert(newr.voices@ == oldr.voices@.update(ii, VoiceEntry { id, pitch }));
                    assert(newr.wf());
                    oldr.lemma_row_lookup(ii);
                    newr.lemma_row_lookup(ii);
                    assert forall|k: u64| #[trigger] newr.has_voice(k) implies oldr.has_voice(
                        k,
                    ) by {
                        let j = newr.voice_index(k);
                        assert(oldr.voices@[j].id == k);
                    }
                    assert forall|k: u64| oldr.has_voice(k) implies #[trigger] newr.has_voice(
                        k,
                    ) by {
                        let j = oldr.voice_index(k);
                        assert(newr.voices@[j].id == k);
                    }
                    assert forall|k: u64| k != id && oldr.has_voice(k) implies newr.pitch_at_id(k)
                        == oldr.pitch_at_id(k) by {
                        let j = oldr.voice_index(k);
                        oldr.lemma_row_lookup(j);
                        assert(newr.voices@[j].id == k);
                        newr.lemma_row_lookup(j);
                    }
                    assert forall|k: u64| #[trigger] newr.has_oscillator(k) implies oldr
                        .has_oscillator(k) by {
                        let j = newr.oscillator_index(k);
                        assert(oldr.phases@[j].id == k);
                    }
                    assert forall|k: u64| oldr.has_oscillator(k) implies #[trigger] newr
                        .has_oscillator(k) by {
                        let j = oldr.oscillator_index(k);
                        assert(newr.phases@[j].id == k);
                    }
                    assert forall|k: u64| oldr.has_oscillator(k) implies newr.phase_at_id(k)
                        == oldr.phase_at_id(k) by {
                        let j = oldr.oscillator_index(k);
                        assert(oldr.voices@[j].id == oldr.phases@[j].id);
                        oldr.lemma_row_lookup(j);
                        assert(newr.voices@[j].id == k);
                        newr.lemma_row_lookup(j);
                    }
                    assert(newr.params_map() =~= oldr.params_map().insert(id, pitch));
                    assert(newr.phases_map() =~= oldr.phases_map());
                    assert(newr.model() =~= (RegistryModel {
                        parameters: oldr.model().parameters.insert(id, pitch),
                        oscillators: oldr.model().oscillators,
                        next_id: oldr.next_id,
                        sample_rate: oldr.sample_rate,
                    }));
                }
                return;
            }
            i = i + 1;
        }
        proof {
            if old(self).has_voice(id) {
                let j = old(self).voice_index(id);
                assert(self.voices@[j].id == id);
                assert(false);
            }
        }
    }

    /// Empties both maps together, atomically; the identifier counter
    /// keeps going so cleared identifiers are never reused.
    pub fn clear(&mut self)
        requires
            old(self).wf(),
        ensures
            final(self).wf(),
            final(self).voices_seq().len() == 0,
            final(self).model() == (RegistryModel {
                parameters: Map::<u64, Pitch>::empty(),
                oscillators: Map::<u64, u64>::empty(),
                next_id: old(self).next_id_spec(),
                sample_rate: old(self).sample_rate_spec(),
            }),
    {
        self.voices.clear();
        self.phases.clear();
        proof {
            assert(self.params_map() =~= Map::<u64, Pitch>::empty());
            assert(self.phases_map() =~= Map::<u64, u64>::empty());
            assert(self.model() =~= (RegistryModel {
                parameters: Map::<u64, Pitch>::empty(),
                oscillators: Map::<u64, u64>::empty(),
                next_id: old(self).next_id,
                sample_rate: old(self).sample_rate,
            }));
        }
    }

    /// How many voices are live.
    pub fn voice_count(&self) -> (n: usize)
        ensures
            n == self.voices_seq().len(),
    {
        self.voices.len()
    }

    /// Whether another voice may be added.
    pub fn can_add(&self) -> (b: bool)
        ensures
            b == (self.voices_seq().len() < MAX_VOICES && self.next_id_spec() < u64::MAX),
    {
        self.voices.len() < MAX_VOICES && self.next_id < u64::MAX
    }

    /// The sample rate, in hertz, this registry renders at.
    pub fn sample_rate(&self) -> (rate: u64)
        ensures
            rate == self.sample_rate_spec(),
    {
        self.sample_rate
    }

    /// Read-only access for a visualization collaborator: the identifier
    /// and parameters of the voice in one row. Oscillator phases are not
    /// exposed; they belong to the audio plane.
    pub fn voice_at(&self, i: usize) -> (row: (u64, Pitch))
        requires
            i < self.voices_seq().len(),
        ensures
            row.0 == self.voices_seq()[i as int].id,
            row.1 == self.voices_seq()[i as int].pitch,
    {
        let entry = self.voices[i];
        (entry.id, entry.pitch)
    }
}

/// The contribution of the voice in row `i`: its wave, sampled at its own
/// phase.
pub open spec fn voice_wave(voices: Seq<VoiceEntry>, phases: Seq<PhaseEntry>, i: int) -> int {
    wave_amplitude(phases[i].accumulator.phase, voices[i].pitch.volume())
}

/// The sum of the contributions of the first `i` rows.
pub open spec fn sum_waves(voices: Seq<VoiceEntry>, phases: Seq<PhaseEntry>, i: int) -> int
    decreases i,
{
    if i <= 0 {
        0
    } else {
        sum_waves(voices, phases, i - 1) + voice_wave(voices, phases, i - 1)
    }
}

/// Integer division rounding toward zero, as the mixer performs it on the
/// signed accumulator.
pub open spec fn div_toward_zero(a: int, b: int) -> int {
    if a >= 0 {
        a / b
    } else {
        -((-a) / b)
    }
}

/// One output sample: every voice's contribution summed, normalized by
/// the number of live voices; exact silence when no voice is live, never
/// a division by zero.
pub open spec fn mixed_sample(voices: Seq<VoiceEntry>, phases: Seq<PhaseEntry>) -> int {
    if voices.len() == 0 {
        0
    } else {
        div_toward_zero(sum_waves(voices, phases, voices.len() as int), voices.len() as int)
    }
}

/// Every row's oscillator state after one output sample.
pub open spec fn advanced_phases(
    voices: Seq<VoiceEntry>,
    phases: Seq<PhaseEntry>,
    sample_rate: u64,
) -> Seq<PhaseEntry> {
    Seq::new(
        phases.len(),
        |i: int|
            PhaseEntry {
                id: phases[i].id,
                accumulator: PhaseAccumulator {
                    phase: advance_phase(
                        phases[i].accumulator.phase as int,
                        voices[i].pitch.frequency(),
                        sample_rate,
                    ) as u64,
                },
            },
    )
}

/// Every row's oscillator state after `k` output samples.
pub open spec fn phases_after_ticks(
    voices: Seq<VoiceEntry>,
    phases: Seq<PhaseEntry>,
    sample_rate: u64,
    k: nat,
) -> Seq<PhaseEntry>
    decreases k,
{
    if k == 0 {
        phases
    } else {
        advanced_phases(
            voices,
            phases_after_ticks(voices, phases, sample_rate, (k - 1) as nat),
            sample_rate,
        )
    }
}

/// The output sample the mixer produces on its `k`-th tick after the
/// given starting state.
pub open spec fn sample_at_tick(
    voices: Seq<VoiceEntry>,
    phases: Seq<PhaseEntry>,
    sample_rate: u64,
    k: nat,
) -> int {
    mixed_sample(voices, phases_after_ticks(voices, phases, sample_rate, k))
}

/// With no voice live the mixed sample is exactly zero.
pub proof fn lemma_mix_empty(voices: Seq<VoiceEntry>, phases: Seq<PhaseEntry>)
    requires
        voices.len() == 0,
    ensures
        mixed_sample(voices, phases) == 0,
{
}

/// The parameters map is determined by the parameters rows alone.
proof fn lemma_params_map_from_rows(a: VoiceRegistry, b: VoiceRegistry)
    requires
        a.wf(),
        b.wf(),
        a.voices_seq() == b.voices_seq(),
    ensures
        a.params_map() == b.params_map(),
{
    assert forall|k: u64| #[trigger] a.has_voice(k) implies b.has_voice(k) by {
        let i = a.voice_index(k);
        assert(b.voices_seq()[i].id == k);
    }
    assert forall|k: u64| #[trigger] b.has_voice(k) implies a.has_voice(k) by {
        let i = b.voice_index(k);
        assert(a.voices_seq()[i].id == k);
    }
    assert forall|k: u64| #[trigger] a.has_voice(k) implies a.pitch_at_id(k) == b.pitch_at_id(
        k,
    ) by {
        let i = a.voice_index(k);
        a.lemma_row_lookup(i);
        assert(b.voices_seq()[i].id == k);
        b.lemma_row_lookup(i);
    }
    assert(a.params_map() =~= b.params_map());
}

impl VoiceRegistry {
    /// One render tick: reads every live voice, sums its wave at its
    /// current phase, advances every phase by one output sample, and
    /// returns the sum normalized by the voice count — exact silence when
    /// no voice is live.
    pub fn render_tick(&mut self) -> (sample: i64)
        requires
            old(self).wf(),
        ensures
            final(self).wf(),
            sample == mixed_sample(old(self).voices_seq(), old(self).phases_seq()),
            -(UNIT as int) <= sample <= UNIT as int,
            final(self).voices_seq() == old(self).voices_seq(),
            final(self).phases_seq() == advanced_phases(
                old(self).voices_seq(),
                old(self).phases_seq(),
                old(self).sample_rate_spec(),
            ),
            final(self).next_id_spec() == old(self).next_id_spec(),
            final(self).sample_rate_spec() == old(self).sample_rate_spec(),
            final(self).model().parameters == old(self).model().parameters,
    {
        let ghost old_voices = self.voices@;
        let ghost old_phases = self.phases@;
        let ghost rate = self.sample_rate;
        let n = self.voices.len();
        let mut acc: i64 = 0;
        let mut i: usize = 0;
        while i < n
            invariant
                self.wf(),
                n == self.voices@.len(),
                i <= n,
                self.voices@ == old_voices,
                self.phases@.len() == old_phases.len(),
                old_phases.len() == n,
                self.sample_rate == rate,
                self.next_id == old(self).next_id_spec(),
                forall|j: int| i <= j < n ==> self.phases@[j] == old_phases[j],
                forall|j: int|
                    0 <= j < i ==> self.phases@[j] == advanced_phases(
                        old_voices,
                        old_phases,
                        rate,
                    )[j],
                acc == sum_waves(old_voices, old_phases, i as int),
                -(i as int) * (UNIT as int) <= acc <= (i as int) * (UNIT as int),
            decreases n - i,
        {
            let entry = self.voices[i];
            let mut pe = self.phases[i];
            proof {
                assert(pe == old_phases[i as int]);
                assert(valid_pitch(entry.pitch, rate));
            }
            let w = entry.pitch.wave(&mut pe.accumulator, self.sample_rate);
            acc = acc + w;
            entry.pitch.advance(&mut pe.accumulator, self.sample_rate);
            self.phases.set(i, pe);
            i = i + 1;
            proof {
                assert(self.phases@[i - 1] == advanced_phases(old_voices, old_phases, rate)[i
                    - 1]);
            }
        }
        proof {
            assert(self.phases@ =~= advanced_phases(old_voices, old_phases, rate));
        }
        let sample: i64 = if n == 0 {
            0
        } else {
            proof {
                if acc >= 0 {
                    lemma_div_bound(acc as int, n as int, UNIT as int);
                } else {
                    lemma_div_bound(-(acc as int), n as int, UNIT as int);
                }
            }
            if acc >= 0 {
                ((acc as u64) / (n as u64)) as i64
            } else {
                -((((-acc) as u64) / (n as u64)) as i64)
            }
        };
        proof {
            lemma_params_map_from_rows(*self, *old(self));
        }
        sample
    }

    /// Renders a buffer of `count` successive output samples, advancing
    /// the registry through `count` ticks.
    pub fn render(&mut self, count: usize) -> (samples: Vec<i64>)
        requires
            old(self).wf(),
        ensures
            final(self).wf(),
            samples@.len() == count,
            forall|k: int|
                0 <= k < count ==> samples@[k] == sample_at_tick(
                    old(self).voices_seq(),
                    old(self).phases_seq(),
                    old(self).sample_rate_spec(),
                    k as nat,
                ),
            forall|k: int| 0 <= k < count ==> -(UNIT as int) <= #[trigger] samples@[k] <= UNIT as int,
            final(self).voices_seq() == old(self).voices_seq(),
            final(self).phases_seq() == phases_after_ticks(
                old(self).voices_seq(),
                old(self).phases_seq(),
                old(self).sample_rate_spec(),
                count as nat,
            ),
            final(self).next_id_spec() == old(self).next_id_spec(),
            final(self).sample_rate_spec() == old(self).sample_rate_spec(),
            final(self).model().parameters == old(self).model().parameters,
    {
        let ghost old_voices = self.voices@;
        let ghost old_phases = self.phases@;
        let ghost rate = self.sample_rate;
        let mut samples: Vec<i64> = Vec::new();
        let mut k: usize = 0;
        while k < count
            invariant
                self.wf(),
                k <= count,
                samples@.len() == k,
                self.voices@ == old_voices,
                self.sample_rate == rate,
                self.next_id == old(self).next_id_spec(),
                self.phases@ == phases_after_ticks(old_voices, old_phases, rate, k as nat),
                self.model().parameters == old(self).model().parameters,
                forall|j: int|
                    0 <= j < k ==> samples@[j] == sample_at_tick(
                        old_voices,
                        old_phases,
                        rate,
                        j as nat,
                    ),
                forall|j: int| 0 <= j < k ==> -(UNIT as int) <= #[trigger] samples@[j] <= UNIT as int,
            decreases count - k,
        {
            let s = self.render_tick();
            samples.push(s);
            k = k + 1;
        }
        samples
    }
}

/// The registry invariant seen from outside: after any sequence of
/// operations the set of identifiers in the parameters map equals the set
/// of identifiers in the oscillator-state map.
pub proof fn lemma_key_sets_equal(registry: VoiceRegistry)
    requires
        registry.wf(),
    ensures
        registry.model().parameters.dom() == registry.model().oscillators.dom(),
{
    assert forall|k: u64| #[trigger] registry.has_voice(k) implies registry.has_oscillator(k) by {
        let i = registry.voice_index(k);
        registry.lemma_row_lookup(i);
    }
    assert forall|k: u64| #[trigger] registry.has_oscillator(k) implies registry.has_voice(k) by {
        let i = registry.oscillator_index(k);
        assert(registry.voices_seq()[i].id == registry.phases_seq()[i].id);
        registry.lemma_row_lookup(i);
    }
    assert(registry.model().parameters.dom() =~= registry.model().oscillators.dom());
}

} // verus!
