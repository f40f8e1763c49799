//! Control-plane intents: discrete requests to mutate the voice registry,
//! produced by the input-handling collaborator and drained once per
//! control-plane tick, in the order produced.

use vstd::prelude::*;

verus! {

use crate::pitch::{valid_pitch, Pitch};
use crate::registry::{RegistryModel, VoiceRegistry, MAX_VOICES};

/// A discrete request to mutate the voice registry.
#[derive(Clone, Copy, Debug)]
pub enum Intent {
    /// Remove every voice.
    Clear,
    /// Create a voice with these parameters and a zeroed oscillator state.
    Add(Pitch),
    /// Replace the parameters of the voice with this identifier.
    Update(u64, Pitch),
}

/// Whether the parameters an intent carries are playable at the given
/// sample rate.
pub open spec fn intent_pitch_valid(intent: Intent, sample_rate: u64) -> bool {
    match intent {
        Intent::Clear => true,
        Intent::Add(pitch) => valid_pitch(pitch, sample_rate),
        Intent::Update(_, pitch) => valid_pitch(pitch, sample_rate),
    }
}

/// What one intent does to the registry, seen on its maps: `Clear`
/// empties both, `Add` inserts parameters and a zeroed oscillator under
/// the next identifier, `Update` replaces parameters of a present
/// identifier and ignores an absent one.
pub open spec fn apply_intent_model(m: RegistryModel, intent: Intent) -> RegistryModel {
    match intent {
        Intent::Clear => RegistryModel {
            parameters: Map::<u64, Pitch>::empty(),
            oscillators: Map::<u64, u64>::empty(),
            next_id: m.next_id,
            sample_rate: m.sample_rate,
        },
        Intent::Add(pitch) => RegistryModel {
            parameters: m.parameters.insert(m.next_id, pitch),
            oscillators: m.oscillators.insert(m.next_id, 0),
            next_id: (m.next_id + 1) as u64,
            sample_rate: m.sample_rate,
        },
        Intent::Update(id, pitch) => if m.parameters.dom().contains(id) {
            RegistryModel {
                parameters: m.parameters.insert(id, pitch),
                oscillators: m.oscillators,
                next_id: m.next_id,
                sample_rate: m.sample_rate,
            }
        } else {
            m
        },
    }
}

/// The registry after a whole queue of intents, applied first to last.
pub open spec fn apply_intents_model(m: RegistryModel, intents: Seq<Intent>) -> RegistryModel
    decreases intents.len(),
{
    if intents.len() == 0 {
        m
    } else {
        apply_intents_model(apply_intent_model(m, intents[0]), intents.drop_first())
    }
}

impl VoiceRegistry {
    /// Applies one control-plane intent to the registry. Returns the
    /// minted identifier when the intent was an `Add`.
    pub fn apply_intent(&mut self, intent: Intent) -> (added: Option<u64>)
        requires
            old(self).wf(),
            intent_pitch_valid(intent, old(self).sample_rate_spec()),
            (intent matches Intent::Add(_)) ==> old(self).voices_seq().len() < MAX_VOICES && old(
                self,
            ).next_id_spec() < u64::MAX,
        ensures
            final(self).wf(),
            final(self).model() == apply_intent_model(old(self).model(), intent),
            final(self).sample_rate_spec() == old(self).sample_rate_spec(),
            final(self).voices_seq().len() <= old(self).voices_seq().len() + 1,
            final(self).next_id_spec() <= old(self).next_id_spec() + 1,
            added matches Some(id) ==> (intent matches Intent::Add(_)) && id == old(
                self,
            ).next_id_spec(),
            (intent matches Intent::Add(_)) <==> (added is Some),
    {
        match intent {
            Intent::Clear => {
                self.clear();
                None
            },
            Intent::Add(pitch) => {
                let id = self.add(pitch);
                Some(id)
            },
            Intent::Update(id, pitch) => {
                self.update(id, pitch);
                None
            },
        }
    }

    /// Drains one control-plane tick's queue: applies every intent to the
    /// registry, in the order produced.
    pub fn apply_intents(&mut self, intents: &Vec<Intent>)
        requires
            old(self).wf(),
            forall|j: int|
                0 <= j < intents@.len() ==> intent_pitch_valid(
                    #[trigger] intents@[j],
                    old(self).sample_rate_spec(),
                ),
            old(self).voices_seq().len() + intents@.len() <= MAX_VOICES,
            old(self).next_id_spec() + intents@.len() <= u64::MAX,
        ensures
            final(self).wf(),
            final(self).model() == apply_intents_model(old(self).model(), intents@),
            final(self).sample_rate_spec() == old(self).sample_rate_spec(),
    {
        let ghost old_model = old(self).model();
        proof {
            assert(intents@.skip(0) =~= intents@);
        }
        let n = intents.len();
        let mut i: usize = 0;
        while i < n
            invariant
                self.wf(),
                n == intents@.len(),
                i <= n,
                self.sample_rate_spec() == old(self).sample_rate_spec(),
                forall|j: int|
                    0 <= j < n ==> intent_pitch_valid(
                        #[trigger] intents@[j],
                        self.sample_rate_spec(),
                    ),
                self.voices_seq().len() + (n - i) <= MAX_VOICES,
                self.next_id_spec() + (n - i) <= u64::MAX,
                apply_intents_model(self.model(), intents@.skip(i as int)) == apply_intents_model(
                    old_model,
                    intents@,
                ),
            decreases n - i,
        {
            let ghost pre_model = self.model();
            let ghost pre_i = i as int;
            let intent = intents[i];
            self.apply_intent(intent);
            i = i + 1;
            proof {
                assert(intents@.skip(pre_i)[0] == intents@[pre_i]);
                assert(intents@.skip(pre_i).drop_first() =~= intents@.skip(i as int));
                assert(apply_intents_model(pre_model, intents@.skip(pre_i))
                    == apply_intents_model(
                    apply_intent_model(pre_model, intents@[pre_i]),
                    intents@.skip(i as int),
                ));
            }
        }
        proof {
            assert(intents@.skip(n as int) =~= Seq::<Intent>::empty());
            assert(apply_intents_model(self.model(), intents@.skip(n as int)) == self.model());
        }
    }
}

} // verus!
