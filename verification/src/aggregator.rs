//! The combination detector: it gathers the keys that are seen held during
//! one press episode and emits the combination once all keys are released.

use crate::keys::{key_names, key_token, keycode_texts, normalize};
use crate::render::{
    insert_token, join_tokens, lemma_sorted_tokens_of_list, rendered, strictly_sorted,
};
use crate::text::texts;
use device_query::Keycode;
use vstd::prelude::*;

verus! {

/// Where the detector stands: `Idle` while no key was seen since the last
/// release, `Accumulating` once a key was.
#[derive(Clone, Copy, Debug, PartialEq, Eq)]
pub enum Phase {
    Idle,
    Accumulating,
}

/// The times that drive a detector, in milliseconds: the period at which
/// the keyboard is sampled, and the delay that is added once after a release
/// so that the detector does not start anew on a jittering key.
#[derive(Clone, Copy, Debug, PartialEq, Eq)]
pub struct Timing {
    pub sample_period_ms: u64,
    pub settle_delay_ms: u64,
}

/// What one sample leaves to do: the combination to publish, if one was
/// completed, and the time to wait before the next sample.
#[derive(Debug, PartialEq, Eq)]
pub struct Tick {
    pub event: Option<String>,
    pub wait_ms: u64,
}

/// The mathematical value of a `Tick`.
pub struct TickView {
    pub event: Option<Seq<char>>,
    pub wait_ms: u64,
}

/// The sum of two times, held at the largest time where it would pass it.
pub open spec fn capped_sum(a: u64, b: u64) -> u64 {
    if a + b > u64::MAX {
        u64::MAX
    } else {
        (a + b) as u64
    }
}

impl View for Tick {
    type V = TickView;

    open spec fn view(&self) -> TickView {
        TickView {
            event: match self.event {
                Some(combo) => Some(combo@),
                None => None,
            },
            wait_ms: self.wait_ms,
        }
    }
}

/// The detector of one connection.
pub struct ComboAggregator {
    held: Vec<String>,
    timing: Timing,
}

/// The mathematical value of a detector: the tokens gathered in the current
/// press episode, and its times.
pub struct AggregatorView {
    pub tokens: Set<Seq<char>>,
    pub timing: Timing,
}

/// The canonical tokens of the keys with the given names.
pub open spec fn key_tokens(names: Seq<Seq<char>>) -> Set<Seq<char>> {
    Seq::new(names.len(), |i: int| key_token(names[i])).to_set()
}

impl AggregatorView {
    /// The phase of the detector.
    pub open spec fn phase(self) -> Phase {
        if self.tokens == Set::<Seq<char>>::empty() {
            Phase::Idle
        } else {
            Phase::Accumulating
        }
    }

    /// The detector after a sample that found the keys with the given names
    /// held. Keys that are held add their tokens to those gathered; a sample
    /// without keys ends the episode and leaves nothing gathered.
    pub open spec fn after(self, names: Seq<Seq<char>>) -> AggregatorView {
        AggregatorView {
            tokens: if names.len() > 0 {
                self.tokens.union(key_tokens(names))
            } else {
                Set::empty()
            },
            timing: self.timing,
        }
    }

    /// What a sample leaves to do. Only a sample without keys that ends an
    /// episode emits: the rendered combination of the tokens gathered, unless
    /// that is the empty text. The next sample is due after the sample
    /// period, and after a release after the settle delay on top of it.
    pub open spec fn tick(self, names: Seq<Seq<char>>) -> TickView {
        if names.len() == 0 && self.tokens != Set::<Seq<char>>::empty() {
            TickView {
                event: if rendered(self.tokens).len() > 0 {
                    Some(rendered(self.tokens))
                } else {
                    None
                },
                wait_ms: capped_sum(self.timing.sample_period_ms, self.timing.settle_delay_ms),
            }
        } else {
            TickView { event: None, wait_ms: self.timing.sample_period_ms }
        }
    }
}

/// After a release, a second sample without keys does nothing: it emits no
/// combination, adds no settle delay and leaves the detector as it is.
pub proof fn lemma_second_release_is_silent(state: AggregatorView)
    ensures
        state.after(Seq::empty()).tick(Seq::empty()).event is None,
        state.after(Seq::empty()).tick(Seq::empty()).wait_ms == state.timing.sample_period_ms,
        state.after(Seq::empty()).after(Seq::empty()) == state.after(Seq::empty()),
        state.after(Seq::empty()).phase() == Phase::Idle,
{
}

/// The tokens gathered over the samples of one press episode, none of which
/// is without keys.
pub open spec fn gathered(samples: Seq<Seq<Seq<char>>>) -> Set<Seq<char>>
    decreases samples.len(),
{
    if samples.len() == 0 {
        Set::empty()
    } else {
        gathered(samples.drop_last()).union(key_tokens(samples.last()))
    }
}

/// The detector after a run of samples.
pub open spec fn after_all(state: AggregatorView, samples: Seq<Seq<Seq<char>>>) -> AggregatorView
    decreases samples.len(),
{
    if samples.len() == 0 {
        state
    } else {
        after_all(state, samples.drop_last()).after(samples.last())
    }
}

/// A press episode emits one combination, at its end: while keys are held no
/// sample emits, and the sample without keys that follows emits the
/// rendering of all tokens that were gathered, whichever keys were held
/// together and in whatever order they came.
pub proof fn lemma_press_episode(state: AggregatorView, samples: Seq<Seq<Seq<char>>>)
    requires
        state.tokens == Set::<Seq<char>>::empty(),
        samples.len() > 0,
        forall|i: int| 0 <= i < samples.len() ==> samples[i].len() > 0,
    ensures
        forall|i: int|
            0 <= i < samples.len() ==> (#[trigger] after_all(state, samples.take(i))).tick(
                samples[i],
            ).event is None,
        after_all(state, samples).tokens == gathered(samples),
        gathered(samples) != Set::<Seq<char>>::empty(),
        after_all(state, samples).tick(Seq::empty()).event == if rendered(gathered(samples)).len()
            > 0 {
            Some(rendered(gathered(samples)))
        } else {
            None
        },
        after_all(state, samples).after(Seq::empty()).phase() == Phase::Idle,
{
    lemma_gathered(state, samples);
    let last = samples.last();
    let token = key_token(last[0]);
    let tokens = Seq::new(last.len(), |i: int| key_token(last[i]));
    assert(tokens[0] == token);
    assert(tokens.to_set().contains(token)) by {
        broadcast use vstd::seq_lib::lemma_seq_contains;

        assert(tokens.contains(token));
    }
    assert(gathered(samples).contains(token));
}

/// A press episode in which a token that is not empty was gathered emits
/// its combination at the release: exactly one event for the episode.
pub proof fn lemma_press_episode_emits(
    state: AggregatorView,
    samples: Seq<Seq<Seq<char>>>,
    token: Seq<char>,
)
    requires
        state.tokens == Set::<Seq<char>>::empty(),
        samples.len() > 0,
        forall|i: int| 0 <= i < samples.len() ==> samples[i].len() > 0,
        gathered(samples).contains(token),
        token.len() > 0,
    ensures
        forall|i: int|
            0 <= i < samples.len() ==> (#[trigger] after_all(state, samples.take(i))).tick(
                samples[i],
            ).event is None,
        after_all(state, samples).tick(Seq::empty()).event == Some(rendered(gathered(samples))),
        after_all(state, samples).after(Seq::empty()).tick(Seq::empty()).event is None,
{
    lemma_press_episode(state, samples);
    lemma_gathered_finite(samples);
    crate::render::lemma_rendered_not_empty(gathered(samples), token);
}

proof fn lemma_gathered_finite(samples: Seq<Seq<Seq<char>>>)
    ensures
        gathered(samples).finite(),
    decreases samples.len(),
{
    if samples.len() > 0 {
        lemma_gathered_finite(samples.drop_last());
        let last = samples.last();
        let tokens = Seq::new(last.len(), |i: int| key_token(last[i]));
        vstd::seq_lib::seq_to_set_is_finite(tokens);
        vstd::set_lib::lemma_set_union_finite_iff(
            gathered(samples.drop_last()),
            key_tokens(last),
        );
    }
}

proof fn lemma_gathered(state: AggregatorView, samples: Seq<Seq<Seq<char>>>)
    requires
        state.tokens == Set::<Seq<char>>::empty(),
        forall|i: int| 0 <= i < samples.len() ==> samples[i].len() > 0,
    ensures
        after_all(state, samples).tokens == gathered(samples),
        after_all(state, samples).timing == state.timing,
    decreases samples.len(),
{
    if samples.len() > 0 {
        let front = samples.drop_last();
        assert forall|i: int| 0 <= i < front.len() implies front[i].len() > 0 by {
            assert(front[i] == samples[i]);
        }
        lemma_gathered(state, front);
    }
}

impl ComboAggregator {
    /// The value of the detector.
    pub closed spec fn view(&self) -> AggregatorView {
        AggregatorView {
            tokens: texts(self.held@).to_set(),
            timing: self.timing,
        }
    }

    /// The detector is well formed.
    pub closed spec fn wf(&self) -> bool {
        strictly_sorted(texts(self.held@))
    }

    /// A detector that has gathered nothing, with its times.
    pub fn new(timing: Timing) -> (aggregator: ComboAggregator)
        ensures
            aggregator.wf(),
            aggregator@.tokens == Set::<Seq<char>>::empty(),
            aggregator@.timing == timing,
            aggregator@.phase() == Phase::Idle,
    {
        let aggregator = ComboAggregator { held: Vec::new(), timing };
        assert(texts(aggregator.held@).to_set() =~= Set::<Seq<char>>::empty());
        aggregator
    }

    /// The phase of the detector.
    pub fn phase(&self) -> (phase: Phase)
        ensures
            phase == self@.phase(),
    {
        proof {
            self.lemma_empty();
        }
        if self.held.len() == 0 {
            Phase::Idle
        } else {
            Phase::Accumulating
        }
    }

    /// The detector has gathered nothing exactly when it holds no string.
    proof fn lemma_empty(&self)
        ensures
            self@.tokens == Set::<Seq<char>>::empty() <==> self.held@.len() == 0,
    {
        broadcast use vstd::seq_lib::lemma_seq_contains;

        let held = texts(self.held@);
        if held.len() > 0 {
            assert(held.to_set().contains(held[0]));
        } else {
            assert(held.to_set() =~= Set::<Seq<char>>::empty());
        }
    }

    /// Takes one sample, given by the names of the keys that are held.
    pub fn observe(&mut self, names: &Vec<String>) -> (tick: Tick)
        requires
            old(self).wf(),
        ensures
            final(self).wf(),
            final(self)@ == old(self)@.after(texts(names@)),
            tick@ == old(self)@.tick(texts(names@)),
    {
        proof {
            self.lemma_empty();
        }
        if names.len() > 0 {
            let ghost wanted = Seq::new(names@.len(), |i: int| key_token(texts(names@)[i]));
            let mut i: usize = 0;
            while i < names.len()
                invariant
                    i <= names.len(),
                    self.wf(),
                    self.timing == old(self).timing,
                    wanted == Seq::new(names@.len(), |i: int| key_token(texts(names@)[i])),
                    self@.tokens == old(self)@.tokens.union(wanted.take(i as int).to_set()),
                decreases names.len() - i,
            {
                let token = normalize(names[i].as_str());
                insert_token(&mut self.held, token);
                proof {
                    crate::render::lemma_take_step_set(wanted, i as int);
                }
                i += 1;
            }
            assert(wanted.take(names.len() as int) =~= wanted);
            Tick { event: None, wait_ms: self.timing.sample_period_ms }
        } else if self.held.len() > 0 {
            proof {
                lemma_sorted_tokens_of_list(texts(self.held@));
            }
            let combo = join_tokens(&self.held);
            self.held = Vec::new();
            assert(texts(self.held@).to_set() =~= Set::<Seq<char>>::empty());
            let wait_ms = self.timing.sample_period_ms.saturating_add(
                self.timing.settle_delay_ms,
            );
            if combo.as_str().is_empty() {
                Tick { event: None, wait_ms }
            } else {
                Tick { event: Some(combo), wait_ms }
            }
        } else {
            assert(self@.tokens =~= Set::<Seq<char>>::empty());
            Tick { event: None, wait_ms: self.timing.sample_period_ms }
        }
    }

    /// Takes one sample, given by the keys that are held: the sample of
    /// their names.
    pub fn sample(&mut self, keys: &Vec<Keycode>) -> (tick: Tick)
        requires
            old(self).wf(),
        ensures
            final(self).wf(),
            final(self)@ == old(self)@.after(keycode_texts(keys@)),
            tick@ == old(self)@.tick(keycode_texts(keys@)),
    {
        let names = key_names(keys);
        self.observe(&names)
    }
}

} // verus!
