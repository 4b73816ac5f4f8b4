//! The baseline tuner: every parameter is drawn at random, and every trial
//! ends with its first observation.

use vstd::prelude::*;
use crate::error::Error;
use crate::param::{NumParamType, ParamName, ParamType, ParamTypeView, ParamValue, StrParamType};
use crate::rng::{ArcRng, RngSeed};
use crate::trial::{Observation, ObservationView, TrialId};
use crate::tuners::{
    lemma_names_after_push, lemma_names_after_take, queue_names, Action, ActionQueue, Asked, Tune,
};

verus! {

/// The description of a random tuner.
#[derive(Debug, Clone, Copy, PartialEq, Eq, Structural)]
pub struct RandomTunerSpec {
    /// The seed of the generator; none means "take one from the machine".
    pub seed: Option<RngSeed>,
}

impl Default for RandomTunerSpec {
    /// A random tuner without a fixed seed.
    fn default() -> (r: Self)
        ensures
            r.seed is None,
    {
        Self { seed: None }
    }
}

impl RandomTunerSpec {
    /// A random tuner without a fixed seed.
    pub fn new() -> (r: Self)
        ensures
            r.seed is None,
    {
        Self { seed: None }
    }

    /// Builds the tuner: nothing waits in its queue, and its generator is
    /// started from the seed of the description where there is one, from a
    /// seed taken from the machine otherwise.
    pub fn build(&self) -> (r: Result<RandomTuner, Error>)
        ensures
            r is Ok,
            r.unwrap().pending() == Seq::<Action>::empty(),
            self.seed matches Some(seed) ==> r.unwrap().generator().spec_seed() == seed,
    {
        let seed = match self.seed {
            Some(seed) => seed,
            None => RngSeed::random(),
        };
        Ok(RandomTuner::new(ArcRng::new(seed)))
    }
}

/// The baseline tuner.
#[derive(Debug)]
pub struct RandomTuner {
    rng: ArcRng,
    actions: ActionQueue,
}

impl RandomTuner {
    /// The actions that wait to be taken.
    pub closed spec fn pending(&self) -> Seq<Action> {
        self.actions@
    }

    /// The generator that the tuner draws from.
    pub closed spec fn generator(&self) -> ArcRng {
        self.rng
    }

    /// A tuner that draws from `rng`, with nothing waiting in its queue.
    pub fn new(rng: ArcRng) -> (r: Self)
        ensures
            r.generator() == rng,
            r.pending() == Seq::<Action>::empty(),
    {
        RandomTuner { rng, actions: ActionQueue::new() }
    }

    /// The seed that the tuner's generator was started from.
    pub fn seed(&self) -> (r: RngSeed)
        ensures
            r == self.generator().spec_seed(),
    {
        self.rng.seed()
    }
}

impl Tune for RandomTuner {
    /// A choice is one of the listed choices; a fidelity is the upper end of
    /// its range; every other number is left to the caller to draw. The
    /// queue stays as it is.
    open spec fn ask_spec(
        &self,
        obs: ObservationView,
        name: Seq<char>,
        ty: ParamTypeView,
        r: Result<Asked, Error>,
        post: &Self,
    ) -> bool {
        &&& post.pending() == self.pending()
        &&& match ty {
            ParamTypeView::Categorical(choices) => r matches Ok(Asked::Value(ParamValue::Str(s)))
                && choices.contains(s),
            ParamTypeView::Ordinal(choices) => r matches Ok(Asked::Value(ParamValue::Str(s)))
                && choices.contains(s),
            ParamTypeView::Num(NumParamType::Fidelity(t)) => r == Ok::<Asked, Error>(
                Asked::Value(ParamValue::Num(t.spec_range().spec_max())),
            ),
            ParamTypeView::Num(t) => r == Ok::<Asked, Error>(Asked::Sample(t)),
        }
    }

    /// The trial of the observation is queued for closing.
    open spec fn tell_spec(&self, obs: ObservationView, failure: Option<Error>, post: &Self) -> bool {
        &&& failure is None
        &&& post.pending() == self.pending().push(Action::FinishTrial { trial_id: obs.trial_id })
    }

    /// The front of the queue, if there is one.
    open spec fn next_action_spec(&self, r: Option<Action>, post: &Self) -> bool {
        if self.pending().len() > 0 {
            r == Some(self.pending()[0]) && post.pending() == self.pending().drop_first()
        } else {
            r is None && post.pending() == self.pending()
        }
    }

    /// The trials of the actions that wait.
    open spec fn may_name(&self, trial: TrialId) -> bool {
        queue_names(self.pending(), trial)
    }

    fn ask(&mut self, _obs: &Observation, _param_name: &ParamName, param_type: &ParamType) -> (r:
        Result<Asked, Error>) {
        match param_type {
            ParamType::Str(StrParamType::Categorical(t)) => {
                match self.rng.pick(t.choices().get()) {
                    Some(s) => Ok(Asked::Value(ParamValue::Str(s.clone()))),
                    None => Err(Error::EmptyList),
                }
            },
            ParamType::Str(StrParamType::Ordinal(t)) => {
                match self.rng.pick(t.choices().get()) {
                    Some(s) => Ok(Asked::Value(ParamValue::Str(s.clone()))),
                    None => Err(Error::EmptyList),
                }
            },
            ParamType::Num(NumParamType::Fidelity(t)) => Ok(
                Asked::Value(ParamValue::Num(t.range().max())),
            ),
            ParamType::Num(t) => Ok(Asked::Sample(*t)),
        }
    }

    fn tell(&mut self, obs: &Observation) -> (r: Result<(), Error>) {
        let ghost before = self.pending();
        self.actions.enqueue(Action::finish_trial(obs.trial_id));
        proof {
            lemma_names_after_push(before, Action::FinishTrial { trial_id: obs.trial_id });
        }
        Ok(())
    }

    fn next_action(&mut self) -> (r: Option<Action>) {
        let ghost before = self.pending();
        proof {
            lemma_names_after_take(before);
        }
        self.actions.next()
    }
}

} // verus!
