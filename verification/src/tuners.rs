//! The contract between the supervisor and a tuner, and the tuners that
//! come with the library.
//!
//! A tuner answers three calls. Each call has a relation over the tuner's
//! state before the call, the arguments, the result and the state after
//! the call; a tuner states its behaviour by defining the three relations,
//! and whoever holds a tuner reasons through them.

use vstd::prelude::*;
use std::collections::VecDeque;
use crate::error::Error;
use crate::param::{NumParamType, ParamName, ParamType, ParamTypeView, ParamValue};
use crate::rng::{ArcRng, RngSeed};
use crate::trial::{Observation, ObservationView, TrialId};
use crate::tuners::random::{RandomTuner, RandomTunerSpec};
use crate::tuners::retry::RetryTuner;

pub mod random;
pub mod retry;

verus! {

/// A step that a tuner asks the supervisor to take.
#[derive(Debug, Clone, Copy, PartialEq, Eq, Structural)]
pub enum Action {
    /// Start one more observation of a trial.
    ResumeTrial { trial_id: TrialId },
    /// Close a trial.
    FinishTrial { trial_id: TrialId },
    /// Start nothing until a running observation has finished.
    WaitObservations,
    /// End the study.
    QuitOptimization,
}

impl Action {
    /// Whether the action is about trial `trial`.
    pub open spec fn names(self, trial: TrialId) -> bool {
        match self {
            Action::ResumeTrial { trial_id } => trial_id == trial,
            Action::FinishTrial { trial_id } => trial_id == trial,
            _ => false,
        }
    }

    pub fn resume_trial(trial_id: TrialId) -> (r: Self)
        ensures
            r == (Action::ResumeTrial { trial_id }),
    {
        Self::ResumeTrial { trial_id }
    }

    pub fn finish_trial(trial_id: TrialId) -> (r: Self)
        ensures
            r == (Action::FinishTrial { trial_id }),
    {
        Self::FinishTrial { trial_id }
    }
}

/// Whether one of the actions is about trial `trial`.
pub open spec fn queue_names(queue: Seq<Action>, trial: TrialId) -> bool {
    exists|i: int| 0 <= i < queue.len() && (#[trigger] queue[i]).names(trial)
}

/// Whether the answer of a tuner is an action about trial `trial`.
pub open spec fn answer_names(answer: Option<Action>, trial: TrialId) -> bool {
    match answer {
        Some(action) => action.names(trial),
        None => false,
    }
}

/// A queue with one more action names what it named before and what the
/// new action names.
pub proof fn lemma_names_after_push(queue: Seq<Action>, action: Action)
    ensures
        forall|t: TrialId| #[trigger]
            queue_names(queue.push(action), t) ==> queue_names(queue, t) || action.names(t),
        forall|t: TrialId| #[trigger] queue_names(queue, t) ==> queue_names(queue.push(action), t),
        forall|t: TrialId| action.names(t) ==> #[trigger] queue_names(queue.push(action), t),
{
    let longer = queue.push(action);
    assert forall|t: TrialId| #[trigger] queue_names(longer, t) implies queue_names(queue, t)
        || action.names(t) by {
        let i = choose|i: int| 0 <= i < longer.len() && (#[trigger] longer[i]).names(t);
        if i < queue.len() {
            assert(queue[i].names(t));
        }
    }
    assert forall|t: TrialId| #[trigger] queue_names(queue, t) implies queue_names(longer, t) by {
        let i = choose|i: int| 0 <= i < queue.len() && (#[trigger] queue[i]).names(t);
        assert(longer[i].names(t));
    }
    assert forall|t: TrialId| action.names(t) implies #[trigger] queue_names(longer, t) by {
        assert(longer[queue.len() as int].names(t));
    }
}

/// The front of a queue and what is left behind it name only what the
/// queue names.
pub proof fn lemma_names_after_take(queue: Seq<Action>)
    ensures
        queue.len() > 0 ==> forall|t: TrialId| #[trigger]
            queue[0].names(t) ==> queue_names(queue, t),
        queue.len() > 0 ==> forall|t: TrialId| #[trigger]
            queue_names(queue.drop_first(), t) ==> queue_names(queue, t),
{
    if queue.len() > 0 {
        let rest = queue.drop_first();
        assert forall|t: TrialId| #[trigger] queue_names(rest, t) implies queue_names(queue, t) by {
            let i = choose|i: int| 0 <= i < rest.len() && (#[trigger] rest[i]).names(t);
            assert(queue[i + 1].names(t));
        }
    }
}

/// Actions waiting to be taken, first in first out.
#[derive(Debug)]
pub struct ActionQueue(VecDeque<Action>);

impl View for ActionQueue {
    type V = Seq<Action>;

    closed spec fn view(&self) -> Seq<Action> {
        self.0@
    }
}

impl ActionQueue {
    pub fn new() -> (r: Self)
        ensures
            r@ == Seq::<Action>::empty(),
    {
        Self(VecDeque::new())
    }

    /// Puts an action at the end of the queue.
    pub fn enqueue(&mut self, action: Action)
        ensures
            final(self)@ == old(self)@.push(action),
    {
        self.0.push_back(action);
    }

    /// Takes the action at the front of the queue, if there is one.
    pub fn next(&mut self) -> (r: Option<Action>)
        ensures
            old(self)@.len() == 0 ==> r is None && final(self)@ == old(self)@,
            old(self)@.len() > 0 ==> r == Some(old(self)@[0]) && final(self)@ == old(
                self,
            )@.drop_first(),
    {
        let r = self.0.pop_front();
        proof {
            if old(self)@.len() > 0 {
                assert(self@ =~= old(self)@.drop_first());
            }
        }
        r
    }
}

/// A tuner's answer to a request for a parameter.
#[derive(Debug)]
pub enum Asked {
    /// The value of the parameter.
    Value(ParamValue),
    /// The tuner wants the parameter drawn at random from the
    /// distribution that its type describes. Drawing is arithmetic on the
    /// numbers themselves and is left to the caller.
    Sample(NumParamType),
}

/// The error of a result, if it is one.
pub open spec fn failure_of<V>(r: Result<V, Error>) -> Option<Error> {
    match r {
        Ok(_) => None,
        Err(e) => Some(e),
    }
}

/// The decision engine of a study.
pub trait Tune: Sized {
    /// What `ask` may return and how it may change the tuner. A tuner
    /// that does not say is free to do anything.
    open spec fn ask_spec(
        &self,
        obs: ObservationView,
        name: Seq<char>,
        ty: ParamTypeView,
        r: Result<Asked, Error>,
        post: &Self,
    ) -> bool {
        true
    }

    /// Whether `tell` may fail with `failure`, or succeed where that is
    /// none, and how it may change the tuner. A tuner that does not say
    /// is free to do anything.
    open spec fn tell_spec(&self, obs: ObservationView, failure: Option<Error>, post: &Self) -> bool {
        true
    }

    /// What `next_action` may return and how it may change the tuner. A
    /// tuner that does not say is free to do anything.
    open spec fn next_action_spec(&self, r: Option<Action>, post: &Self) -> bool {
        true
    }

    /// Whether the tuner may, without being told anything more, answer with
    /// an action about trial `trial`. A tuner names only trials that it has
    /// been told of; one that does not say may name any trial.
    open spec fn may_name(&self, trial: TrialId) -> bool {
        true
    }

    /// Chooses a value for a parameter of a running observation.
    fn ask(&mut self, obs: &Observation, param_name: &ParamName, param_type: &ParamType) -> (r:
        Result<Asked, Error>)
        ensures
            old(self).ask_spec(obs@, param_name.0@, param_type@, r, final(self)),
            forall|t: TrialId| #[trigger] final(self).may_name(t) ==> old(self).may_name(t),
    ;

    /// Takes note of a finished observation.
    fn tell(&mut self, obs: &Observation) -> (r: Result<(), Error>)
        ensures
            old(self).tell_spec(obs@, failure_of(r), final(self)),
            forall|t: TrialId| #[trigger]
                final(self).may_name(t) ==> old(self).may_name(t) || t == obs.trial_id,
    ;

    /// The next step the supervisor should take; none means "start a new
    /// trial".
    fn next_action(&mut self) -> (r: Option<Action>)
        ensures
            old(self).next_action_spec(r, final(self)),
            forall|t: TrialId| #[trigger] answer_names(r, t) ==> old(self).may_name(t),
            forall|t: TrialId| #[trigger] final(self).may_name(t) ==> old(self).may_name(t),
    ;
}

/// The description of the tuner that a study starts from.
#[derive(Debug, Clone, Copy, PartialEq, Eq, Structural)]
pub enum TunerSpecInner {
    Random(RandomTunerSpec),
}

/// The description of a tuner: a base tuner, wrapped for retries where
/// `retry` is above zero.
#[derive(Debug, Clone, Copy, PartialEq, Eq, Structural)]
pub struct TunerSpec {
    /// How often a failed trial is run again; zero means never.
    pub retry: usize,
    /// The base tuner; none means a random tuner without a fixed seed.
    pub inner: Option<TunerSpecInner>,
}

impl Default for TunerSpec {
    /// A random tuner without a fixed seed and without retries.
    fn default() -> (r: Self)
        ensures
            r == (TunerSpec { retry: 0, inner: None }),
    {
        Self { retry: 0, inner: None }
    }
}

impl TunerSpec {
    /// A random tuner without a fixed seed and without retries.
    pub fn new() -> (r: Self)
        ensures
            r == (TunerSpec { retry: 0, inner: None }),
    {
        Self { retry: 0, inner: None }
    }

    /// Whether `tuner` is a tuner as the description asks for: a random
    /// tuner where `retry` is zero, a random tuner wrapped for that many
    /// retries otherwise, with nothing waiting in any queue and no trial
    /// under retry.
    pub open spec fn builds(&self, tuner: Tuner) -> bool {
        if self.retry == 0 {
            tuner matches Tuner::Random(t) && t.pending() == Seq::<Action>::empty()
        } else {
            tuner matches Tuner::Retry(t) && t.max_retries() == self.retry && t.pending() == Seq::<
                Action,
            >::empty() && t.retrying() == Map::<u64, (ObservationView, usize)>::empty()
                && t.inner().pending() == Seq::<Action>::empty()
        }
    }

    /// A tuner that was just built names no trial.
    pub proof fn lemma_builds_names_nothing(&self, tuner: Tuner, trial: TrialId)
        requires
            self.builds(tuner),
        ensures
            !tuner.may_name(trial),
    {
    }

    /// The seed that the description fixes, if it fixes one.
    pub open spec fn seed(&self) -> Option<RngSeed> {
        match self.inner {
            Some(TunerSpecInner::Random(spec)) => spec.seed,
            None => None,
        }
    }

    /// Builds the tuner that the description asks for. Its generator is
    /// started from the seed of the description where there is one, from a
    /// seed taken from the machine otherwise.
    pub fn build(&self) -> (r: Result<Tuner, Error>)
        ensures
            r is Ok,
            self.builds(r.unwrap()),
            self.seed() matches Some(seed) ==> r.unwrap().generator().spec_seed() == seed,
    {
        let base = match self.inner {
            Some(TunerSpecInner::Random(spec)) => spec,
            None => RandomTunerSpec::new(),
        };
        match base.build() {
            Ok(tuner) => Ok(self.wrap(tuner)),
            Err(e) => Err(e),
        }
    }

    /// Builds the tuner that the description asks for around a generator
    /// that the caller has made, for the caller to draw from the same
    /// stream through another handle.
    pub fn build_with(&self, rng: ArcRng) -> (r: Tuner)
        ensures
            self.builds(r),
            r.generator() == rng,
    {
        self.wrap(RandomTuner::new(rng))
    }

    /// Wraps a base tuner for retries where the description asks for some.
    fn wrap(&self, tuner: RandomTuner) -> (r: Tuner)
        requires
            tuner.pending() == Seq::<Action>::empty(),
        ensures
            self.builds(r),
            r.generator() == tuner.generator(),
    {
        if self.retry > 0 {
            Tuner::Retry(RetryTuner::new(tuner, self.retry))
        } else {
            Tuner::Random(tuner)
        }
    }
}

/// One of the tuners that come with the library.
#[derive(Debug)]
pub enum Tuner {
    Random(RandomTuner),
    Retry(RetryTuner<RandomTuner>),
}

impl Tuner {
    /// The generator that the tuner, or the tuner it wraps, draws from.
    pub open spec fn generator(&self) -> ArcRng {
        match self {
            Tuner::Random(t) => t.generator(),
            Tuner::Retry(t) => t.inner().generator(),
        }
    }
}

impl Tune for Tuner {
    /// What the tuner inside says; a tuner never turns into another kind.
    open spec fn ask_spec(
        &self,
        obs: ObservationView,
        name: Seq<char>,
        ty: ParamTypeView,
        r: Result<Asked, Error>,
        post: &Self,
    ) -> bool {
        match (self, post) {
            (Tuner::Random(a), Tuner::Random(b)) => a.ask_spec(obs, name, ty, r, b),
            (Tuner::Retry(a), Tuner::Retry(b)) => a.ask_spec(obs, name, ty, r, b),
            _ => false,
        }
    }

    open spec fn tell_spec(&self, obs: ObservationView, failure: Option<Error>, post: &Self) -> bool {
        match (self, post) {
            (Tuner::Random(a), Tuner::Random(b)) => a.tell_spec(obs, failure, b),
            (Tuner::Retry(a), Tuner::Retry(b)) => a.tell_spec(obs, failure, b),
            _ => false,
        }
    }

    open spec fn next_action_spec(&self, r: Option<Action>, post: &Self) -> bool {
        match (self, post) {
            (Tuner::Random(a), Tuner::Random(b)) => a.next_action_spec(r, b),
            (Tuner::Retry(a), Tuner::Retry(b)) => a.next_action_spec(r, b),
            _ => false,
        }
    }

    open spec fn may_name(&self, trial: TrialId) -> bool {
        match self {
            Tuner::Random(t) => t.may_name(trial),
            Tuner::Retry(t) => t.may_name(trial),
        }
    }

    fn ask(&mut self, obs: &Observation, param_name: &ParamName, param_type: &ParamType) -> (r:
        Result<Asked, Error>) {
        match self {
            Tuner::Random(t) => t.ask(obs, param_name, param_type),
            Tuner::Retry(t) => t.ask(obs, param_name, param_type),
        }
    }

    fn tell(&mut self, obs: &Observation) -> (r: Result<(), Error>) {
        match self {
            Tuner::Random(t) => t.tell(obs),
            Tuner::Retry(t) => t.tell(obs),
        }
    }

    fn next_action(&mut self) -> (r: Option<Action>) {
        match self {
            Tuner::Random(t) => t.next_action(),
            Tuner::Retry(t) => t.next_action(),
        }
    }
}

} // verus!
