//! A tuner that wraps another one and runs failed observations again, with
//! the parameters of the first attempt, before it reports them.

use vstd::prelude::*;
use std::collections::HashMap;
use crate::error::Error;
use crate::ordmap::lookup;
use crate::param::{ParamName, ParamType, ParamTypeView};
use crate::trial::{Observation, ObservationView, TrialId};
use crate::tuners::{
    lemma_names_after_push, lemma_names_after_take, queue_names, Action, ActionQueue, Asked, Tune,
};

verus! {

/// The first failed observation of a trial and how often the trial has
/// been run again since.
#[derive(Debug)]
pub struct FailedObservation {
    pub obs: Observation,
    pub retried_count: usize,
}

/// The model of the trials under retry: for each trial the first failed
/// observation and the number of retries so far.
pub type Retrying = Map<u64, (ObservationView, usize)>;

/// The first failed observation with the metrics and the exit status of the
/// attempt that succeeded; identifiers and parameters stay those of the
/// first attempt.
pub open spec fn merged(first: ObservationView, last: ObservationView) -> ObservationView {
    ObservationView { metrics: last.metrics, exit_status: last.exit_status, ..first }
}

/// Whether one of the first failed attempts under retry belongs to trial
/// `trial`.
pub open spec fn under_retry(retrying: Retrying, trial: TrialId) -> bool {
    exists|k: u64| #[trigger] retrying.contains_key(k) && retrying[k].0.trial_id == trial
}

/// A tuner that retries failed observations.
#[derive(Debug)]
pub struct RetryTuner<T> {
    tuner: T,
    max_retries: usize,
    actions: ActionQueue,
    retryings: HashMap<u64, FailedObservation>,
}

impl<T> RetryTuner<T> {
    /// The wrapped tuner.
    pub closed spec fn inner(&self) -> T {
        self.tuner
    }

    /// How often a trial is run again before its failure is reported.
    pub closed spec fn max_retries(&self) -> usize {
        self.max_retries
    }

    /// The actions of this tuner that wait to be taken.
    pub closed spec fn pending(&self) -> Seq<Action> {
        self.actions@
    }

    /// The trials under retry.
    pub closed spec fn retrying(&self) -> Retrying {
        self.retryings@.map_values(|f: FailedObservation| (f.obs@, f.retried_count))
    }

    /// Wraps `tuner`; nothing is under retry and nothing waits.
    pub fn new(tuner: T, max_retries: usize) -> (r: Self)
        ensures
            r.inner() == tuner,
            r.max_retries() == max_retries,
            r.pending() == Seq::<Action>::empty(),
            r.retrying() == Map::<u64, (ObservationView, usize)>::empty(),
    {
        let r = Self { tuner, max_retries, actions: ActionQueue::new(), retryings: HashMap::new() };
        assert(r.retrying() =~= Map::<u64, (ObservationView, usize)>::empty());
        r
    }
}

impl<T: Tune> Tune for RetryTuner<T> {
    /// For a trial under retry the answer is the value that the first
    /// attempt was given under that name, and a name it never asked for is
    /// an error; the tuner stays as it is. For any other trial the wrapped
    /// tuner is asked.
    open spec fn ask_spec(
        &self,
        obs: ObservationView,
        name: Seq<char>,
        ty: ParamTypeView,
        r: Result<Asked, Error>,
        post: &Self,
    ) -> bool {
        &&& post.max_retries() == self.max_retries()
        &&& post.pending() == self.pending()
        &&& post.retrying() == self.retrying()
        &&& if self.retrying().contains_key(obs.trial_id.0) {
            &&& post.inner() == self.inner()
            &&& match lookup(self.retrying()[obs.trial_id.0].0.params, name) {
                Some(p) => r == Ok::<Asked, Error>(Asked::Value(p.value)),
                None => r == Err::<Asked, Error>(Error::RetryMismatch),
            }
        } else {
            self.inner().ask_spec(obs, name, ty, r, &post.inner())
        }
    }

    /// A success is passed on to the wrapped tuner, merged into the first
    /// failed attempt of its trial if there was one, and the trial is no
    /// longer under retry. A failure is answered by one more attempt while
    /// retries are left; once they are used up the first failed attempt is
    /// passed on and the trial is no longer under retry.
    open spec fn tell_spec(&self, obs: ObservationView, failure: Option<Error>, post: &Self) -> bool {
        let tid = obs.trial_id.0;
        let known = self.retrying().contains_key(tid);
        let first = if known {
            self.retrying()[tid].0
        } else {
            obs
        };
        let count = if known {
            self.retrying()[tid].1
        } else {
            0
        };
        &&& post.max_retries() == self.max_retries()
        &&& if obs.succeeded() {
            &&& post.pending() == self.pending()
            &&& post.retrying() == self.retrying().remove(tid)
            &&& self.inner().tell_spec(
                if known {
                    merged(first, obs)
                } else {
                    obs
                },
                failure,
                &post.inner(),
            )
        } else if count < self.max_retries() {
            &&& failure is None
            &&& post.inner() == self.inner()
            &&& post.pending() == self.pending().push(Action::ResumeTrial { trial_id: obs.trial_id })
            &&& post.retrying() == self.retrying().insert(tid, (first, (count + 1) as usize))
        } else {
            &&& post.pending() == self.pending()
            &&& post.retrying() == self.retrying().remove(tid)
            &&& self.inner().tell_spec(first, failure, &post.inner())
        }
    }

    /// The front of this tuner's queue; when that is empty, whatever the
    /// wrapped tuner says.
    open spec fn next_action_spec(&self, r: Option<Action>, post: &Self) -> bool {
        &&& post.max_retries() == self.max_retries()
        &&& post.retrying() == self.retrying()
        &&& if self.pending().len() > 0 {
            &&& r == Some(self.pending()[0])
            &&& post.pending() == self.pending().drop_first()
            &&& post.inner() == self.inner()
        } else {
            &&& post.pending() == self.pending()
            &&& self.inner().next_action_spec(r, &post.inner())
        }
    }

    /// The trials of the actions that wait, the trials of the first
    /// failed attempts under retry, and what the wrapped tuner may name.
    open spec fn may_name(&self, trial: TrialId) -> bool {
        ||| queue_names(self.pending(), trial)
        ||| under_retry(self.retrying(), trial)
        ||| self.inner().may_name(trial)
    }

    fn ask(&mut self, obs: &Observation, param_name: &ParamName, param_type: &ParamType) -> (r:
        Result<Asked, Error>) {
        match self.retryings.get(&obs.trial_id.0) {
            Some(failed) => {
                proof {
                    assert(self.retrying()[obs.trial_id.0].0 == failed.obs@);
                    crate::trial::lemma_param_views(failed.obs.params@, param_name.0@, arbitrary());
                }
                match failed.obs.params.get(param_name.get()) {
                    Some(p) => Ok(Asked::Value(p.value.duplicate())),
                    None => Err(Error::RetryMismatch),
                }
            },
            None => self.tuner.ask(obs, param_name, param_type),
        }
    }

    fn tell(&mut self, obs: &Observation) -> (r: Result<(), Error>) {
        let tid = obs.trial_id.0;
        let ghost before = self.retrying();
        let ghost waiting = self.pending();
        let taken = self.retryings.remove(&tid);
        proof {
            assert(self.retrying() =~= before.remove(tid));
            lemma_names_after_push(waiting, Action::ResumeTrial { trial_id: obs.trial_id });
            assert forall|t: TrialId| under_retry(before.remove(tid), t) implies under_retry(
                before,
                t,
            ) by {
                let k = choose|k: u64| #[trigger]
                    before.remove(tid).contains_key(k) && before.remove(tid)[k].0.trial_id == t;
                assert(before.contains_key(k) && before[k].0.trial_id == t);
            }
            if before.contains_key(tid) {
                assert(under_retry(before, before[tid].0.trial_id));
            }
        }
        if obs.is_succeeded() {
            match taken {
                Some(failed) => {
                    let mut first = failed.obs;
                    let last = obs.duplicate();
                    first.metrics = last.metrics;
                    first.exit_status = last.exit_status;
                    assert(first@ == merged(before[tid].0, obs@));
                    self.tuner.tell(&first)
                },
                None => self.tuner.tell(obs),
            }
        } else {
            let failed = match taken {
                Some(failed) => failed,
                None => FailedObservation { obs: obs.duplicate(), retried_count: 0 },
            };
            if failed.retried_count < self.max_retries {
                let again = FailedObservation {
                    obs: failed.obs,
                    retried_count: failed.retried_count + 1,
                };
                let ghost stored = (again.obs@, again.retried_count);
                self.retryings.insert(tid, again);
                self.actions.enqueue(Action::resume_trial(obs.trial_id));
                proof {
                    assert(self.retrying() =~= before.insert(tid, stored));
                    assert forall|t: TrialId| under_retry(before.insert(tid, stored), t) implies under_retry(
                        before,
                        t,
                    ) || t == obs.trial_id by {
                        let k = choose|k: u64| #[trigger]
                            before.insert(tid, stored).contains_key(k) && before.insert(
                                tid,
                                stored,
                            )[k].0.trial_id == t;
                        if k != tid {
                            assert(before.contains_key(k) && before[k].0.trial_id == t);
                        }
                    }
                }
                Ok(())
            } else {
                self.tuner.tell(&failed.obs)
            }
        }
    }

    fn next_action(&mut self) -> (r: Option<Action>) {
        proof {
            lemma_names_after_take(self.pending());
        }
        match self.actions.next() {
            Some(action) => Some(action),
            None => self.tuner.next_action(),
        }
    }
}

} // verus!
