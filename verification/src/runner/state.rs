//! The model of the supervisor: its state as plain values, the journal of
//! the events it has handed out, and what each of its operations does to
//! both.

use vstd::prelude::*;
use crate::error::Error;
use crate::event::{Event, EventView};
use crate::metric::MetricInstance;
use crate::ordmap::{keys_sorted, lookup, put};
use crate::param::{ParamInstanceView, ParamTypeView, ParamValue};
use crate::runner::tempdir::{TempDirsView, TempKey};
use crate::runner::StudyRunnerOpt;
use crate::trial::{ObservationId, ObservationView, TrialId};
use crate::tuners::{failure_of, Action, Asked, Tune};
use crate::types::{Elapsed, FiniteF64, Scope};

verus! {

/// The observation that an event starts, if it starts one.
pub open spec fn started_obs(e: EventView) -> Option<ObservationId> {
    match e {
        EventView::ObservationStarted { obs_id, .. } => Some(obs_id),
        _ => None,
    }
}

/// The trial that an event starts, if it starts one.
pub open spec fn started_trial(e: EventView) -> Option<TrialId> {
    match e {
        EventView::TrialStarted { trial_id } => Some(trial_id),
        _ => None,
    }
}

/// The observation that an event finishes, if it finishes one.
pub open spec fn finished_obs(e: EventView) -> Option<ObservationId> {
    match e {
        EventView::ObservationFinished { obs, .. } => Some(obs.id),
        _ => None,
    }
}

/// One of the first `end` events of the journal starts observation `id`.
pub open spec fn announced_before(log: Seq<EventView>, id: ObservationId, end: int) -> bool {
    exists|i: int| 0 <= i < end && i < log.len() && #[trigger] started_obs(log[i]) == Some(id)
}

/// Every event that finishes an observation comes behind the event that
/// started it.
pub open spec fn starts_precede(log: Seq<EventView>) -> bool {
    forall|j: int|
        0 <= j < log.len() && (#[trigger] finished_obs(log[j])) is Some ==> announced_before(
            log,
            finished_obs(log[j]).unwrap(),
            j,
        )
}

/// The identifiers of started observations grow strictly along the
/// journal, and so do those of started trials.
pub open spec fn ids_increase(log: Seq<EventView>) -> bool {
    &&& forall|i: int, j: int|
        0 <= i < j < log.len() && (#[trigger] started_obs(log[i])) is Some && (
        #[trigger] started_obs(log[j])) is Some ==> started_obs(log[i]).unwrap().0 < started_obs(
            log[j],
        ).unwrap().0
    &&& forall|i: int, j: int|
        0 <= i < j < log.len() && (#[trigger] started_trial(log[i])) is Some && (
        #[trigger] started_trial(log[j])) is Some ==> started_trial(log[i]).unwrap().0
            < started_trial(log[j]).unwrap().0
}

/// Every identifier that the journal starts lies below the counter it came
/// from.
pub open spec fn ids_below(log: Seq<EventView>, next_obs_id: u64, next_trial_id: u64) -> bool {
    &&& forall|i: int|
        0 <= i < log.len() && (#[trigger] started_obs(log[i])) is Some ==> started_obs(
            log[i],
        ).unwrap().0 < next_obs_id
    &&& forall|i: int|
        0 <= i < log.len() && (#[trigger] started_trial(log[i])) is Some ==> started_trial(
            log[i],
        ).unwrap().0 < next_trial_id
}

/// The trial that an event belongs to, for every event but the one that
/// starts the trial.
pub open spec fn event_trial(e: EventView) -> Option<TrialId> {
    match e {
        EventView::TrialFinished { trial_id } => Some(trial_id),
        EventView::ObservationStarted { trial_id, .. } => Some(trial_id),
        EventView::ObservationFinished { obs, .. } => Some(obs.trial_id),
        _ => None,
    }
}

/// One of the first `end` events of the journal starts trial `id`.
pub open spec fn trial_announced_before(log: Seq<EventView>, id: TrialId, end: int) -> bool {
    exists|i: int| 0 <= i < end && i < log.len() && #[trigger] started_trial(log[i]) == Some(id)
}

/// Trial `id` is started somewhere in the journal.
pub open spec fn trial_announced(log: Seq<EventView>, id: TrialId) -> bool {
    trial_announced_before(log, id, log.len() as int)
}

/// Every event that belongs to a trial comes behind the event that
/// started the trial.
pub open spec fn trials_precede(log: Seq<EventView>) -> bool {
    forall|j: int|
        0 <= j < log.len() && (#[trigger] event_trial(log[j])) is Some ==> trial_announced_before(
            log,
            event_trial(log[j]).unwrap(),
            j,
        )
}

/// What an event adds to the number of observations that have started and
/// not finished: one for a start, minus one for a finish, nothing else.
pub open spec fn weight(e: EventView) -> int {
    match e {
        EventView::ObservationStarted { .. } => 1,
        EventView::ObservationFinished { .. } => -1,
        _ => 0,
    }
}

/// The number of starts of observations in the journal minus the number of
/// finishes.
pub open spec fn open_count(log: Seq<EventView>) -> int
    decreases log.len(),
{
    if log.len() == 0 {
        0
    } else {
        open_count(log.drop_last()) + weight(log.last())
    }
}

/// A fresh observation.
pub open spec fn fresh(obs_id: ObservationId, trial_id: TrialId) -> ObservationView {
    ObservationView {
        id: obs_id,
        trial_id,
        params: Seq::empty(),
        metrics: Seq::empty(),
        exit_status: None,
    }
}

/// The model of the supervisor: its state, and the journal so far.
pub struct StudyState {
    pub workers: usize,
    pub repeat: Option<usize>,
    /// The observations whose workers run.
    pub running: Seq<ObservationView>,
    /// How many observations have finished; the count stops at the
    /// largest number it can hold.
    pub finished: u64,
    pub next_obs_id: u64,
    pub next_trial_id: u64,
    /// The elapsed time of the studies that this one resumes.
    pub elapsed_offset: Elapsed,
    /// The tuner has ended the study.
    pub terminating: bool,
    pub tempdirs: TempDirsView,
    /// Every event handed out so far, in order.
    pub journal: Seq<EventView>,
}

impl StudyState {
    /// The state that a study starts in. The journal opens with the start
    /// of the study and its description.
    pub open spec fn initial(opt: StudyRunnerOpt) -> StudyState {
        StudyState {
            workers: opt.workers,
            repeat: opt.repeat,
            running: Seq::empty(),
            finished: 0,
            next_obs_id: 0,
            next_trial_id: 0,
            elapsed_offset: Elapsed { nanos: 0 },
            terminating: false,
            tempdirs: TempDirsView { study: None, trials: Map::empty(), observations: Map::empty() },
            journal: seq![EventView::StudyStarted, EventView::StudyDefined { spec: opt.study@ }],
        }
    }

    /// Whether observation `id` is running.
    pub open spec fn has(self, id: ObservationId) -> bool {
        exists|i: int| 0 <= i < self.running.len() && (#[trigger] self.running[i]).id == id
    }

    /// Where among the running observations `id` is found.
    pub open spec fn position(self, id: ObservationId) -> int {
        choose|i: int| 0 <= i < self.running.len() && (#[trigger] self.running[i]).id == id
    }

    /// No two running observations share an identifier.
    pub open spec fn distinct(self) -> bool {
        forall|i: int, j: int|
            0 <= i < j < self.running.len() ==> (#[trigger] self.running[i]).id != (
            #[trigger] self.running[j]).id
    }

    /// Every running observation was started by an event of the journal.
    pub open spec fn running_announced(self) -> bool {
        forall|k: int|
            0 <= k < self.running.len() ==> announced_before(
                self.journal,
                (#[trigger] self.running[k]).id,
                self.journal.len() as int,
            )
    }

    /// The parameters and the metrics of every running observation are in
    /// the order of their names.
    pub open spec fn sorted(self) -> bool {
        forall|k: int|
            0 <= k < self.running.len() ==> keys_sorted((#[trigger] self.running[k]).params)
                && keys_sorted(self.running[k].metrics)
    }

    /// The events of every trial come behind the start of the trial, and
    /// the trial of every running observation has been started. This holds
    /// as long as the tuner asks to resume and to finish started trials
    /// only.
    pub open spec fn trials_known(self) -> bool {
        &&& trials_precede(self.journal)
        &&& forall|k: int|
            0 <= k < self.running.len() ==> trial_announced(
                self.journal,
                (#[trigger] self.running[k]).trial_id,
            )
    }

    /// The events of every trial come behind the start of the trial, and
    /// `tuner` names started trials only.
    pub open spec fn orderly<T: Tune>(self, tuner: T) -> bool {
        &&& self.trials_known()
        &&& forall|t: TrialId| #[trigger] tuner.may_name(t) ==> trial_announced(self.journal, t)
    }

    /// Every start in the journal is matched by a finish or by a running
    /// observation, and at no point of the journal were more observations
    /// started and not finished than there are workers. This holds as long
    /// as nothing is taken over from an earlier journal and the tuner
    /// refuses no observation that it is told.
    pub open spec fn paired(self) -> bool {
        &&& open_count(self.journal) == self.running.len()
        &&& forall|n: int|
            0 <= n <= self.journal.len() ==> #[trigger] open_count(self.journal.take(n))
                <= self.workers
    }

    /// What always holds of a supervisor.
    pub open spec fn wf(self) -> bool {
        &&& self.workers > 0
        &&& self.running.len() <= self.workers
        &&& self.distinct()
        &&& self.sorted()
        &&& self.running_announced()
        &&& starts_precede(self.journal)
        &&& ids_increase(self.journal)
        &&& ids_below(self.journal, self.next_obs_id, self.next_trial_id)
    }

    /// No observation can be started now: all workers are busy, or the
    /// study is ending.
    pub open spec fn idle(self) -> bool {
        self.running.len() >= self.workers || self.terminating
    }

    /// The study is over: enough observations have finished, or the tuner
    /// has ended it and no worker is left.
    pub open spec fn over(self) -> bool {
        ||| (self.repeat matches Some(n) && self.finished >= n)
        ||| (self.terminating && self.running.len() == 0)
    }

    /// Whether following `action` starts an observation.
    pub open spec fn starts(action: Option<Action>) -> bool {
        action is None || action->0 is ResumeTrial
    }

    /// Identifiers and elapsed time have room for one more observation at
    /// time `now`.
    pub open spec fn has_room(self, now: Elapsed) -> bool {
        &&& self.next_obs_id < u64::MAX
        &&& self.next_trial_id < u64::MAX
        &&& self.elapsed_offset.nanos + now.nanos <= u128::MAX
    }

    /// Whether `elapsed` can be added to the elapsed time of earlier
    /// studies.
    pub open spec fn fits(self, elapsed: Elapsed) -> bool {
        self.elapsed_offset.nanos + elapsed.nanos <= u128::MAX
    }

    /// The time of an event at `now`: the offset of resumed studies added.
    pub open spec fn at(self, now: Elapsed) -> Elapsed {
        Elapsed { nanos: (self.elapsed_offset.nanos + now.nanos) as u128 }
    }

    /// The count of finished observations after one more.
    pub open spec fn counted(self) -> u64 {
        if self.finished < u64::MAX {
            (self.finished + 1) as u64
        } else {
            self.finished
        }
    }

    /// The state after an observation was started, for a new trial where
    /// `trial` is none.
    pub open spec fn start(self, trial: Option<TrialId>, now: Elapsed) -> StudyState {
        let obs_id = ObservationId(self.next_obs_id);
        let started = EventView::ObservationStarted {
            obs_id,
            trial_id: match trial {
                Some(t) => t,
                None => TrialId(self.next_trial_id),
            },
            elapsed: self.at(now),
        };
        match trial {
            Some(t) => StudyState {
                running: self.running.push(fresh(obs_id, t)),
                next_obs_id: (self.next_obs_id + 1) as u64,
                journal: self.journal.push(started),
                ..self
            },
            None => StudyState {
                running: self.running.push(fresh(obs_id, TrialId(self.next_trial_id))),
                next_obs_id: (self.next_obs_id + 1) as u64,
                next_trial_id: (self.next_trial_id + 1) as u64,
                journal: self.journal.push(
                    EventView::TrialStarted { trial_id: TrialId(self.next_trial_id) },
                ).push(started),
                ..self
            },
        }
    }

    /// The state after a trial was closed.
    pub open spec fn finish_trial(self, trial_id: TrialId) -> StudyState {
        StudyState {
            tempdirs: self.tempdirs.remove(TempKey::Trial(trial_id)),
            journal: self.journal.push(EventView::TrialFinished { trial_id }),
            ..self
        }
    }

    /// The state after the tuner's answer `action` was followed at `now`.
    pub open spec fn follow(self, action: Option<Action>, now: Elapsed) -> StudyState {
        match action {
            None => self.start(None, now),
            Some(Action::ResumeTrial { trial_id }) => self.start(Some(trial_id), now),
            Some(Action::FinishTrial { trial_id }) => self.finish_trial(trial_id),
            Some(Action::WaitObservations) => self,
            Some(Action::QuitOptimization) => StudyState { terminating: true, ..self },
        }
    }

    /// The state after the running observation at `i` was given a parameter.
    pub open spec fn bind(self, i: int, name: Seq<char>, instance: ParamInstanceView) -> StudyState {
        let obs = self.running[i];
        StudyState {
            running: self.running.update(
                i,
                ObservationView { params: put(obs.params, name, instance), ..obs },
            ),
            ..self
        }
    }

    /// The state after the running observation at `i` reported a metric.
    pub open spec fn report(self, i: int, name: Seq<char>, metric: MetricInstance) -> StudyState {
        let obs = self.running[i];
        StudyState {
            running: self.running.update(
                i,
                ObservationView { metrics: put(obs.metrics, name, metric), ..obs },
            ),
            ..self
        }
    }

    /// The running observation at `i` as it ends with `exit_status`.
    pub open spec fn ended(self, i: int, exit_status: Option<i32>) -> ObservationView {
        ObservationView { exit_status, ..self.running[i] }
    }

    /// The state after the worker of the running observation at `i` was
    /// found to have ended; `written` says whether the event of its end was
    /// handed out.
    pub open spec fn reap(self, i: int, exit_status: Option<i32>, now: Elapsed, written: bool)
        -> StudyState {
        StudyState {
            running: self.running.remove(i),
            finished: self.counted(),
            tempdirs: self.tempdirs.remove(TempKey::Observation(self.running[i].id)),
            journal: if written {
                self.journal.push(
                    EventView::ObservationFinished {
                        obs: self.ended(i, exit_status),
                        elapsed: self.at(now),
                    },
                )
            } else {
                self.journal
            },
            ..self
        }
    }

    /// The key of the temporary directory that a request for `scope` by
    /// observation `id` is about; none where the scope is a trial and the
    /// observation does not run.
    pub open spec fn key_of(self, scope: Scope, id: ObservationId) -> Option<TempKey> {
        match scope {
            Scope::Study => Some(TempKey::Study),
            Scope::Observation => Some(TempKey::Observation(id)),
            Scope::Trial => if self.has(id) {
                Some(TempKey::Trial(self.running[self.position(id)].trial_id))
            } else {
                None
            },
        }
    }

    /// What a request for a parameter does: the answer `r` and the state
    /// and the tuner after it.
    pub open spec fn asked<T: Tune>(
        self,
        tuner: T,
        id: ObservationId,
        name: Seq<char>,
        ty: ParamTypeView,
        r: Result<Asked, Error>,
        after: StudyState,
        tuner_after: T,
    ) -> bool {
        if !self.has(id) {
            r == Err::<Asked, Error>(Error::UnknownObservation(id.0)) && after == self && tuner_after
                == tuner
        } else {
            let i = self.position(id);
            let obs = self.running[i];
            match lookup(obs.params, name) {
                Some(p) => r == Ok::<Asked, Error>(Asked::Value(p.value)) && after == self
                    && tuner_after == tuner,
                None => tuner.ask_spec(obs, name, ty, r, &tuner_after) && after == match r {
                    Ok(Asked::Value(v)) => self.bind(i, name, ParamInstanceView { ty, value: v }),
                    _ => self,
                },
            }
        }
    }

    /// What a drawn value for a parameter does: the answer `r` and the
    /// state after it.
    pub open spec fn sampled(
        self,
        id: ObservationId,
        name: Seq<char>,
        ty: ParamTypeView,
        value: FiniteF64,
        r: Result<ParamValue, Error>,
        after: StudyState,
    ) -> bool {
        if !self.has(id) {
            r == Err::<ParamValue, Error>(Error::UnknownObservation(id.0)) && after == self
        } else {
            let i = self.position(id);
            match lookup(self.running[i].params, name) {
                Some(p) => r == Ok::<ParamValue, Error>(p.value) && after == self,
                None => if ty is Num {
                    r == Ok::<ParamValue, Error>(ParamValue::Num(value)) && after == self.bind(
                        i,
                        name,
                        ParamInstanceView { ty, value: ParamValue::Num(value) },
                    )
                } else {
                    r == Err::<ParamValue, Error>(Error::UnexpectedSample) && after == self
                },
            }
        }
    }

    /// What the end of a worker does: the result `r` and the state and the
    /// tuner after it.
    pub open spec fn reaped<T: Tune>(
        self,
        tuner: T,
        id: ObservationId,
        exit_status: Option<i32>,
        now: Elapsed,
        r: Result<Event, Error>,
        after: StudyState,
        tuner_after: T,
    ) -> bool {
        if !self.has(id) {
            r == Err::<Event, Error>(Error::UnknownObservation(id.0)) && after == self && tuner_after
                == tuner
        } else {
            let i = self.position(id);
            let obs = self.ended(i, exit_status);
            &&& tuner.tell_spec(obs, failure_of(r), &tuner_after)
            &&& after == self.reap(i, exit_status, now, r is Ok)
            &&& r matches Ok(event) ==> event@ == (EventView::ObservationFinished {
                obs,
                elapsed: self.at(now),
            })
        }
    }

    /// The state with both counters raised to at least the given values.
    pub open spec fn skip_ids(self, trial_floor: u64, obs_floor: u64) -> StudyState {
        StudyState {
            next_trial_id: if self.next_trial_id < trial_floor {
                trial_floor
            } else {
                self.next_trial_id
            },
            next_obs_id: if self.next_obs_id < obs_floor {
                obs_floor
            } else {
                self.next_obs_id
            },
            ..self
        }
    }

    /// The state with `by` added to the elapsed time of earlier studies.
    pub open spec fn shift(self, by: Elapsed) -> StudyState {
        StudyState { elapsed_offset: self.at(by), ..self }
    }

    /// The state after a trial of an earlier journal was taken over under
    /// a new identifier.
    pub open spec fn replay_trial(self) -> StudyState {
        StudyState {
            next_trial_id: (self.next_trial_id + 1) as u64,
            journal: self.journal.push(
                EventView::TrialStarted { trial_id: TrialId(self.next_trial_id) },
            ),
            ..self
        }
    }

    /// The state after the start of an observation of an earlier journal
    /// was taken over under a new identifier.
    pub open spec fn replay_start(self, trial_id: TrialId, elapsed: Elapsed) -> StudyState {
        StudyState {
            next_obs_id: (self.next_obs_id + 1) as u64,
            journal: self.journal.push(
                EventView::ObservationStarted {
                    obs_id: ObservationId(self.next_obs_id),
                    trial_id,
                    elapsed: self.at(elapsed),
                },
            ),
            ..self
        }
    }

    /// The state after the end of an observation of an earlier journal was
    /// taken over.
    pub open spec fn replay_finish(self, obs: ObservationView, elapsed: Elapsed) -> StudyState {
        StudyState {
            finished: self.counted(),
            journal: self.journal.push(
                EventView::ObservationFinished { obs, elapsed: self.at(elapsed) },
            ),
            ..self
        }
    }

    /// What taking over the end of an observation does: the result `r` and
    /// the state and the tuner after it. The tuner is told; where it
    /// fails, nothing else happens.
    pub open spec fn replayed_finish<T: Tune>(
        self,
        tuner: T,
        obs: ObservationView,
        elapsed: Elapsed,
        r: Result<Event, Error>,
        after: StudyState,
        tuner_after: T,
    ) -> bool {
        &&& tuner.tell_spec(obs, failure_of(r), &tuner_after)
        &&& match r {
            Ok(event) => after == self.replay_finish(obs, elapsed) && event@ == (
            EventView::ObservationFinished { obs, elapsed: self.at(elapsed) }),
            Err(_) => after == self,
        }
    }
}

} // verus!
