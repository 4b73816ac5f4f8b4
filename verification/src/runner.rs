//! The study supervisor: the decisions of the event loop that runs a study.
//!
//! The supervisor owns the state of a study: the observations that are
//! running, the counters that identifiers come from, the tuner, the
//! temporary directories. It does no input or output itself. Each of its
//! operations takes what happened (a tick of the scheduler, a request of a
//! worker, the exit of a worker), changes the state, and says what has to be
//! done: which events to write, which worker to start or stop.
//!
//! Besides its state the supervisor keeps, for proofs only, the journal of
//! all events it has handed out so far. Its invariant speaks of that
//! journal.

use vstd::prelude::*;
use crate::error::Error;
use crate::event::{Event, EventView};
use crate::metric::MetricInstance;
use crate::ordmap::{lemma_put_sorted, put};
use crate::param::{ParamInstance, ParamType, ParamValue};
use crate::rpc::{AskReq, MktempReq, TellReq};
use crate::runner::proofs::{
    lemma_follow_journal, lemma_orderly_step, lemma_paired_push, lemma_paired_start,
    lemma_trials_kept, lemma_trials_push, lemma_trials_reap, lemma_trials_start, lemma_wf_push,
    lemma_wf_reap, lemma_wf_skip, lemma_wf_start, lemma_wf_update,
};
use crate::runner::state::{
    announced_before, event_trial, finished_obs, started_obs, started_trial, trial_announced,
    StudyState,
};
use crate::runner::tempdir::{Handles, TempDirs, TempKey};
use crate::study::StudySpec;
use crate::trial::{lemma_param_views, Observation, ObservationId, ObservationView, TrialId};
use crate::tuners::{answer_names, Action, Asked, Tune, Tuner};
use crate::types::{Elapsed, FiniteF64, Scope};

pub mod loader;
pub mod proofs;
pub mod state;
pub mod tempdir;

verus! {

/// What a study is run with.
#[derive(Debug)]
pub struct StudyRunnerOpt {
    pub study: StudySpec,
    /// How many workers may run at the same time; at least one.
    pub workers: usize,
    /// After how many finished observations the study ends; none means it
    /// ends only when the tuner says so.
    pub repeat: Option<usize>,
}

/// What the scheduler decided.
#[derive(Debug)]
pub enum Scheduled {
    /// All workers are busy or the study is ending: the tuner was not
    /// asked.
    Full,
    /// An observation begins. Write `TrialStarted` where the trial is new,
    /// then `ObservationStarted`, then start the worker.
    Start { obs_id: ObservationId, trial_id: TrialId, new_trial: bool, elapsed: Elapsed },
    /// A trial is closed and its temporary directory given up. Write
    /// `TrialFinished`.
    Finish { trial_id: TrialId },
    /// The tuner wants nothing started until an observation has finished.
    Wait,
    /// The tuner ends the study. Stop the workers of the observations
    /// listed, which are all that run.
    Quit { kill: Vec<ObservationId> },
}

/// The identifiers of observations.
pub open spec fn ids_of(running: Seq<ObservationView>) -> Seq<ObservationId> {
    running.map_values(|o: ObservationView| o.id)
}

impl Scheduled {
    /// The answer of the tuner that a decision other than `Full` follows
    /// from.
    pub open spec fn action(self) -> Option<Action> {
        match self {
            Scheduled::Start { trial_id, new_trial, .. } => if new_trial {
                None
            } else {
                Some(Action::ResumeTrial { trial_id })
            },
            Scheduled::Finish { trial_id } => Some(Action::FinishTrial { trial_id }),
            Scheduled::Wait => Some(Action::WaitObservations),
            Scheduled::Quit { .. } => Some(Action::QuitOptimization),
            Scheduled::Full => None,
        }
    }

    /// Whether this is what follows from the tuner's answer `action` in
    /// state `before` at time `now`.
    pub open spec fn answers(self, before: StudyState, action: Option<Action>, now: Elapsed) -> bool {
        match action {
            None => self == (Scheduled::Start {
                obs_id: ObservationId(before.next_obs_id),
                trial_id: TrialId(before.next_trial_id),
                new_trial: true,
                elapsed: before.at(now),
            }),
            Some(Action::ResumeTrial { trial_id }) => self == (Scheduled::Start {
                obs_id: ObservationId(before.next_obs_id),
                trial_id,
                new_trial: false,
                elapsed: before.at(now),
            }),
            Some(Action::FinishTrial { trial_id }) => self == (Scheduled::Finish { trial_id }),
            Some(Action::WaitObservations) => self is Wait,
            Some(Action::QuitOptimization) => self matches Scheduled::Quit { kill } && kill@
                == ids_of(before.running),
        }
    }

    /// The events that the decision asks to be written.
    pub open spec fn event_views(self) -> Seq<EventView> {
        match self {
            Scheduled::Start { obs_id, trial_id, new_trial, elapsed } => {
                let started = EventView::ObservationStarted { obs_id, trial_id, elapsed };
                if new_trial {
                    seq![EventView::TrialStarted { trial_id }, started]
                } else {
                    seq![started]
                }
            },
            Scheduled::Finish { trial_id } => seq![EventView::TrialFinished { trial_id }],
            _ => Seq::empty(),
        }
    }

    /// The events that the decision asks to be written, in order.
    pub fn events(&self) -> (r: Vec<Event>)
        ensures
            crate::event::event_views(r@) == self.event_views(),
    {
        let mut out: Vec<Event> = Vec::new();
        match self {
            Scheduled::Start { obs_id, trial_id, new_trial, elapsed } => {
                if *new_trial {
                    out.push(Event::trial_started(*trial_id));
                }
                out.push(Event::observation_started(*obs_id, *trial_id, *elapsed));
            },
            Scheduled::Finish { trial_id } => {
                out.push(Event::trial_finished(*trial_id));
            },
            _ => {},
        }
        assert(crate::event::event_views(out@) =~= self.event_views());
        out
    }

    /// Whether the scheduler should be run again in this tick.
    pub fn again(&self) -> (r: bool)
        ensures
            r == (self is Start || self is Finish),
    {
        match self {
            Scheduled::Start { .. } => true,
            Scheduled::Finish { .. } => true,
            _ => false,
        }
    }
}

/// The handles of temporary directories after the tuner's answer `action`
/// was followed: closing a trial gives up the handle of its directory, and
/// nothing else touches a handle.
pub open spec fn handles_after<H>(handles: Handles<H>, action: Option<Action>) -> Handles<H> {
    match action {
        Some(Action::FinishTrial { trial_id }) => handles.remove(TempKey::Trial(trial_id)),
        _ => handles,
    }
}

/// What the supervisor answers to a request for a temporary directory.
#[derive(Debug)]
pub enum MktempReply {
    /// The directory exists; this is its path.
    Existing(String),
    /// There is none yet: make one and hand it over under this key.
    Create(TempKey),
}

/// The supervisor of a study, over a tuner of type `T` and handles of
/// temporary directories of type `H`.
pub struct StudyRunner<T, H> {
    opt: StudyRunnerOpt,
    tuner: T,
    tempdirs: TempDirs<H>,
    runnings: Vec<Observation>,
    finished_observations: u64,
    next_obs_id: ObservationId,
    next_trial_id: TrialId,
    elapsed_offset: Elapsed,
    terminating: bool,
    journal: Ghost<Seq<EventView>>,
}

/// The models of running observations.
pub open spec fn running_views(running: Seq<Observation>) -> Seq<ObservationView> {
    running.map_values(|o: Observation| o@)
}

impl<T, H> View for StudyRunner<T, H> {
    type V = StudyState;

    closed spec fn view(&self) -> StudyState {
        StudyState {
            workers: self.opt.workers,
            repeat: self.opt.repeat,
            running: running_views(self.runnings@),
            finished: self.finished_observations,
            next_obs_id: self.next_obs_id.0,
            next_trial_id: self.next_trial_id.0,
            elapsed_offset: self.elapsed_offset,
            terminating: self.terminating,
            tempdirs: self.tempdirs@,
            journal: self.journal@,
        }
    }
}

impl<H> StudyRunner<Tuner, H> {
    /// A supervisor for the study that `opt` describes, with the tuner that
    /// the study's description asks for, and the two events that open its
    /// journal.
    pub fn new(opt: StudyRunnerOpt) -> (r: Result<(Self, Vec<Event>), Error>)
        ensures
            opt.workers == 0 ==> r is Err && r->Err_0 == Error::ZeroWorkers,
            opt.workers > 0 ==> r is Ok && r->Ok_0.0@ == StudyState::initial(opt)
                && opt.study.tuner.builds(r->Ok_0.0.tuner()) && r->Ok_0.0.wf()
                && r->Ok_0.0.orderly() && crate::event::event_views(r->Ok_0.1@)
                == StudyState::initial(opt).journal && r->Ok_0.0.handles() == Handles::<
                H,
            >::empty() && r->Ok_0.0@.paired(),
    {
        let tuner = match opt.study.tuner.build() {
            Ok(t) => t,
            Err(e) => {
                return Err(e);
            },
        };
        proof {
            assert forall|t: TrialId| !(#[trigger] tuner.may_name(t)) by {
                opt.study.tuner.lemma_builds_names_nothing(tuner, t);
            }
        }
        Self::with_tuner(opt, tuner)
    }
}

impl<T: Tune, H> StudyRunner<T, H> {
    /// The tuner of the study.
    pub closed spec fn tuner(&self) -> T {
        self.tuner
    }

    /// The handles of the temporary directories kept.
    pub closed spec fn handles(&self) -> Handles<H> {
        self.tempdirs.handles()
    }

    /// What always holds of a supervisor.
    pub open spec fn wf(&self) -> bool {
        self@.wf()
    }

    /// The events of every trial come behind the start of the trial, and
    /// the tuner names started trials only. A supervisor whose tuner names
    /// only trials that it was told of stays this way.
    pub open spec fn orderly(&self) -> bool {
        self@.orderly(self.tuner())
    }

    /// A supervisor for the study that `opt` describes, with `tuner` as
    /// its tuner, and the two events that open its journal.
    pub fn with_tuner(opt: StudyRunnerOpt, tuner: T) -> (r: Result<(Self, Vec<Event>), Error>)
        ensures
            opt.workers == 0 ==> r is Err && r->Err_0 == Error::ZeroWorkers,
            opt.workers > 0 ==> r is Ok && r->Ok_0.0@ == StudyState::initial(opt)
                && r->Ok_0.0.tuner() == tuner && r->Ok_0.0.wf() && crate::event::event_views(
                r->Ok_0.1@,
            ) == StudyState::initial(opt).journal,
            opt.workers > 0 && (forall|t: TrialId| !(#[trigger] tuner.may_name(t)))
                ==> r->Ok_0.0.orderly(),
            opt.workers > 0 ==> r->Ok_0.0.handles() == Handles::<H>::empty(),
            opt.workers > 0 ==> r->Ok_0.0@.paired(),
    {
        if opt.workers == 0 {
            return Err(Error::ZeroWorkers);
        }
        let mut events: Vec<Event> = Vec::new();
        events.push(Event::study_started());
        events.push(Event::study_defined(opt.study.duplicate()));
        let ghost journal = StudyState::initial(opt).journal;
        let runner = Self {
            opt,
            tuner,
            tempdirs: TempDirs::new(),
            runnings: Vec::new(),
            finished_observations: 0,
            next_obs_id: ObservationId::new(0),
            next_trial_id: TrialId::new(0),
            elapsed_offset: Elapsed::zero(),
            terminating: false,
            journal: Ghost(journal),
        };
        proof {
            assert(runner@.running =~= Seq::empty());
            assert(crate::event::event_views(events@) =~= journal);
            assert(started_obs(journal[0]) is None && started_obs(journal[1]) is None);
            assert(started_trial(journal[0]) is None && started_trial(journal[1]) is None);
            assert(finished_obs(journal[0]) is None && finished_obs(journal[1]) is None);
            assert(event_trial(journal[0]) is None && event_trial(journal[1]) is None);
            let opened = StudyState { journal: Seq::empty(), ..runner@ };
            assert(opened.journal.take(0) =~= opened.journal);
            let started = StudyState { journal: opened.journal.push(journal[0]), ..runner@ };
            lemma_paired_push(opened, journal[0], started);
            assert(journal =~= started.journal.push(journal[1]));
            lemma_paired_push(started, journal[1], runner@);
        }
        Ok((runner, events))
    }

    /// Whether the study is over.
    pub fn is_study_finished(&self) -> (r: bool)
        ensures
            r == self@.over(),
    {
        let reached = match self.opt.repeat {
            Some(n) => self.finished_observations >= n as u64,
            None => false,
        };
        reached || (self.terminating && self.runnings.len() == 0)
    }

    /// Whether no observation can be started now: all workers are busy, or
    /// the study is ending.
    pub fn is_idle(&self) -> (r: bool)
        ensures
            r == self@.idle(),
    {
        self.runnings.len() >= self.opt.workers || self.terminating
    }

    /// Whether identifiers and elapsed time have room for one more
    /// observation at time `now`.
    pub fn has_room(&self, now: Elapsed) -> (r: bool)
        ensures
            r == self@.has_room(now),
    {
        self.next_obs_id.get() < u64::MAX && self.next_trial_id.get() < u64::MAX
            && self.elapsed_offset.checked_add(now).is_some()
    }

    /// How many observations run.
    pub fn running(&self) -> (r: usize)
        ensures
            r == self@.running.len(),
    {
        self.runnings.len()
    }

    /// How many observations have finished.
    pub fn finished(&self) -> (r: u64)
        ensures
            r == self@.finished,
    {
        self.finished_observations
    }

    /// The identifier that the next trial will get.
    pub fn next_trial_id(&self) -> (r: TrialId)
        ensures
            r.0 == self@.next_trial_id,
    {
        self.next_trial_id
    }

    /// The identifier that the next observation will get.
    pub fn next_obs_id(&self) -> (r: ObservationId)
        ensures
            r.0 == self@.next_obs_id,
    {
        self.next_obs_id
    }

    /// The elapsed time of the studies that this one resumes.
    pub fn elapsed_offset(&self) -> (r: Elapsed)
        ensures
            r == self@.elapsed_offset,
    {
        self.elapsed_offset
    }

    /// The trial of a running observation.
    pub fn trial_of(&self, id: ObservationId) -> (r: Option<TrialId>)
        requires
            self.wf(),
        ensures
            !self@.has(id) ==> r is None,
            self@.has(id) ==> r == Some(self@.running[self@.position(id)].trial_id),
    {
        match self.locate(id) {
            Some(i) => Some(self.runnings[i].trial_id),
            None => None,
        }
    }

    /// Where among the running observations `id` is found.
    fn locate(&self, id: ObservationId) -> (r: Option<usize>)
        requires
            self.wf(),
        ensures
            !self@.has(id) ==> r is None,
            self@.has(id) ==> (r matches Some(i) && i as int == self@.position(id) && i
                < self.runnings@.len() && self.runnings@[i as int]@ == self@.running[i as int]),
            self@.running.len() == self.runnings@.len(),
    {
        let n = self.runnings.len();
        let mut i: usize = 0;
        while i < n
            invariant
                n == self.runnings@.len(),
                i <= n,
                self.wf(),
                forall|j: int| 0 <= j < i ==> (#[trigger] self@.running[j]).id != id,
            decreases n - i,
        {
            assert(self@.running[i as int] == self.runnings@[i as int]@);
            if self.runnings[i].id.get() == id.get() {
                proof {
                    assert(self@.running[i as int].id == id);
                    let p = self@.position(id);
                    if p < i {
                        assert(self@.running[p].id != self@.running[i as int].id);
                    } else if p > i {
                        assert(self@.running[i as int].id != self@.running[p].id);
                    }
                }
                return Some(i);
            }
            i = i + 1;
        }
        None
    }

    /// Answers a worker that asks for the value of a parameter.
    ///
    /// An observation that does not run is an error. A parameter that the
    /// observation holds already is answered with the value it holds, and
    /// neither the tuner nor the state is touched. Otherwise the tuner is
    /// asked: a value it gives is stored together with the type asked for;
    /// when it wants the value drawn, or fails, nothing is stored.
    pub fn handle_ask(&mut self, req: AskReq) -> (r: Result<Asked, Error>)
        requires
            old(self).wf(),
        ensures
            final(self).wf(),
            old(self)@.paired() ==> final(self)@.paired(),
            final(self).handles() == old(self).handles(),
            old(self).orderly() ==> final(self).orderly(),
            old(self)@.asked(
                old(self).tuner(),
                req.observation_id,
                req.param_name.0@,
                req.param_type@,
                r,
                final(self)@,
                final(self).tuner(),
            ),
    {
        let i = match self.locate(req.observation_id) {
            Some(i) => i,
            None => {
                return Err(Error::UnknownObservation(req.observation_id.get()));
            },
        };
        let ghost before = self@;
        let ghost obs = self@.running[i as int];
        proof {
            lemma_param_views(self.runnings@[i as int].params@, req.param_name.0@, arbitrary());
            assert(obs.params == crate::trial::param_views(self.runnings@[i as int].params@));
        }
        match self.runnings[i].params.get(req.param_name.get()) {
            Some(p) => {
                return Ok(Asked::Value(p.value.duplicate()));
            },
            None => {},
        }
        let asked = self.tuner.ask(&self.runnings[i], &req.param_name, &req.param_type);
        match asked {
            Ok(Asked::Value(value)) => {
                let AskReq { observation_id: _, param_name, param_type } = req;
                let ghost name = param_name.0@;
                let answer = value.duplicate();
                let instance = ParamInstance::new(param_type, value);
                proof {
                    lemma_param_views(self.runnings@[i as int].params@, name, instance);
                    lemma_put_sorted(obs.params, name, instance@);
                    lemma_wf_update(
                        before,
                        i as int,
                        ObservationView { params: put(obs.params, name, instance@), ..obs },
                    );
                }
                self.runnings[i].params.insert(param_name.0, instance);
                proof {
                    assert(self@.running =~= before.bind(i as int, name, instance@).running);
                }
                Ok(Asked::Value(answer))
            },
            other => other,
        }
    }

    /// Takes the value that was drawn for a parameter after the tuner asked
    /// for a draw.
    ///
    /// An observation that does not run is an error. A parameter that the
    /// observation holds already keeps its value, which is the answer. A
    /// value for a parameter that is not a number is an error. Otherwise
    /// the value is stored together with the type asked for. The tuner is
    /// not touched.
    pub fn handle_sample(&mut self, req: AskReq, value: FiniteF64) -> (r: Result<ParamValue, Error>)
        requires
            old(self).wf(),
        ensures
            final(self).wf(),
            old(self)@.paired() ==> final(self)@.paired(),
            final(self).handles() == old(self).handles(),
            old(self).orderly() ==> final(self).orderly(),
            final(self).tuner() == old(self).tuner(),
            old(self)@.sampled(
                req.observation_id,
                req.param_name.0@,
                req.param_type@,
                value,
                r,
                final(self)@,
            ),
    {
        let i = match self.locate(req.observation_id) {
            Some(i) => i,
            None => {
                return Err(Error::UnknownObservation(req.observation_id.get()));
            },
        };
        let ghost before = self@;
        let ghost obs = self@.running[i as int];
        proof {
            lemma_param_views(self.runnings@[i as int].params@, req.param_name.0@, arbitrary());
            assert(obs.params == crate::trial::param_views(self.runnings@[i as int].params@));
        }
        match self.runnings[i].params.get(req.param_name.get()) {
            Some(p) => {
                return Ok(p.value.duplicate());
            },
            None => {},
        }
        let AskReq { observation_id: _, param_name, param_type } = req;
        match &param_type {
            ParamType::Num(_) => {},
            _ => {
                return Err(Error::UnexpectedSample);
            },
        }
        let ghost name = param_name.0@;
        let instance = ParamInstance::new(param_type, ParamValue::Num(value));
        proof {
            lemma_param_views(self.runnings@[i as int].params@, name, instance);
            lemma_put_sorted(obs.params, name, instance@);
            lemma_wf_update(
                before,
                i as int,
                ObservationView { params: put(obs.params, name, instance@), ..obs },
            );
        }
        self.runnings[i].params.insert(param_name.0, instance);
        proof {
            assert(self@.running =~= before.bind(i as int, name, instance@).running);
        }
        Ok(ParamValue::Num(value))
    }

    /// Takes a metric that a worker reports: it is stored under its name,
    /// in place of what was stored there before. An observation that does
    /// not run is an error.
    pub fn handle_tell(&mut self, req: TellReq) -> (r: Result<(), Error>)
        requires
            old(self).wf(),
        ensures
            final(self).wf(),
            old(self)@.paired() ==> final(self)@.paired(),
            final(self).handles() == old(self).handles(),
            old(self).orderly() ==> final(self).orderly(),
            final(self).tuner() == old(self).tuner(),
            !old(self)@.has(req.observation_id) ==> r == Err::<(), Error>(
                Error::UnknownObservation(req.observation_id.0),
            ) && final(self)@ == old(self)@,
            old(self)@.has(req.observation_id) ==> r is Ok && final(self)@ == old(self)@.report(
                old(self)@.position(req.observation_id),
                req.metric_name.0@,
                MetricInstance { ty: req.metric_type, value: req.metric_value },
            ),
    {
        let i = match self.locate(req.observation_id) {
            Some(i) => i,
            None => {
                return Err(Error::UnknownObservation(req.observation_id.get()));
            },
        };
        let ghost before = self@;
        let ghost obs = self@.running[i as int];
        let TellReq { observation_id: _, metric_name, metric_type, metric_value } = req;
        let ghost name = metric_name.0@;
        let metric = MetricInstance::new(metric_type, metric_value);
        proof {
            lemma_put_sorted(obs.metrics, name, metric);
            lemma_wf_update(
                before,
                i as int,
                ObservationView { metrics: put(obs.metrics, name, metric), ..obs },
            );
        }
        self.runnings[i].metrics.insert(metric_name.0, metric);
        proof {
            assert(self@.running =~= before.report(i as int, name, metric).running);
        }
        Ok(())
    }

    /// Answers a worker that asks for a temporary directory: with the path
    /// of the directory where there is one for the scope asked for, with the
    /// key to make one under where there is none. The directory of a trial
    /// is that of the trial of the observation named, which must run.
    pub fn handle_mktemp(&self, req: &MktempReq) -> (r: Result<MktempReply, Error>)
        requires
            self.wf(),
        ensures
            match self@.key_of(req.scope, req.observation_id) {
                None => r == Err::<MktempReply, Error>(
                    Error::UnknownObservation(req.observation_id.0),
                ),
                Some(key) => match self@.tempdirs.path(key) {
                    Some(path) => r == Ok::<MktempReply, Error>(MktempReply::Existing(path)),
                    None => r == Ok::<MktempReply, Error>(MktempReply::Create(key)),
                },
            },
    {
        let key = match req.scope {
            Scope::Study => TempKey::Study,
            Scope::Observation => TempKey::Observation(req.observation_id),
            Scope::Trial => match self.trial_of(req.observation_id) {
                Some(trial_id) => TempKey::Trial(trial_id),
                None => {
                    return Err(Error::UnknownObservation(req.observation_id.get()));
                },
            },
        };
        match self.tempdirs.path(key) {
            Some(path) => Ok(MktempReply::Existing(path)),
            None => Ok(MktempReply::Create(key)),
        }
    }

    /// Takes a temporary directory that was made for `key`. Where there is
    /// one for that key already, that one stays; the path returned is that
    /// of the directory kept.
    pub fn keep_tempdir(&mut self, key: TempKey, path: String, handle: H) -> (r: String)
        requires
            old(self).wf(),
        ensures
            final(self).wf(),
            old(self)@.paired() ==> final(self)@.paired(),
            final(self).handles() == old(self).handles().create(key, handle),
            old(self).orderly() ==> final(self).orderly(),
            final(self).tuner() == old(self).tuner(),
            final(self)@ == (StudyState {
                tempdirs: old(self)@.tempdirs.create(key, path),
                ..old(self)@
            }),
            Some(r) == final(self)@.tempdirs.path(key),
    {
        let kept = self.tempdirs.create(key, path, handle);
        proof {
            if old(self).orderly() {
                lemma_orderly_step(old(self)@, old(self).tuner(), self@, self.tuner());
            }
        }
        kept
    }

    /// The identifiers of the running observations.
    fn running_ids(&self) -> (r: Vec<ObservationId>)
        ensures
            r@ == ids_of(self@.running),
    {
        let mut out: Vec<ObservationId> = Vec::new();
        let n = self.runnings.len();
        let mut i: usize = 0;
        while i < n
            invariant
                n == self.runnings@.len(),
                i <= n,
                out@ == ids_of(self@.running).take(i as int),
            decreases n - i,
        {
            out.push(self.runnings[i].id);
            proof {
                assert(out@ =~= ids_of(self@.running).take(i + 1));
            }
            i = i + 1;
        }
        proof {
            assert(ids_of(self@.running).take(n as int) =~= ids_of(self@.running));
        }
        out
    }

    /// Starts an observation of `trial`, or of a new trial where `trial` is
    /// none.
    fn start(&mut self, trial: Option<TrialId>, now: Elapsed) -> (r: Scheduled)
        requires
            old(self).wf(),
            old(self)@.has_room(now),
            !old(self)@.idle(),
        ensures
            final(self).wf(),
            old(self)@.paired() ==> final(self)@.paired(),
            final(self).handles() == old(self).handles(),
            old(self)@.trials_known() && (trial matches Some(t) ==> trial_announced(
                old(self)@.journal,
                t,
            )) ==> final(self)@.trials_known(),
            forall|id: TrialId|
                trial_announced(old(self)@.journal, id) ==> trial_announced(
                    final(self)@.journal,
                    id,
                ),
            final(self).tuner() == old(self).tuner(),
            final(self)@ == old(self)@.start(trial, now),
            r.answers(
                old(self)@,
                match trial {
                    Some(trial_id) => Some(Action::ResumeTrial { trial_id }),
                    None => None,
                },
                now,
            ),
    {
        let ghost before = self@;
        proof {
            lemma_wf_start(before, trial, now);
        }
        let elapsed = match self.elapsed_offset.checked_add(now) {
            Some(e) => e,
            None => now,
        };
        let obs_id = self.next_obs_id.fetch_and_increment();
        let (trial_id, new_trial) = match trial {
            Some(t) => (t, false),
            None => (self.next_trial_id.fetch_and_increment(), true),
        };
        self.runnings.push(Observation::new(obs_id, trial_id));
        proof {
            let started = EventView::ObservationStarted { obs_id, trial_id, elapsed };
            if new_trial {
                self.journal@ = self.journal@.push(EventView::TrialStarted { trial_id }).push(
                    started,
                );
            } else {
                self.journal@ = self.journal@.push(started);
            }
            assert(self@.running =~= before.start(trial, now).running);
            assert(self@.journal.take(before.journal.len() as int) =~= before.journal);
            lemma_trials_kept(before.journal, self@.journal);
            if before.trials_known() && (trial matches Some(t) ==> trial_announced(
                before.journal,
                t,
            )) {
                lemma_trials_start(before, trial, now);
            }
            if before.paired() {
                lemma_paired_start(before, trial, now);
            }
        }
        Scheduled::Start { obs_id, trial_id, new_trial, elapsed }
    }

    /// Does what the tuner's answer `action` asks for at time `now`, and
    /// says what is left to do outside. An observation can be started only
    /// while a worker is free and the study is not ending.
    pub fn follow(&mut self, action: Option<Action>, now: Elapsed) -> (r: Scheduled)
        requires
            old(self).wf(),
            StudyState::starts(action) ==> old(self)@.has_room(now) && !old(self)@.idle(),
        ensures
            final(self).wf(),
            old(self)@.paired() ==> final(self)@.paired(),
            final(self).handles() == handles_after(old(self).handles(), action),
            old(self).orderly() && (forall|t: TrialId| #[trigger]
                answer_names(action, t) ==> trial_announced(old(self)@.journal, t))
                ==> final(self).orderly(),
            final(self).tuner() == old(self).tuner(),
            final(self)@ == old(self)@.follow(action, now),
            r.answers(old(self)@, action, now),
            final(self)@.journal == old(self)@.journal + r.event_views(),
    {
        let ghost before = self@;
        let ghost orderly = old(self).orderly() && (forall|t: TrialId| #[trigger]
            answer_names(action, t) ==> trial_announced(before.journal, t));
        proof {
            lemma_follow_journal(before, action, now);
        }
        let step = match action {
            None => self.start(None, now),
            Some(Action::ResumeTrial { trial_id }) => {
                proof {
                    assert(answer_names(action, trial_id));
                }
                self.start(Some(trial_id), now)
            },
            Some(Action::FinishTrial { trial_id }) => {
                self.tempdirs.remove_trial_tempdir(trial_id);
                proof {
                    let e = EventView::TrialFinished { trial_id };
                    self.journal@ = self.journal@.push(e);
                    lemma_wf_push(before, e, self@);
                    assert(self@.journal.take(before.journal.len() as int) =~= before.journal);
                    lemma_trials_kept(before.journal, self@.journal);
                    if orderly {
                        assert(answer_names(action, trial_id));
                        lemma_trials_push(before, e, self@);
                    }
                    if before.paired() {
                        lemma_paired_push(before, e, self@);
                    }
                }
                Scheduled::Finish { trial_id }
            },
            Some(Action::WaitObservations) => Scheduled::Wait,
            Some(Action::QuitOptimization) => {
                let kill = self.running_ids();
                self.terminating = true;
                Scheduled::Quit { kill }
            },
        };
        proof {
            if orderly {
                lemma_orderly_step(before, old(self).tuner(), self@, self.tuner());
            }
        }
        step
    }

    /// One step of scheduling at time `now`. While a worker is free and the
    /// study is not ending, the tuner is asked for its next action and the
    /// action is followed; otherwise nothing happens.
    pub fn schedule(&mut self, now: Elapsed) -> (r: Scheduled)
        requires
            old(self).wf(),
            !old(self)@.idle() ==> old(self)@.has_room(now),
        ensures
            final(self).wf(),
            old(self)@.paired() ==> final(self)@.paired(),
            final(self).handles() == handles_after(old(self).handles(), r.action()),
            old(self).orderly() ==> final(self).orderly(),
            old(self)@.idle() ==> r is Full && final(self)@ == old(self)@ && final(self).tuner()
                == old(self).tuner(),
            !old(self)@.idle() ==> old(self).tuner().next_action_spec(
                r.action(),
                &final(self).tuner(),
            ) && final(self)@ == old(self)@.follow(r.action(), now) && r.answers(
                old(self)@,
                r.action(),
                now,
            ),
            final(self)@.journal == old(self)@.journal + r.event_views(),
    {
        if self.is_idle() {
            assert(self@.journal + Scheduled::Full.event_views() =~= self@.journal);
            return Scheduled::Full;
        }
        let action = self.tuner.next_action();
        self.follow(action, now)
    }

    /// Takes note that the worker of observation `id` has ended with
    /// `exit_status`, none for a worker that a signal ended.
    ///
    /// An observation that does not run is an error. Otherwise the
    /// observation leaves the running ones with its exit status set, counts
    /// as finished, gives up its temporary directory, and is told to the
    /// tuner. Where the tuner accepts it, the event of its end is the
    /// result; where the tuner fails, the tuner's error is.
    pub fn reap(&mut self, id: ObservationId, exit_status: Option<i32>, now: Elapsed) -> (r: Result<
        Event,
        Error,
    >)
        requires
            old(self).wf(),
            old(self)@.elapsed_offset.nanos + now.nanos <= u128::MAX,
        ensures
            final(self).wf(),
            old(self)@.paired() && (r is Ok || !old(self)@.has(id)) ==> final(self)@.paired(),
            final(self).handles() == if old(self)@.has(id) {
                old(self).handles().remove(TempKey::Observation(id))
            } else {
                old(self).handles()
            },
            old(self).orderly() ==> final(self).orderly(),
            old(self)@.reaped(
                old(self).tuner(),
                id,
                exit_status,
                now,
                r,
                final(self)@,
                final(self).tuner(),
            ),
            match r {
                Ok(event) => final(self)@.journal == old(self)@.journal.push(event@),
                Err(_) => final(self)@.journal == old(self)@.journal,
            },
    {
        let i = match self.locate(id) {
            Some(i) => i,
            None => {
                return Err(Error::UnknownObservation(id.get()));
            },
        };
        let ghost before = self@;
        proof {
            lemma_wf_reap(before, i as int, exit_status, now, true);
            lemma_wf_reap(before, i as int, exit_status, now, false);
            if old(self).orderly() {
                lemma_trials_reap(before, i as int, exit_status, now, true);
                lemma_trials_reap(before, i as int, exit_status, now, false);
            }
        }
        let elapsed = match self.elapsed_offset.checked_add(now) {
            Some(e) => e,
            None => now,
        };
        let mut obs = self.runnings.remove(i);
        obs.exit_status = exit_status;
        if self.finished_observations < u64::MAX {
            self.finished_observations = self.finished_observations + 1;
        }
        self.tempdirs.remove_obs_tempdir(id);
        proof {
            assert(self@.running =~= before.running.remove(i as int));
            assert(obs@ == before.ended(i as int, exit_status));
        }
        match self.tuner.tell(&obs) {
            Ok(_) => {
                proof {
                    let e = EventView::ObservationFinished { obs: obs@, elapsed };
                    self.journal@ = self.journal@.push(e);
                    if old(self).orderly() {
                        lemma_orderly_step(before, old(self).tuner(), self@, self.tuner());
                    }
                    if before.paired() {
                        lemma_paired_push(before, e, self@);
                    }
                }
                Ok(Event::observation_finished(obs, elapsed))
            },
            Err(e) => {
                proof {
                    if old(self).orderly() {
                        lemma_orderly_step(before, old(self).tuner(), self@, self.tuner());
                    }
                }
                Err(e)
            },
        }
    }

    /// Raises both counters to at least the given values.
    pub fn skip_ids(&mut self, trial_floor: u64, obs_floor: u64)
        requires
            old(self).wf(),
        ensures
            final(self).wf(),
            old(self)@.paired() ==> final(self)@.paired(),
            final(self).handles() == old(self).handles(),
            old(self).orderly() ==> final(self).orderly(),
            final(self).tuner() == old(self).tuner(),
            final(self)@ == old(self)@.skip_ids(trial_floor, obs_floor),
    {
        let ghost before = self@;
        if self.next_trial_id.get() < trial_floor {
            self.next_trial_id = TrialId::new(trial_floor);
        }
        if self.next_obs_id.get() < obs_floor {
            self.next_obs_id = ObservationId::new(obs_floor);
        }
        proof {
            lemma_wf_skip(before, self@);
            if old(self).orderly() {
                lemma_orderly_step(before, old(self).tuner(), self@, self.tuner());
            }
        }
    }

    /// Adds `by` to the elapsed time of earlier studies.
    pub fn shift(&mut self, by: Elapsed)
        requires
            old(self).wf(),
            old(self)@.fits(by),
        ensures
            final(self).wf(),
            old(self)@.paired() ==> final(self)@.paired(),
            final(self).handles() == old(self).handles(),
            old(self).orderly() ==> final(self).orderly(),
            final(self).tuner() == old(self).tuner(),
            final(self)@ == old(self)@.shift(by),
    {
        match self.elapsed_offset.checked_add(by) {
            Some(sum) => {
                self.elapsed_offset = sum;
            },
            None => {},
        }
        proof {
            if old(self).orderly() {
                lemma_orderly_step(old(self)@, old(self).tuner(), self@, self.tuner());
            }
        }
    }

    /// Takes over a trial of an earlier journal: it gets the next
    /// identifier, and the event of its start is the result.
    pub fn replay_trial(&mut self) -> (r: Event)
        requires
            old(self).wf(),
            old(self)@.next_trial_id < u64::MAX,
        ensures
            final(self).wf(),
            old(self)@.paired() ==> final(self)@.paired(),
            final(self).handles() == old(self).handles(),
            old(self).orderly() ==> final(self).orderly(),
            trial_announced(final(self)@.journal, TrialId(old(self)@.next_trial_id)),
            final(self).tuner() == old(self).tuner(),
            final(self)@ == old(self)@.replay_trial(),
            r@ == (EventView::TrialStarted { trial_id: TrialId(old(self)@.next_trial_id) }),
    {
        let ghost before = self@;
        let trial_id = self.next_trial_id.fetch_and_increment();
        proof {
            let e = EventView::TrialStarted { trial_id };
            self.journal@ = self.journal@.push(e);
            lemma_wf_push(before, e, self@);
            assert(started_trial(self@.journal[before.journal.len() as int]) == Some(trial_id));
            if before.paired() {
                lemma_paired_push(before, e, self@);
            }
            if old(self).orderly() {
                lemma_trials_push(before, e, self@);
                lemma_orderly_step(before, old(self).tuner(), self@, self.tuner());
            }
        }
        Event::trial_started(trial_id)
    }

    /// Takes over the start of an observation of an earlier journal: it
    /// gets the next identifier, and the event of its start is the result.
    pub fn replay_start(&mut self, trial_id: TrialId, elapsed: Elapsed) -> (r: Event)
        requires
            old(self).wf(),
            old(self)@.next_obs_id < u64::MAX,
            old(self)@.fits(elapsed),
        ensures
            final(self).wf(),
            final(self).handles() == old(self).handles(),
            old(self).orderly() && trial_announced(old(self)@.journal, trial_id)
                ==> final(self).orderly(),
            final(self).tuner() == old(self).tuner(),
            final(self)@ == old(self)@.replay_start(trial_id, elapsed),
            r@ == (EventView::ObservationStarted {
                obs_id: ObservationId(old(self)@.next_obs_id),
                trial_id,
                elapsed: old(self)@.at(elapsed),
            }),
    {
        let ghost before = self@;
        let at = match self.elapsed_offset.checked_add(elapsed) {
            Some(sum) => sum,
            None => elapsed,
        };
        let obs_id = self.next_obs_id.fetch_and_increment();
        proof {
            let e = EventView::ObservationStarted { obs_id, trial_id, elapsed: at };
            self.journal@ = self.journal@.push(e);
            lemma_wf_push(before, e, self@);
            if old(self).orderly() && trial_announced(before.journal, trial_id) {
                lemma_trials_push(before, e, self@);
                lemma_orderly_step(before, old(self).tuner(), self@, self.tuner());
            }
        }
        Event::observation_started(obs_id, trial_id, at)
    }

    /// Takes over the end of an observation of an earlier journal, which
    /// must have been started in this one: the tuner is told, the
    /// observation counts as finished, and the event of its end is the
    /// result. Where the tuner fails, its error is the result and nothing
    /// else happens.
    pub fn replay_finish(&mut self, obs: Observation, elapsed: Elapsed) -> (r: Result<Event, Error>)
        requires
            old(self).wf(),
            old(self)@.fits(elapsed),
            announced_before(old(self)@.journal, obs.id, old(self)@.journal.len() as int),
        ensures
            final(self).wf(),
            final(self).handles() == old(self).handles(),
            old(self).orderly() && trial_announced(old(self)@.journal, obs.trial_id)
                ==> final(self).orderly(),
            old(self)@.replayed_finish(
                old(self).tuner(),
                obs@,
                elapsed,
                r,
                final(self)@,
                final(self).tuner(),
            ),
            match r {
                Ok(event) => final(self)@.journal == old(self)@.journal.push(event@),
                Err(_) => final(self)@.journal == old(self)@.journal,
            },
    {
        let ghost before = self@;
        let at = match self.elapsed_offset.checked_add(elapsed) {
            Some(sum) => sum,
            None => elapsed,
        };
        match self.tuner.tell(&obs) {
            Ok(_) => {
                if self.finished_observations < u64::MAX {
                    self.finished_observations = self.finished_observations + 1;
                }
                proof {
                    let e = EventView::ObservationFinished { obs: obs@, elapsed: at };
                    self.journal@ = self.journal@.push(e);
                    let counted = StudyState { finished: self@.finished, ..before };
                    lemma_wf_push(counted, e, self@);
                    if old(self).orderly() && trial_announced(before.journal, obs.trial_id) {
                        lemma_trials_push(counted, e, self@);
                        lemma_orderly_step(before, old(self).tuner(), self@, self.tuner());
                    }
                }
                Ok(Event::observation_finished(obs, at))
            },
            Err(e) => {
                proof {
                    if old(self).orderly() && trial_announced(before.journal, obs.trial_id) {
                        lemma_orderly_step(before, old(self).tuner(), self@, self.tuner());
                    }
                }
                Err(e)
            },
        }
    }
}

} // verus!
