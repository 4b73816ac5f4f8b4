//! Replaying the journal of an earlier study into a running one.
//!
//! The trials and observations of the earlier journal are taken over under
//! new identifiers, the tuner is told every observation that had
//! finished, and the elapsed time of the earlier study is added to the
//! offset of the running one. The new identifiers lie above all
//! identifiers of the earlier journal and above all that the running
//! study has handed out.

use vstd::prelude::*;
use std::collections::HashMap;
use crate::error::Error;
use crate::event::{event_views, Event, EventView, ObservationEvent, StudyEvent, TrialEvent};
use crate::runner::proofs::lemma_trial_announced_grows;
use crate::runner::state::{announced_before, started_obs, trial_announced, StudyState};
use crate::runner::StudyRunner;
use crate::trial::{ObservationId, ObservationView, TrialId};
use crate::tuners::{failure_of, Tune};
use crate::types::Elapsed;

verus! {

/// The model of a loader: how identifiers of the earlier journal map to
/// new ones, the last elapsed time seen, and whether events are being
/// skipped until the next description of a study.
pub struct LoaderState {
    pub trials: Map<u64, u64>,
    pub observations: Map<u64, u64>,
    pub last_elapsed: Elapsed,
    pub skip: bool,
}

impl LoaderState {
    /// The state that a loader starts in: nothing mapped, no time seen,
    /// skipping.
    pub open spec fn initial() -> LoaderState {
        LoaderState {
            trials: Map::empty(),
            observations: Map::empty(),
            last_elapsed: Elapsed { nanos: 0 },
            skip: true,
        }
    }

    /// The loader after it has seen the elapsed time of `e`, if `e` carries
    /// one.
    pub open spec fn seen(self, e: EventView) -> LoaderState {
        match e.elapsed() {
            Some(elapsed) => LoaderState { last_elapsed: elapsed, ..self },
            None => self,
        }
    }

    /// Every new identifier of an observation, and every new identifier of
    /// a trial, was started in `journal`.
    pub open spec fn announced(self, journal: Seq<EventView>) -> bool {
        &&& forall|orig: u64| #[trigger]
            self.observations.contains_key(orig) ==> announced_before(
                journal,
                ObservationId(self.observations[orig]),
                journal.len() as int,
            )
        &&& forall|orig: u64| #[trigger]
            self.trials.contains_key(orig) ==> trial_announced(
                journal,
                TrialId(self.trials[orig]),
            )
    }

    /// The observation `obs` of the earlier journal under its new
    /// identifiers.
    pub open spec fn translated(self, obs: ObservationView) -> ObservationView {
        ObservationView {
            id: ObservationId(self.observations[obs.id.0]),
            trial_id: TrialId(self.trials[obs.trial_id.0]),
            ..obs
        }
    }

    /// Why `e` cannot be replayed into `study`, if it cannot. The tuner's
    /// refusal of a finished observation is not among the reasons.
    pub open spec fn refusal(self, study: StudyState, e: EventView) -> Option<Error> {
        match e {
            EventView::StudyStarted => if !study.fits(self.last_elapsed) {
                Some(Error::ElapsedOverflow)
            } else {
                None
            },
            EventView::StudyDefined { .. } => None,
            _ => if self.skip {
                None
            } else {
                match e {
                    EventView::TrialStarted { .. } => if study.next_trial_id == u64::MAX {
                        Some(Error::OutOfIds)
                    } else {
                        None
                    },
                    EventView::ObservationStarted { trial_id, elapsed, .. } => if study.next_obs_id
                        == u64::MAX {
                        Some(Error::OutOfIds)
                    } else if !self.trials.contains_key(trial_id.0) {
                        Some(Error::UnknownTrial(trial_id.0))
                    } else if !study.fits(elapsed) {
                        Some(Error::ElapsedOverflow)
                    } else {
                        None
                    },
                    EventView::ObservationFinished { obs, elapsed } => if !self.observations.contains_key(
                        obs.id.0,
                    ) {
                        Some(Error::UnstartedObservation(obs.id.0))
                    } else if !self.trials.contains_key(obs.trial_id.0) {
                        Some(Error::UnknownTrial(obs.trial_id.0))
                    } else if !study.fits(elapsed) {
                        Some(Error::ElapsedOverflow)
                    } else {
                        None
                    },
                    _ => None,
                }
            },
        }
    }

    /// The events that replaying `e` into `study` writes, where it can be
    /// replayed and the tuner accepts it.
    pub open spec fn output(self, study: StudyState, e: EventView) -> Seq<EventView> {
        if self.skip {
            Seq::empty()
        } else {
            match e {
                EventView::TrialStarted { .. } => seq![
                    EventView::TrialStarted { trial_id: TrialId(study.next_trial_id) },
                ],
                EventView::ObservationStarted { trial_id, elapsed, .. } => seq![
                    EventView::ObservationStarted {
                        obs_id: ObservationId(study.next_obs_id),
                        trial_id: TrialId(self.trials[trial_id.0]),
                        elapsed: study.at(elapsed),
                    },
                ],
                EventView::ObservationFinished { obs, elapsed } => seq![
                    EventView::ObservationFinished {
                        obs: self.translated(obs),
                        elapsed: study.at(elapsed),
                    },
                ],
                _ => Seq::empty(),
            }
        }
    }

    /// The study after `e` was replayed into it.
    pub open spec fn study_after(self, study: StudyState, e: EventView) -> StudyState {
        match e {
            EventView::StudyStarted => study.shift(self.last_elapsed),
            EventView::StudyDefined { .. } => study,
            _ => if self.skip {
                study
            } else {
                match e {
                    EventView::TrialStarted { .. } => study.replay_trial(),
                    EventView::ObservationStarted { trial_id, elapsed, .. } => study.replay_start(
                        TrialId(self.trials[trial_id.0]),
                        elapsed,
                    ),
                    EventView::ObservationFinished { obs, elapsed } => study.replay_finish(
                        self.translated(obs),
                        elapsed,
                    ),
                    _ => study,
                }
            },
        }
    }

    /// The loader after `e` was replayed into `study`; `self` has seen the
    /// elapsed time of `e` already.
    pub open spec fn loader_after(self, study: StudyState, e: EventView) -> LoaderState {
        match e {
            EventView::StudyStarted => LoaderState::initial(),
            EventView::StudyDefined { .. } => LoaderState { skip: false, ..self },
            _ => if self.skip {
                self
            } else {
                match e {
                    EventView::TrialStarted { trial_id } => LoaderState {
                        trials: self.trials.insert(trial_id.0, study.next_trial_id),
                        ..self
                    },
                    EventView::ObservationStarted { obs_id, .. } => LoaderState {
                        observations: self.observations.insert(obs_id.0, study.next_obs_id),
                        ..self
                    },
                    _ => self,
                }
            },
        }
    }

    /// Whether replaying `e` tells the tuner an observation.
    pub open spec fn tells(self, e: EventView) -> bool {
        !self.skip && e is ObservationFinished
    }
}

/// What replaying one event does: the result, and study, tuner and loader
/// after it.
///
/// The loader first takes note of the elapsed time of the event. An event
/// that cannot be replayed is an error and changes nothing else. A
/// finished observation is told to the tuner under its new identifiers;
/// where the tuner fails, its error is the result and nothing else
/// changes. Otherwise study and loader move on and the events written are
/// the result; the tuner is touched by a finished observation only.
pub open spec fn replays_one<T: Tune>(
    study: StudyState,
    tuner: T,
    loader: LoaderState,
    e: EventView,
    r: Result<Seq<EventView>, Error>,
    study_after: StudyState,
    tuner_after: T,
    loader_after: LoaderState,
) -> bool {
    let seen = loader.seen(e);
    match seen.refusal(study, e) {
        Some(error) => r == Err::<Seq<EventView>, Error>(error) && study_after == study
            && tuner_after == tuner && loader_after == seen,
        None => {
            &&& if seen.tells(e) {
                tuner.tell_spec(seen.translated(e->ObservationFinished_obs), failure_of(r), &tuner_after)
            } else {
                r is Ok && tuner_after == tuner
            }
            &&& match r {
                Ok(out) => out == seen.output(study, e) && study_after == seen.study_after(study, e)
                    && loader_after == seen.loader_after(study, e),
                Err(_) => study_after == study && loader_after == seen,
            }
        },
    }
}

/// Where a replay stands: the events written so far, and study, tuner and
/// loader as they are.
pub struct Replay<T> {
    pub out: Seq<EventView>,
    pub study: StudyState,
    pub tuner: T,
    pub loader: LoaderState,
}

/// Taking an observation over changes its identifiers and nothing else.
pub proof fn lemma_translated_keeps_values(loader: LoaderState, obs: ObservationView)
    ensures
        loader.translated(obs).params == obs.params,
        loader.translated(obs).metrics == obs.metrics,
        loader.translated(obs).exit_status == obs.exit_status,
        loader.translated(obs).compact().params == obs.compact().params,
        loader.translated(obs).compact().metrics == obs.compact().metrics,
{
}

/// Marks a point that a replay passes through; it holds of every point.
pub open spec fn reached<T>(point: Replay<T>) -> bool {
    true
}

/// What replaying a list of events does when every one of them can be
/// replayed: one event after the other, each from where the one before
/// left study, tuner and loader, and the events written are those of all
/// of them in order.
pub open spec fn replays<T: Tune>(start: Replay<T>, events: Seq<EventView>, end: Replay<T>) -> bool
    decreases events.len(),
{
    if events.len() == 0 {
        end == start
    } else {
        exists|mid: Replay<T>| #[trigger]
            reached(mid) && replays(start, events.drop_last(), mid) && mid.out.len()
                <= end.out.len() && end.out.take(mid.out.len() as int) == mid.out && replays_one(
                mid.study,
                mid.tuner,
                mid.loader,
                events.last(),
                Ok(end.out.skip(mid.out.len() as int)),
                end.study,
                end.tuner,
                end.loader,
            )
    }
}

/// The trial that an event names.
pub open spec fn trial_in(e: EventView) -> Option<TrialId> {
    match e {
        EventView::TrialStarted { trial_id } => Some(trial_id),
        EventView::TrialFinished { trial_id } => Some(trial_id),
        EventView::ObservationStarted { trial_id, .. } => Some(trial_id),
        EventView::ObservationFinished { obs, .. } => Some(obs.trial_id),
        _ => None,
    }
}

/// The smallest identifier above `id`, or the largest there is.
pub open spec fn above(id: u64) -> u64 {
    if id < u64::MAX {
        (id + 1) as u64
    } else {
        id
    }
}

/// The smallest value that lies above every trial that the events name.
pub open spec fn trial_floor(events: Seq<EventView>) -> u64
    decreases events.len(),
{
    if events.len() == 0 {
        0
    } else {
        let rest = trial_floor(events.drop_last());
        match trial_in(events.last()) {
            Some(id) => if rest < above(id.0) {
                above(id.0)
            } else {
                rest
            },
            None => rest,
        }
    }
}

/// The smallest value that lies above every observation that the events
/// name.
pub open spec fn obs_floor(events: Seq<EventView>) -> u64
    decreases events.len(),
{
    if events.len() == 0 {
        0
    } else {
        let rest = obs_floor(events.drop_last());
        match events.last().observation_id() {
            Some(id) => if rest < above(id.0) {
                above(id.0)
            } else {
                rest
            },
            None => rest,
        }
    }
}

fn above_of(id: u64) -> (r: u64)
    ensures
        r == above(id),
{
    if id < u64::MAX {
        id + 1
    } else {
        id
    }
}

/// The two floors of a list of events: of its trials, then of its
/// observations.
pub fn floors(events: &Vec<Event>) -> (r: (u64, u64))
    ensures
        r.0 == trial_floor(event_views(events@)),
        r.1 == obs_floor(event_views(events@)),
{
    let mut trials: u64 = 0;
    let mut observations: u64 = 0;
    let n = events.len();
    let mut i: usize = 0;
    while i < n
        invariant
            n == events@.len(),
            i <= n,
            trials == trial_floor(event_views(events@).take(i as int)),
            observations == obs_floor(event_views(events@).take(i as int)),
        decreases n - i,
    {
        proof {
            let next = event_views(events@).take(i + 1);
            assert(next.drop_last() =~= event_views(events@).take(i as int));
            assert(next.last() == events@[i as int]@);
        }
        match &events[i] {
            Event::Trial(TrialEvent::Started { trial_id }) => {
                let a = above_of(trial_id.get());
                if trials < a {
                    trials = a;
                }
            },
            Event::Trial(TrialEvent::Finished { trial_id }) => {
                let a = above_of(trial_id.get());
                if trials < a {
                    trials = a;
                }
            },
            Event::Observation(ObservationEvent::Started { obs_id, trial_id, .. }) => {
                let a = above_of(trial_id.get());
                if trials < a {
                    trials = a;
                }
                let b = above_of(obs_id.get());
                if observations < b {
                    observations = b;
                }
            },
            Event::Observation(ObservationEvent::Finished { obs, .. }) => {
                let a = above_of(obs.trial_id.get());
                if trials < a {
                    trials = a;
                }
                let b = above_of(obs.id.get());
                if observations < b {
                    observations = b;
                }
            },
            _ => {},
        }
        i = i + 1;
    }
    proof {
        assert(event_views(events@).take(n as int) =~= event_views(events@));
    }
    (trials, observations)
}

/// The loader of an earlier journal.
#[derive(Debug)]
pub struct StudyLoader {
    trial_id_mapping: HashMap<u64, u64>,
    obs_id_mapping: HashMap<u64, u64>,
    last_elapsed: Elapsed,
    skip: bool,
}

impl View for StudyLoader {
    type V = LoaderState;

    closed spec fn view(&self) -> LoaderState {
        LoaderState {
            trials: self.trial_id_mapping@,
            observations: self.obs_id_mapping@,
            last_elapsed: self.last_elapsed,
            skip: self.skip,
        }
    }
}

impl StudyLoader {
    /// A loader that has seen nothing.
    pub fn new() -> (r: Self)
        ensures
            r@ == LoaderState::initial(),
    {
        Self {
            trial_id_mapping: HashMap::new(),
            obs_id_mapping: HashMap::new(),
            last_elapsed: Elapsed::zero(),
            skip: true,
        }
    }

    /// Replays one event of the earlier journal into `runner` and hands
    /// back the events to write.
    pub fn handle_event<T: Tune, H>(&mut self, runner: &mut StudyRunner<T, H>, event: &Event) -> (r:
        Result<Vec<Event>, Error>)
        requires
            old(runner).wf(),
            old(self)@.announced(old(runner)@.journal),
        ensures
            final(runner).wf(),
            final(self)@.announced(final(runner)@.journal),
            old(runner).orderly() ==> final(runner).orderly(),
            final(runner).handles() == old(runner).handles(),
            replays_one(
                old(runner)@,
                old(runner).tuner(),
                old(self)@,
                event@,
                match r {
                    Ok(out) => Ok(event_views(out@)),
                    Err(e) => Err(e),
                },
                final(runner)@,
                final(runner).tuner(),
                final(self)@,
            ),
    {
        let ghost study = runner@;
        let ghost journal = runner@.journal;
        match event.elapsed() {
            Some(elapsed) => {
                self.last_elapsed = elapsed;
            },
            None => {},
        }
        let ghost seen = self@;
        assert(seen == old(self)@.seen(event@));
        let mut out: Vec<Event> = Vec::new();
        assert(event_views(out@) =~= Seq::<EventView>::empty());
        match event {
            Event::Study(StudyEvent::Started) => {
                if runner.elapsed_offset().checked_add(self.last_elapsed).is_none() {
                    return Err(Error::ElapsedOverflow);
                }
                runner.shift(self.last_elapsed);
                self.skip = true;
                self.trial_id_mapping = HashMap::new();
                self.obs_id_mapping = HashMap::new();
                self.last_elapsed = Elapsed::zero();
                assert(self@.trials =~= Map::<u64, u64>::empty());
                assert(self@.observations =~= Map::<u64, u64>::empty());
                Ok(out)
            },
            Event::Study(StudyEvent::Defined { .. }) => {
                self.skip = false;
                Ok(out)
            },
            Event::Trial(TrialEvent::Started { trial_id }) => {
                if self.skip {
                    return Ok(out);
                }
                if runner.next_trial_id().get() == u64::MAX {
                    return Err(Error::OutOfIds);
                }
                let new_id = runner.next_trial_id();
                let written = runner.replay_trial();
                self.trial_id_mapping.insert(trial_id.get(), new_id.get());
                out.push(written);
                proof {
                    assert(event_views(out@) =~= seen.output(study, event@));
                    assert(runner@.journal.take(journal.len() as int) =~= journal);
                    lemma_announced_grows(seen, journal, runner@.journal);
                }
                Ok(out)
            },
            Event::Trial(TrialEvent::Finished { .. }) => Ok(out),
            Event::Observation(ObservationEvent::Started { obs_id, trial_id, elapsed }) => {
                if self.skip {
                    return Ok(out);
                }
                if runner.next_obs_id().get() == u64::MAX {
                    return Err(Error::OutOfIds);
                }
                let new_trial = match self.trial_id_mapping.get(&trial_id.get()) {
                    Some(id) => TrialId::new(*id),
                    None => {
                        return Err(Error::UnknownTrial(trial_id.get()));
                    },
                };
                if runner.elapsed_offset().checked_add(*elapsed).is_none() {
                    return Err(Error::ElapsedOverflow);
                }
                let new_id = runner.next_obs_id();
                let written = runner.replay_start(new_trial, *elapsed);
                self.obs_id_mapping.insert(obs_id.get(), new_id.get());
                out.push(written);
                proof {
                    assert(event_views(out@) =~= seen.output(study, event@));
                    assert(runner@.journal.take(journal.len() as int) =~= journal);
                    lemma_announced_grows(seen, journal, runner@.journal);
                    let last = runner@.journal.len() - 1;
                    assert(started_obs(runner@.journal[last]) == Some(new_id));
                }
                Ok(out)
            },
            Event::Observation(ObservationEvent::Finished { obs, elapsed }) => {
                if self.skip {
                    return Ok(out);
                }
                let new_id = match self.obs_id_mapping.get(&obs.id.get()) {
                    Some(id) => ObservationId::new(*id),
                    None => {
                        return Err(Error::UnstartedObservation(obs.id.get()));
                    },
                };
                let new_trial = match self.trial_id_mapping.get(&obs.trial_id.get()) {
                    Some(id) => TrialId::new(*id),
                    None => {
                        return Err(Error::UnknownTrial(obs.trial_id.get()));
                    },
                };
                if runner.elapsed_offset().checked_add(*elapsed).is_none() {
                    return Err(Error::ElapsedOverflow);
                }
                let mut translated = obs.duplicate();
                translated.id = new_id;
                translated.trial_id = new_trial;
                assert(translated@ == seen.translated(obs@));
                assert(seen.observations.contains_key(obs.id.0));
                match runner.replay_finish(translated, *elapsed) {
                    Ok(written) => {
                        out.push(written);
                        proof {
                            assert(event_views(out@) =~= seen.output(study, event@));
                            assert(runner@.journal.take(journal.len() as int) =~= journal);
                    lemma_announced_grows(seen, journal, runner@.journal);
                        }
                        Ok(out)
                    },
                    Err(e) => Err(e),
                }
            },
        }
    }
}

/// Replaying a list of events and then one more is replaying the longer
/// list.
pub proof fn lemma_replays_extend<T: Tune>(
    start: Replay<T>,
    events: Seq<EventView>,
    mid: Replay<T>,
    last_out: Seq<EventView>,
    end: Replay<T>,
)
    requires
        events.len() > 0,
        replays(start, events.drop_last(), mid),
        replays_one(
            mid.study,
            mid.tuner,
            mid.loader,
            events.last(),
            Ok(last_out),
            end.study,
            end.tuner,
            end.loader,
        ),
        end.out == mid.out + last_out,
    ensures
        replays(start, events, end),
{
    assert(end.out.take(mid.out.len() as int) =~= mid.out);
    assert(end.out.skip(mid.out.len() as int) =~= last_out);
    assert(reached(mid));
}

/// Replaying an event adds to the journal of the study exactly the events
/// that the replay writes.
pub proof fn lemma_replays_one_journal<T: Tune>(
    study: StudyState,
    tuner: T,
    loader: LoaderState,
    e: EventView,
    out: Seq<EventView>,
    study_after: StudyState,
    tuner_after: T,
    loader_after: LoaderState,
)
    requires
        replays_one(study, tuner, loader, e, Ok(out), study_after, tuner_after, loader_after),
    ensures
        study_after.journal == study.journal + out,
{
    assert(study_after.journal =~= study.journal + out);
}

/// Replaying a list of events adds to the journal of the study exactly
/// the events that the replay writes.
pub proof fn lemma_replays_journal<T: Tune>(start: Replay<T>, events: Seq<EventView>, end: Replay<T>)
    requires
        replays(start, events, end),
    ensures
        start.out.len() <= end.out.len(),
        end.out.take(start.out.len() as int) == start.out,
        end.study.journal == start.study.journal + end.out.skip(start.out.len() as int),
    decreases events.len(),
{
    if events.len() == 0 {
        assert(end.out.take(start.out.len() as int) =~= start.out);
        assert(end.study.journal =~= start.study.journal + end.out.skip(start.out.len() as int));
    } else {
        let mid = choose|mid: Replay<T>| #[trigger]
            reached(mid) && replays(start, events.drop_last(), mid) && mid.out.len()
                <= end.out.len() && end.out.take(mid.out.len() as int) == mid.out && replays_one(
                mid.study,
                mid.tuner,
                mid.loader,
                events.last(),
                Ok(end.out.skip(mid.out.len() as int)),
                end.study,
                end.tuner,
                end.loader,
            );
        lemma_replays_journal(start, events.drop_last(), mid);
        lemma_replays_one_journal(
            mid.study,
            mid.tuner,
            mid.loader,
            events.last(),
            end.out.skip(mid.out.len() as int),
            end.study,
            end.tuner,
            end.loader,
        );
        let a = start.out.len() as int;
        let b = mid.out.len() as int;
        assert(end.out.take(a) =~= mid.out.take(a));
        assert(end.out.skip(a) =~= mid.out.skip(a) + end.out.skip(b));
        assert(end.study.journal =~= start.study.journal + end.out.skip(a));
    }
}

/// Where the loading of `events` into `study` starts: both counters are
/// raised above every identifier that the events name, nothing is written
/// yet, and the loader has seen nothing.
pub open spec fn load_start<T>(study: StudyState, tuner: T, events: Seq<EventView>) -> Replay<T> {
    Replay {
        out: Seq::empty(),
        study: study.skip_ids(trial_floor(events), obs_floor(events)),
        tuner,
        loader: LoaderState::initial(),
    }
}

/// What replaying a whole list of events from a given start does.
///
/// The events are replayed in order. Where all of them can be replayed,
/// the elapsed time last seen is added to the offset of the study, and the
/// events written are the result. The first event that cannot be replayed
/// ends the replay with its error, after all events before it have been
/// replayed; so does an offset that cannot hold the elapsed time last
/// seen.
pub open spec fn replayed_all<T: Tune>(
    start: Replay<T>,
    events: Seq<EventView>,
    r: Result<Seq<EventView>, Error>,
    study_after: StudyState,
    tuner_after: T,
) -> bool {
    match r {
        Ok(out) => exists|end: Replay<T>| #[trigger]
            reached(end) && replays(start, events, end) && end.out == out && end.tuner
                == tuner_after && end.study.fits(end.loader.last_elapsed) && study_after
                == end.study.shift(end.loader.last_elapsed),
        Err(e) => {
            ||| exists|i: int, mid: Replay<T>| #[trigger]
                stopped(i, mid) && 0 <= i < events.len() && replays(start, events.take(i), mid)
                    && replays_one(
                    mid.study,
                    mid.tuner,
                    mid.loader,
                    events[i],
                    Err(e),
                    study_after,
                    tuner_after,
                    mid.loader.seen(events[i]),
                )
            ||| e == Error::ElapsedOverflow && exists|end: Replay<T>| #[trigger]
                reached(end) && replays(start, events, end) && end.study == study_after && end.tuner
                    == tuner_after && !study_after.fits(end.loader.last_elapsed)
        },
    }
}

/// What loading a whole journal into a study does: both counters are
/// first raised above every identifier that the journal names, then the
/// journal is replayed by a loader that has seen nothing.
pub open spec fn loaded<T: Tune>(
    study: StudyState,
    tuner: T,
    events: Seq<EventView>,
    r: Result<Seq<EventView>, Error>,
    study_after: StudyState,
    tuner_after: T,
) -> bool {
    replayed_all(load_start(study, tuner, events), events, r, study_after, tuner_after)
}

/// Marks the point at which a replay stops before event `i`; it holds of
/// every point.
pub open spec fn stopped<T>(i: int, point: Replay<T>) -> bool {
    true
}

/// The models of a result that holds events.
pub open spec fn result_views(r: Result<Vec<Event>, Error>) -> Result<Seq<EventView>, Error> {
    match r {
        Ok(out) => Ok(event_views(out@)),
        Err(e) => Err(e),
    }
}

impl<T: Tune, H> StudyRunner<T, H> {
    /// Loads the journal of an earlier study: see `loaded`.
    pub fn load_study(&mut self, events: &Vec<Event>) -> (r: Result<Vec<Event>, Error>)
        requires
            old(self).wf(),
        ensures
            final(self).wf(),
            old(self).orderly() ==> final(self).orderly(),
            final(self).handles() == old(self).handles(),
            loaded(
                old(self)@,
                old(self).tuner(),
                event_views(events@),
                result_views(r),
                final(self)@,
                final(self).tuner(),
            ),
            r matches Ok(out) ==> final(self)@.journal == old(self)@.journal + event_views(out@),
    {
        let (trials, observations) = floors(events);
        self.skip_ids(trials, observations);
        let mut loader = StudyLoader::new();
        loader.load(self, events)
    }
}

impl StudyLoader {
    /// Replays a list of events into `runner`: see `replayed_all`.
    pub fn load<T: Tune, H>(&mut self, runner: &mut StudyRunner<T, H>, events: &Vec<Event>) -> (r:
        Result<Vec<Event>, Error>)
        requires
            old(runner).wf(),
            old(self)@.announced(old(runner)@.journal),
        ensures
            final(runner).wf(),
            final(self)@.announced(final(runner)@.journal),
            old(runner).orderly() ==> final(runner).orderly(),
            final(runner).handles() == old(runner).handles(),
            replayed_all(
                Replay {
                    out: Seq::empty(),
                    study: old(runner)@,
                    tuner: old(runner).tuner(),
                    loader: old(self)@,
                },
                event_views(events@),
                result_views(r),
                final(runner)@,
                final(runner).tuner(),
            ),
            r matches Ok(out) ==> final(runner)@.journal == old(runner)@.journal + event_views(
                out@,
            ),
    {
        let ghost all = event_views(events@);
        let ghost start = Replay {
            out: Seq::<EventView>::empty(),
            study: runner@,
            tuner: runner.tuner(),
            loader: self@,
        };
        let mut out: Vec<Event> = Vec::new();
        let n = events.len();
        let mut i: usize = 0;
        proof {
            assert(event_views(out@) =~= Seq::<EventView>::empty());
            assert(all.take(0).len() == 0);
        }
        while i < n
            invariant
                n == events@.len(),
                all == event_views(events@),
                start == (Replay {
                    out: Seq::<EventView>::empty(),
                    study: old(runner)@,
                    tuner: old(runner).tuner(),
                    loader: old(self)@,
                }),
                i <= n,
                runner.wf(),
                old(runner).orderly() ==> runner.orderly(),
                runner.handles() == old(runner).handles(),
                self@.announced(runner@.journal),
                replays(
                    start,
                    all.take(i as int),
                    Replay {
                        out: event_views(out@),
                        study: runner@,
                        tuner: runner.tuner(),
                        loader: self@,
                    },
                ),
            decreases n - i,
        {
            let ghost mid = Replay {
                out: event_views(out@),
                study: runner@,
                tuner: runner.tuner(),
                loader: self@,
            };
            assert(all[i as int] == events@[i as int]@);
            match self.handle_event(runner, &events[i]) {
                Ok(written) => {
                    let ghost last_out = event_views(written@);
                    let mut written = written;
                    out.append(&mut written);
                    proof {
                        assert(event_views(out@) =~= mid.out + last_out);
                        let next = all.take(i + 1);
                        assert(next.drop_last() =~= all.take(i as int));
                        assert(next.last() == all[i as int]);
                        lemma_replays_extend(
                            start,
                            next,
                            mid,
                            last_out,
                            Replay {
                                out: event_views(out@),
                                study: runner@,
                                tuner: runner.tuner(),
                                loader: self@,
                            },
                        );
                    }
                },
                Err(e) => {
                    proof {
                        assert(stopped(i as int, mid));
                        assert(replays(start, all.take(i as int), mid));
                        assert(replays_one(
                            mid.study,
                            mid.tuner,
                            mid.loader,
                            all[i as int],
                            Err(e),
                            runner@,
                            runner.tuner(),
                            self@,
                        ));
                    }
                    return Err(e);
                },
            }
            i = i + 1;
        }
        let ghost end = Replay {
            out: event_views(out@),
            study: runner@,
            tuner: runner.tuner(),
            loader: self@,
        };
        proof {
            assert(all.take(n as int) =~= all);
            assert(replays(start, all, end));
            assert(reached(end));
            lemma_replays_journal(start, all, end);
            assert(end.out.skip(0) =~= end.out);
        }
        let last = self.last_elapsed;
        if runner.elapsed_offset().checked_add(last).is_none() {
            return Err(Error::ElapsedOverflow);
        }
        runner.shift(last);
        Ok(out)
    }
}

impl StudyLoader {
    /// The elapsed time that the loader has seen last.
    pub fn last_elapsed(&self) -> (r: Elapsed)
        ensures
            r == self@.last_elapsed,
    {
        self.last_elapsed
    }
}

/// What was started in a journal is started in every journal that
/// continues it.
proof fn lemma_announced_grows(loader: LoaderState, journal: Seq<EventView>, longer: Seq<EventView>)
    requires
        loader.announced(journal),
        journal.len() <= longer.len(),
        longer.take(journal.len() as int) == journal,
    ensures
        loader.announced(longer),
{
    assert forall|orig: u64| #[trigger] loader.trials.contains_key(orig) implies trial_announced(
        longer,
        TrialId(loader.trials[orig]),
    ) by {
        lemma_trial_announced_grows(journal, longer, TrialId(loader.trials[orig]));
    }
    assert forall|orig: u64| #[trigger] loader.observations.contains_key(orig) implies announced_before(
        longer,
        ObservationId(loader.observations[orig]),
        longer.len() as int,
    ) by {
        let id = ObservationId(loader.observations[orig]);
        let i = choose|i: int|
            0 <= i < journal.len() && i < journal.len() && #[trigger] started_obs(journal[i]) == Some(
                id,
            );
        assert(longer.take(journal.len() as int)[i] == longer[i]);
        assert(started_obs(longer[i]) == Some(id));
    }
}

} // verus!
