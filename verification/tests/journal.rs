use hone::commands::show::{BestOpt, BestTracker, ShowOpt};
use hone::error::Error;
use hone::event::{Event, EventReader, EventWriter, ObservationEvent, StudyEvent, TrialEvent};
use hone::metric::{MetricInstance, MetricType, MetricValue};
use hone::ordmap::OrderedMap;
use hone::param::{
    CategoricalParamType, ParamInstance, ParamType, ParamValue, StrParamType,
};
use hone::rng::RngSeed;
use hone::runner::loader::{floors, StudyLoader};
use hone::runner::{Scheduled, StudyRunner, StudyRunnerOpt};
use hone::study::{CommandSpec, StudySpec};
use hone::trial::{Observation, ObservationId, TrialId};
use hone::tuners::random::RandomTunerSpec;
use hone::tuners::{Tuner, TunerSpec, TunerSpecInner};
use hone::types::Elapsed;

fn study(name: &str) -> StudySpec {
    StudySpec {
        name: name.to_owned(),
        id: 77,
        attrs: OrderedMap::new(),
        tuner: TunerSpec {
            retry: 0,
            inner: Some(TunerSpecInner::Random(RandomTunerSpec { seed: Some(RngSeed::new(1)) })),
        },
        command: CommandSpec { path: "worker".to_owned(), args: vec!["--fast".to_owned()] },
    }
}

fn runner(workers: usize, repeat: Option<usize>) -> (StudyRunner<Tuner, ()>, Vec<Event>) {
    StudyRunner::new(StudyRunnerOpt { study: study("resumed"), workers, repeat }).unwrap()
}

fn secs(s: u64) -> Elapsed {
    Elapsed::new(s as u128 * 1_000_000_000)
}

fn finished(id: u64, trial: u64, metric: Option<(&str, MetricType, f64)>, status: Option<i32>) -> Observation {
    let mut o = Observation::new(ObservationId::new(id), TrialId::new(trial));
    o.exit_status = status;
    if let Some((name, ty, value)) = metric {
        o.metrics.insert(
            name.to_owned(),
            MetricInstance::new(ty, MetricValue::new(value.to_bits()).unwrap()),
        );
    }
    o
}

/// The journal of a run with trials {0, 1} and observations {0, 1}.
fn journal_a() -> Vec<Event> {
    vec![
        Event::study_started(),
        Event::study_defined(study("a")),
        Event::trial_started(TrialId::new(0)),
        Event::observation_started(ObservationId::new(0), TrialId::new(0), secs(1)),
        Event::observation_finished(
            finished(0, 0, Some(("y", MetricType::Minimize, 0.5)), Some(0)),
            secs(2),
        ),
        Event::trial_finished(TrialId::new(0)),
        Event::trial_started(TrialId::new(1)),
        Event::observation_started(ObservationId::new(1), TrialId::new(1), secs(3)),
        Event::observation_finished(
            finished(1, 1, Some(("y", MetricType::Minimize, 0.25)), Some(0)),
            secs(4),
        ),
    ]
}

fn started_ids(log: &[Event]) -> (Vec<u64>, Vec<u64>) {
    let mut trials = Vec::new();
    let mut observations = Vec::new();
    for e in log {
        match e {
            Event::Trial(TrialEvent::Started { trial_id }) => trials.push(trial_id.get()),
            Event::Observation(ObservationEvent::Started { obs_id, .. }) => {
                observations.push(obs_id.get())
            }
            _ => {}
        }
    }
    (trials, observations)
}

fn elapsed_of(log: &[Event]) -> Vec<Elapsed> {
    log.iter().filter_map(|e| e.elapsed()).collect()
}

#[test]
fn resume() {
    let (mut runner, mut log) = runner(1, Some(4));
    let replayed = runner.load_study(&journal_a()).unwrap();
    // the translated entries carry new identifiers, above those of the earlier run
    assert_eq!(started_ids(&replayed), (vec![2, 3], vec![2, 3]));
    for e in &replayed {
        if let Event::Observation(ObservationEvent::Finished { obs, .. }) = e {
            assert!(obs.id.get() >= 2);
            assert!(obs.trial_id.get() >= 2);
            assert_eq!(obs.id.get(), obs.trial_id.get());
            assert_eq!(obs.metrics.len(), 1);
        }
    }
    assert_eq!(elapsed_of(&replayed), vec![secs(1), secs(2), secs(3), secs(4)]);
    log.extend(replayed);
    // the loaded observations count: two more are needed
    assert_eq!(runner.finished(), 2);
    assert_eq!(runner.elapsed_offset(), secs(4));
    let mut now = 0;
    let mut appended = Vec::new();
    while !runner.is_study_finished() {
        now += 1;
        loop {
            let step = runner.schedule(secs(now));
            log.extend(step.events());
            if let Scheduled::Start { obs_id, .. } = &step {
                appended.push(obs_id.get());
                log.push(runner.reap(*obs_id, Some(0), secs(now)).unwrap());
                break;
            }
            if !step.again() {
                break;
            }
        }
    }
    assert_eq!(appended, vec![4, 5]);
    assert_eq!(runner.finished(), 4);
    let (trials, observations) = started_ids(&log);
    assert_eq!(trials, vec![2, 3, 4, 5]);
    assert_eq!(observations, vec![2, 3, 4, 5]);
    // elapsed time never runs backwards
    let times = elapsed_of(&log);
    for pair in times.windows(2) {
        assert!(pair[0].get() <= pair[1].get());
    }
    assert_eq!(*times.last().unwrap(), secs(4 + now));
}

#[test]
fn floors_lie_above_every_identifier() {
    assert_eq!(floors(&journal_a()), (2, 2));
    assert_eq!(floors(&Vec::new()), (0, 0));
    let odd = vec![
        Event::trial_finished(TrialId::new(9)),
        Event::observation_started(ObservationId::new(3), TrialId::new(4), secs(0)),
        Event::observation_finished(finished(7, 1, None, None), secs(0)),
        Event::trial_started(TrialId::new(u64::MAX)),
    ];
    assert_eq!(floors(&odd), (u64::MAX, 8));
}

#[test]
fn events_before_a_description_are_skipped() {
    let (mut runner, _) = runner(1, None);
    let events = vec![
        Event::trial_started(TrialId::new(0)),
        Event::observation_started(ObservationId::new(0), TrialId::new(0), secs(1)),
        Event::study_started(),
        Event::trial_started(TrialId::new(1)),
        Event::study_defined(study("a")),
        Event::trial_started(TrialId::new(2)),
    ];
    let replayed = runner.load_study(&events).unwrap();
    assert_eq!(replayed.len(), 1);
    assert_eq!(started_ids(&replayed), (vec![3], vec![]));
    // the elapsed time seen before the start of the study is part of the offset
    assert_eq!(runner.elapsed_offset(), secs(1));
}

#[test]
fn elapsed_times_of_several_studies_add_up() {
    let (mut runner, _) = runner(1, None);
    let mut events = journal_a();
    events.extend(journal_a());
    let replayed = runner.load_study(&events).unwrap();
    assert_eq!(
        elapsed_of(&replayed),
        vec![secs(1), secs(2), secs(3), secs(4), secs(5), secs(6), secs(7), secs(8)]
    );
    assert_eq!(runner.elapsed_offset(), secs(8));
    assert_eq!(started_ids(&replayed), (vec![2, 3, 4, 5], vec![2, 3, 4, 5]));
    assert_eq!(runner.finished(), 4);
}

#[test]
fn loading_twice_keeps_identifiers_apart() {
    let (mut runner, _) = runner(1, None);
    let first = runner.load_study(&journal_a()).unwrap();
    let second = runner.load_study(&journal_a()).unwrap();
    assert_eq!(started_ids(&first), (vec![2, 3], vec![2, 3]));
    assert_eq!(started_ids(&second), (vec![4, 5], vec![4, 5]));
    assert_eq!(elapsed_of(&second), vec![secs(5), secs(6), secs(7), secs(8)]);
}

#[test]
fn a_journal_that_names_an_unknown_trial_is_refused() {
    let (mut runner, _) = runner(1, None);
    let events = vec![
        Event::study_started(),
        Event::study_defined(study("a")),
        Event::observation_started(ObservationId::new(0), TrialId::new(5), secs(1)),
    ];
    assert_eq!(runner.load_study(&events).err(), Some(Error::UnknownTrial(5)));
}

#[test]
fn a_journal_that_finishes_what_it_never_started_is_refused() {
    let (mut runner, _) = runner(1, None);
    let events = vec![
        Event::study_started(),
        Event::study_defined(study("a")),
        Event::trial_started(TrialId::new(0)),
        Event::observation_finished(finished(3, 0, None, Some(0)), secs(1)),
    ];
    assert_eq!(runner.load_study(&events).err(), Some(Error::UnstartedObservation(3)));
    let events = vec![
        Event::study_started(),
        Event::study_defined(study("a")),
        Event::trial_started(TrialId::new(0)),
        Event::observation_started(ObservationId::new(3), TrialId::new(0), secs(1)),
        Event::observation_finished(finished(3, 1, None, Some(0)), secs(1)),
    ];
    assert_eq!(runner.load_study(&events).err(), Some(Error::UnknownTrial(1)));
}

#[test]
fn a_journal_at_the_end_of_the_identifiers_is_refused() {
    let (mut runner, _) = runner(1, None);
    let events = vec![
        Event::study_started(),
        Event::study_defined(study("a")),
        Event::trial_started(TrialId::new(u64::MAX)),
    ];
    assert_eq!(runner.load_study(&events).err(), Some(Error::OutOfIds));
}

#[test]
fn elapsed_time_that_cannot_be_held_is_refused() {
    let (mut runner, _) = runner(1, None);
    let events = vec![
        Event::study_started(),
        Event::study_defined(study("a")),
        Event::trial_started(TrialId::new(0)),
        Event::observation_started(ObservationId::new(0), TrialId::new(0), Elapsed::new(u128::MAX)),
        Event::study_started(),
        Event::study_defined(study("b")),
        Event::trial_started(TrialId::new(0)),
        Event::observation_started(ObservationId::new(0), TrialId::new(0), Elapsed::new(1)),
    ];
    assert_eq!(runner.load_study(&events).err(), Some(Error::ElapsedOverflow));
}

#[test]
fn the_loader_replays_event_by_event() {
    let (mut runner, _) = runner(1, None);
    let mut loader = StudyLoader::new();
    let mut out = Vec::new();
    for e in journal_a() {
        out.extend(loader.handle_event(&mut runner, &e).unwrap());
    }
    // without raised counters the new identifiers start at zero
    assert_eq!(started_ids(&out), (vec![0, 1], vec![0, 1]));
    assert_eq!(loader.last_elapsed(), secs(4));
}

#[test]
fn the_tuner_is_told_what_is_loaded() {
    let (mut runner, _) = runner(1, None);
    runner.load_study(&journal_a()).unwrap();
    // the random tuner closes the trial of every observation it is told
    let mut closed = Vec::new();
    loop {
        match runner.schedule(secs(1)) {
            Scheduled::Finish { trial_id } => closed.push(trial_id.get()),
            _ => break,
        }
    }
    assert_eq!(closed, vec![2, 3]);
}

#[test]
fn written_lines_are_read_back() {
    let records: Vec<&[u8]> = vec![
        br#"{"study":"started"}"#,
        b"",
        br#"{"trial":{"started":{"trial_id":0}}}"#,
        "{\"name\":\"\u{e9}\\n\"}".as_bytes(),
    ];
    let mut writer = EventWriter::new();
    for r in &records {
        writer.write(r).unwrap();
    }
    let bytes = writer.take();
    assert_eq!(bytes.iter().filter(|b| **b == b'\n').count(), records.len());
    assert_eq!(*bytes.last().unwrap(), b'\n');
    assert!(writer.take().is_empty());
    let mut reader = EventReader::new(bytes);
    for r in &records {
        assert_eq!(reader.read().as_deref(), Some(*r));
    }
    assert_eq!(reader.read(), None);
    assert_eq!(reader.read(), None);
}

#[test]
fn a_record_with_a_line_end_is_refused() {
    let mut writer = EventWriter::new();
    writer.write(b"one").unwrap();
    assert_eq!(writer.write(b"two\nthree"), Err(Error::MalformedLine));
    assert_eq!(writer.take(), b"one\n".to_vec());
}

#[test]
fn a_last_line_without_line_end_is_read() {
    let mut reader = EventReader::new(b"a\n\nb".to_vec());
    assert_eq!(reader.read(), Some(b"a".to_vec()));
    assert_eq!(reader.read(), Some(Vec::new()));
    assert_eq!(reader.read(), Some(b"b".to_vec()));
    assert_eq!(reader.read(), None);
    let mut empty = EventReader::new(Vec::new());
    assert_eq!(empty.read(), None);
}

#[test]
fn only_events_of_observations_carry_elapsed_time() {
    assert_eq!(Event::study_started().elapsed(), None);
    assert_eq!(Event::study_defined(study("a")).elapsed(), None);
    assert_eq!(Event::trial_started(TrialId::new(0)).elapsed(), None);
    assert_eq!(Event::trial_finished(TrialId::new(0)).elapsed(), None);
    assert_eq!(
        Event::observation_started(ObservationId::new(0), TrialId::new(0), secs(3)).elapsed(),
        Some(secs(3))
    );
    assert_eq!(
        Event::observation_finished(finished(0, 0, None, None), secs(4)).elapsed(),
        Some(secs(4))
    );
}

fn report_ids(events: &[Event]) -> Vec<(String, Vec<(String, u64)>)> {
    ShowOpt::Best(BestOpt {})
        .show(&events.to_vec_events())
        .iter()
        .map(|r| {
            let best = (0..r.best.len())
                .map(|i| (r.best.key(i).clone(), r.best.value(i).id.get()))
                .collect();
            (r.study_name.clone(), best)
        })
        .collect()
}

trait ToEvents {
    fn to_vec_events(&self) -> Vec<Event>;
}

impl ToEvents for [Event] {
    fn to_vec_events(&self) -> Vec<Event> {
        self.iter()
            .map(|e| match e {
                Event::Study(StudyEvent::Started) => Event::study_started(),
                Event::Study(StudyEvent::Defined { spec }) => Event::study_defined(spec.duplicate()),
                Event::Trial(TrialEvent::Started { trial_id }) => Event::trial_started(*trial_id),
                Event::Trial(TrialEvent::Finished { trial_id }) => Event::trial_finished(*trial_id),
                Event::Observation(ObservationEvent::Started { obs_id, trial_id, elapsed }) => {
                    Event::observation_started(*obs_id, *trial_id, *elapsed)
                }
                Event::Observation(ObservationEvent::Finished { obs, elapsed }) => {
                    Event::observation_finished(obs.duplicate(), *elapsed)
                }
            })
            .collect()
    }
}

#[test]
fn best_is_kept_for_every_metric() {
    let events = vec![
        Event::study_started(),
        Event::study_defined(study("a")),
        Event::observation_finished(finished(0, 0, Some(("loss", MetricType::Minimize, 0.5)), Some(0)), secs(1)),
        Event::observation_finished(finished(1, 1, Some(("acc", MetricType::Maximize, 0.5)), Some(0)), secs(2)),
        Event::observation_finished(finished(2, 2, Some(("loss", MetricType::Minimize, 0.7)), Some(0)), secs(3)),
        Event::observation_finished(finished(3, 3, Some(("acc", MetricType::Maximize, 0.9)), Some(0)), secs(4)),
        Event::observation_finished(finished(4, 4, Some(("loss", MetricType::Minimize, 0.1)), Some(0)), secs(5)),
        Event::observation_finished(finished(5, 5, Some(("loss", MetricType::Minimize, 0.1)), Some(0)), secs(6)),
    ];
    assert_eq!(
        report_ids(&events),
        vec![("a".to_owned(), vec![("acc".to_owned(), 3), ("loss".to_owned(), 4)])]
    );
}

#[test]
fn recorded_metrics_keep_their_first_observation() {
    let events = vec![
        Event::study_started(),
        Event::study_defined(study("a")),
        Event::observation_finished(finished(0, 0, Some(("note", MetricType::Record, 5.0)), Some(0)), secs(1)),
        Event::observation_finished(finished(1, 1, Some(("note", MetricType::Record, 1.0)), Some(0)), secs(2)),
        Event::observation_finished(finished(2, 2, Some(("vote", MetricType::Judge, 1.0)), Some(0)), secs(3)),
        Event::observation_finished(finished(3, 3, Some(("vote", MetricType::Judge, 9.0)), Some(0)), secs(4)),
    ];
    assert_eq!(
        report_ids(&events),
        vec![("a".to_owned(), vec![("note".to_owned(), 0), ("vote".to_owned(), 2)])]
    );
}

#[test]
fn every_study_gets_its_own_report() {
    let events = vec![
        Event::observation_finished(finished(9, 9, Some(("y", MetricType::Minimize, 0.0)), Some(0)), secs(1)),
        Event::study_started(),
        Event::study_defined(study("a")),
        Event::observation_finished(finished(0, 0, Some(("y", MetricType::Minimize, 0.5)), Some(0)), secs(1)),
        Event::study_started(),
        // skipped: the next study is not described yet
        Event::observation_finished(finished(1, 1, Some(("y", MetricType::Minimize, 0.1)), Some(0)), secs(1)),
        Event::study_defined(study("b")),
        Event::study_defined(study("c")),
        Event::observation_finished(finished(2, 2, Some(("y", MetricType::Minimize, 0.3)), Some(0)), secs(1)),
    ];
    assert_eq!(
        report_ids(&events),
        vec![
            ("a".to_owned(), vec![("y".to_owned(), 0)]),
            ("b".to_owned(), vec![]),
            ("c".to_owned(), vec![("y".to_owned(), 2)]),
        ]
    );
}

#[test]
fn a_journal_without_a_study_gives_no_report() {
    assert!(report_ids(&[]).is_empty());
    assert!(report_ids(&[Event::study_started()]).is_empty());
    let mut tracker = BestTracker::new();
    assert!(tracker.handle(&Event::study_started()).is_none());
    assert!(tracker.finish().is_none());
}

#[test]
fn the_report_holds_values_only() {
    let mut obs = finished(0, 0, Some(("y", MetricType::Minimize, 0.5)), Some(0));
    obs.params.insert(
        "c".to_owned(),
        ParamInstance::new(
            ParamType::Str(StrParamType::Categorical(
                CategoricalParamType::new(vec!["a".to_owned(), "b".to_owned()]).unwrap(),
            )),
            ParamValue::Str("b".to_owned()),
        ),
    );
    let events = vec![
        Event::study_started(),
        Event::study_defined(study("a")),
        Event::observation_finished(obs, secs(1)),
    ];
    let reports = ShowOpt::Best(BestOpt {}).show(&events);
    assert_eq!(reports.len(), 1);
    assert_eq!(reports[0].study_id, 77);
    let best = reports[0].best.get("y").unwrap();
    assert_eq!(best.trial_id, TrialId::new(0));
    assert!(matches!(best.params.get("c"), Some(ParamValue::Str(s)) if s == "b"));
    assert_eq!(best.metrics.get("y").unwrap().get(), 0.5f64.to_bits());
}

#[test]
fn show_best_after_resume_sees_the_same_values() {
    let (mut runner, mut log) = runner(1, None);
    log.extend(runner.load_study(&journal_a()).unwrap());
    let direct = ShowOpt::Best(BestOpt {}).show(&journal_a());
    let resumed = ShowOpt::Best(BestOpt {}).show(&log);
    assert_eq!(direct.len(), 1);
    assert_eq!(resumed.len(), 1);
    let a = direct[0].best.get("y").unwrap();
    let b = resumed[0].best.get("y").unwrap();
    // the same observation under its new identifiers
    assert_eq!(a.id.get() + 2, b.id.get());
    assert_eq!(a.trial_id.get() + 2, b.trial_id.get());
    assert_eq!(a.metrics.get("y").unwrap().get(), b.metrics.get("y").unwrap().get());
    assert_eq!(b.metrics.get("y").unwrap().get(), 0.25f64.to_bits());
}
