use hone::error::Error;
use hone::param::{
    CategoricalParamType, ContinousParamType, DiscreteParamType, FidelityParamType,
    NormalParamType, NumParamType, OrdinalParamType, ParamInstance, ParamName, ParamType,
    ParamValue, StrParamType,
};
use hone::rng::{ArcRng, RngSeed};
use hone::trial::{Observation, ObservationId, TrialId};
use hone::tuners::random::{RandomTuner, RandomTunerSpec};
use hone::tuners::retry::RetryTuner;
use hone::tuners::{Action, ActionQueue, Asked, Tune, Tuner, TunerSpec, TunerSpecInner};
use hone::types::FiniteF64;

fn random_tuner(seed: u64) -> RandomTuner {
    RandomTuner::new(ArcRng::new(RngSeed::new(seed)))
}

fn obs(id: u64, trial: u64, exit_status: Option<i32>) -> Observation {
    let mut o = Observation::new(ObservationId::new(id), TrialId::new(trial));
    o.exit_status = exit_status;
    o
}

fn name(s: &str) -> ParamName {
    ParamName::new(s.to_owned())
}

fn categorical(choices: &[&str]) -> ParamType {
    ParamType::Str(StrParamType::Categorical(
        CategoricalParamType::new(choices.iter().map(|s| s.to_string()).collect()).unwrap(),
    ))
}

fn ordinal(choices: &[&str]) -> ParamType {
    ParamType::Str(StrParamType::Ordinal(
        OrdinalParamType::new(choices.iter().map(|s| s.to_string()).collect()).unwrap(),
    ))
}

fn continuous(min: f64, max: f64, ln: bool) -> ParamType {
    ParamType::Num(NumParamType::Continous(
        ContinousParamType::new(min.to_bits(), max.to_bits(), ln).unwrap(),
    ))
}

fn fidelity(min: f64, max: f64, step: Option<f64>) -> ParamType {
    ParamType::Num(NumParamType::Fidelity(
        FidelityParamType::new(min.to_bits(), max.to_bits(), step.map(f64::to_bits), max.to_bits())
            .unwrap(),
    ))
}

fn drain<T: Tune>(tuner: &mut T) -> Vec<Action> {
    let mut out = Vec::new();
    while let Some(a) = tuner.next_action() {
        out.push(a);
    }
    out
}

#[test]
fn action_queue_is_first_in_first_out() {
    let mut q = ActionQueue::new();
    assert_eq!(q.next(), None);
    q.enqueue(Action::resume_trial(TrialId::new(1)));
    q.enqueue(Action::finish_trial(TrialId::new(2)));
    q.enqueue(Action::WaitObservations);
    assert_eq!(q.next(), Some(Action::ResumeTrial { trial_id: TrialId::new(1) }));
    assert_eq!(q.next(), Some(Action::FinishTrial { trial_id: TrialId::new(2) }));
    assert_eq!(q.next(), Some(Action::WaitObservations));
    assert_eq!(q.next(), None);
}

#[test]
fn random_tuner_picks_one_of_the_choices() {
    let mut tuner = random_tuner(7);
    let o = obs(0, 0, None);
    let choices = ["red", "green", "blue"];
    let mut seen = std::collections::BTreeSet::new();
    for _ in 0..200 {
        match tuner.ask(&o, &name("colour"), &categorical(&choices)).unwrap() {
            Asked::Value(ParamValue::Str(s)) => {
                assert!(choices.contains(&s.as_str()));
                seen.insert(s);
            }
            other => panic!("{:?}", other),
        }
    }
    assert_eq!(seen.len(), 3);
}

#[test]
fn random_tuner_picks_one_of_the_ordered_choices() {
    let mut tuner = random_tuner(8);
    let o = obs(0, 0, None);
    for _ in 0..50 {
        match tuner.ask(&o, &name("size"), &ordinal(&["s", "m", "l"])).unwrap() {
            Asked::Value(ParamValue::Str(s)) => assert!(["s", "m", "l"].contains(&s.as_str())),
            other => panic!("{:?}", other),
        }
    }
}

#[test]
fn random_tuner_with_a_single_choice_returns_it() {
    let mut tuner = random_tuner(1);
    let o = obs(0, 0, None);
    match tuner.ask(&o, &name("only"), &categorical(&["one"])).unwrap() {
        Asked::Value(ParamValue::Str(s)) => assert_eq!(s, "one"),
        other => panic!("{:?}", other),
    }
}

#[test]
fn random_tuner_is_repeatable_for_a_seed() {
    let o = obs(0, 0, None);
    let choices = ["a", "b", "c", "d", "e", "f", "g", "h"];
    let mut first = random_tuner(99);
    let mut second = random_tuner(99);
    for _ in 0..32 {
        let x = first.ask(&o, &name("p"), &categorical(&choices)).unwrap();
        let y = second.ask(&o, &name("p"), &categorical(&choices)).unwrap();
        match (x, y) {
            (Asked::Value(ParamValue::Str(a)), Asked::Value(ParamValue::Str(b))) => assert_eq!(a, b),
            other => panic!("{:?}", other),
        }
    }
}

#[test]
fn random_tuner_gives_a_fidelity_its_maximum() {
    let mut tuner = random_tuner(3);
    let o = obs(0, 0, None);
    for ty in [fidelity(1.0, 9.0, None), fidelity(1.0, 9.0, Some(2.0))] {
        match tuner.ask(&o, &name("budget"), &ty).unwrap() {
            Asked::Value(ParamValue::Num(v)) => assert_eq!(v.get(), 9.0f64.to_bits()),
            other => panic!("{:?}", other),
        }
    }
}

#[test]
fn random_tuner_leaves_other_numbers_to_be_drawn() {
    let mut tuner = random_tuner(3);
    let o = obs(0, 0, None);
    match tuner.ask(&o, &name("lr"), &continuous(1.0, std::f64::consts::E, true)).unwrap() {
        Asked::Sample(NumParamType::Continous(t)) => {
            assert!(t.ln());
            assert_eq!(t.range().min().get(), 1.0f64.to_bits());
            assert_eq!(t.range().max().get(), std::f64::consts::E.to_bits());
        }
        other => panic!("{:?}", other),
    }
    let grid = ParamType::Num(NumParamType::Discrete(
        DiscreteParamType::new(
            0.0f64.to_bits(),
            1.0f64.to_bits(),
            0.3f64.to_bits(),
            (3.0f64 * 0.3).to_bits(),
        )
        .unwrap(),
    ));
    match tuner.ask(&o, &name("grid"), &grid).unwrap() {
        Asked::Sample(NumParamType::Discrete(t)) => {
            assert_eq!(t.step().get(), 0.3f64.to_bits());
            assert_eq!(t.range().max().get(), (3.0f64 * 0.3).to_bits());
        }
        other => panic!("{:?}", other),
    }
    let normal = ParamType::Num(NumParamType::Normal(
        NormalParamType::new(5.0f64.to_bits(), 0.0f64.to_bits()).unwrap(),
    ));
    match tuner.ask(&o, &name("noise"), &normal).unwrap() {
        Asked::Sample(NumParamType::Normal(t)) => {
            assert_eq!(t.mean().get(), 5.0f64.to_bits());
            assert_eq!(t.stddev().get(), 0.0f64.to_bits());
        }
        other => panic!("{:?}", other),
    }
}

#[test]
fn random_tuner_finishes_a_trial_after_every_observation() {
    let mut tuner = random_tuner(3);
    assert_eq!(tuner.next_action(), None);
    tuner.tell(&obs(0, 4, Some(0))).unwrap();
    tuner.tell(&obs(1, 5, Some(1))).unwrap();
    tuner.tell(&obs(2, 6, None)).unwrap();
    assert_eq!(
        drain(&mut tuner),
        vec![
            Action::FinishTrial { trial_id: TrialId::new(4) },
            Action::FinishTrial { trial_id: TrialId::new(5) },
            Action::FinishTrial { trial_id: TrialId::new(6) },
        ]
    );
}

#[test]
fn retry_passes_a_first_success_on() {
    let mut tuner = RetryTuner::new(random_tuner(1), 2);
    tuner.tell(&obs(0, 0, Some(0))).unwrap();
    assert_eq!(drain(&mut tuner), vec![Action::FinishTrial { trial_id: TrialId::new(0) }]);
}

#[test]
fn retry_resumes_a_failed_trial() {
    let mut tuner = RetryTuner::new(random_tuner(1), 2);
    tuner.tell(&obs(0, 3, Some(1))).unwrap();
    assert_eq!(drain(&mut tuner), vec![Action::ResumeTrial { trial_id: TrialId::new(3) }]);
}

#[test]
fn retry_treats_a_signalled_worker_as_failed() {
    let mut tuner = RetryTuner::new(random_tuner(1), 1);
    tuner.tell(&obs(0, 3, None)).unwrap();
    assert_eq!(drain(&mut tuner), vec![Action::ResumeTrial { trial_id: TrialId::new(3) }]);
}

#[test]
fn retry_gives_up_after_the_allowed_number_of_retries() {
    let mut tuner = RetryTuner::new(random_tuner(1), 2);
    tuner.tell(&obs(0, 3, Some(1))).unwrap();
    assert_eq!(drain(&mut tuner), vec![Action::ResumeTrial { trial_id: TrialId::new(3) }]);
    tuner.tell(&obs(1, 3, Some(1))).unwrap();
    assert_eq!(drain(&mut tuner), vec![Action::ResumeTrial { trial_id: TrialId::new(3) }]);
    tuner.tell(&obs(2, 3, Some(1))).unwrap();
    assert_eq!(drain(&mut tuner), vec![Action::FinishTrial { trial_id: TrialId::new(3) }]);
    // the trial is no longer under retry: a new failure starts over
    tuner.tell(&obs(3, 3, Some(1))).unwrap();
    assert_eq!(drain(&mut tuner), vec![Action::ResumeTrial { trial_id: TrialId::new(3) }]);
}

#[test]
fn retry_with_no_retries_reports_failures_at_once() {
    let mut tuner = RetryTuner::new(random_tuner(1), 0);
    tuner.tell(&obs(0, 3, Some(1))).unwrap();
    assert_eq!(drain(&mut tuner), vec![Action::FinishTrial { trial_id: TrialId::new(3) }]);
}

#[test]
fn retry_reuses_the_parameters_of_the_first_attempt() {
    let mut tuner = RetryTuner::new(random_tuner(1), 2);
    let mut failed = obs(0, 3, Some(1));
    failed.params.insert(
        "colour".to_owned(),
        ParamInstance::new(categorical(&["red", "green"]), ParamValue::Str("green".to_owned())),
    );
    failed.params.insert(
        "lr".to_owned(),
        ParamInstance::new(
            continuous(0.0, 1.0, false),
            ParamValue::Num(FiniteF64::new(0.25f64.to_bits()).unwrap()),
        ),
    );
    tuner.tell(&failed).unwrap();
    let again = obs(1, 3, None);
    for _ in 0..10 {
        match tuner.ask(&again, &name("colour"), &categorical(&["red", "green"])).unwrap() {
            Asked::Value(ParamValue::Str(s)) => assert_eq!(s, "green"),
            other => panic!("{:?}", other),
        }
    }
    match tuner.ask(&again, &name("lr"), &continuous(0.0, 1.0, false)).unwrap() {
        Asked::Value(ParamValue::Num(v)) => assert_eq!(v.get(), 0.25f64.to_bits()),
        other => panic!("{:?}", other),
    }
}

#[test]
fn retry_refuses_a_parameter_the_first_attempt_never_asked() {
    let mut tuner = RetryTuner::new(random_tuner(1), 2);
    tuner.tell(&obs(0, 3, Some(1))).unwrap();
    let again = obs(1, 3, None);
    assert_eq!(
        tuner.ask(&again, &name("new"), &categorical(&["a"])).err(),
        Some(Error::RetryMismatch)
    );
}

#[test]
fn retry_asks_the_inner_tuner_for_other_trials() {
    let mut tuner = RetryTuner::new(random_tuner(1), 2);
    tuner.tell(&obs(0, 3, Some(1))).unwrap();
    let other = obs(1, 4, None);
    match tuner.ask(&other, &name("new"), &categorical(&["a"])).unwrap() {
        Asked::Value(ParamValue::Str(s)) => assert_eq!(s, "a"),
        other => panic!("{:?}", other),
    }
}

#[test]
fn retry_own_actions_come_before_those_of_the_inner_tuner() {
    let mut tuner = RetryTuner::new(random_tuner(1), 2);
    tuner.tell(&obs(0, 1, Some(0))).unwrap();
    tuner.tell(&obs(1, 2, Some(1))).unwrap();
    assert_eq!(
        drain(&mut tuner),
        vec![
            Action::ResumeTrial { trial_id: TrialId::new(2) },
            Action::FinishTrial { trial_id: TrialId::new(1) },
        ]
    );
}

#[test]
fn tuner_spec_builds_a_random_tuner_by_default() {
    let spec = TunerSpec::new();
    assert_eq!(spec.retry, 0);
    match spec.build().unwrap() {
        Tuner::Random(_) => {}
        other => panic!("{:?}", other),
    }
}

#[test]
fn tuner_spec_wraps_for_retries() {
    let spec = TunerSpec {
        retry: 2,
        inner: Some(TunerSpecInner::Random(RandomTunerSpec { seed: Some(RngSeed::new(5)) })),
    };
    let mut tuner = spec.build().unwrap();
    match &tuner {
        Tuner::Retry(_) => {}
        other => panic!("{:?}", other),
    }
    tuner.tell(&obs(0, 0, Some(1))).unwrap();
    assert_eq!(tuner.next_action(), Some(Action::ResumeTrial { trial_id: TrialId::new(0) }));
    assert_eq!(tuner.next_action(), None);
}

#[test]
fn random_tuner_spec_builds_without_a_seed() {
    let mut tuner = RandomTunerSpec::new().build().unwrap();
    assert_eq!(tuner.next_action(), None);
}

#[test]
fn default_descriptions_ask_for_a_random_tuner_without_seed() {
    assert_eq!(TunerSpec::default(), TunerSpec::new());
    assert_eq!(TunerSpec::default().retry, 0);
    assert_eq!(TunerSpec::default().inner, None);
    assert_eq!(RandomTunerSpec::default().seed, None);
    assert_eq!(RandomTunerSpec::default(), RandomTunerSpec::new());
}

#[test]
fn a_generator_keeps_the_seed_it_was_started_from() {
    for seed in [0u64, 5, u64::MAX] {
        let rng = ArcRng::new(RngSeed::new(seed));
        assert_eq!(rng.seed(), RngSeed::new(seed));
        assert_eq!(rng.clone().seed(), RngSeed::new(seed));
        assert_eq!(RandomTuner::new(rng).seed(), RngSeed::new(seed));
    }
}

#[test]
fn a_built_tuner_is_started_from_the_seed_of_its_description() {
    let spec = RandomTunerSpec { seed: Some(RngSeed::new(7)) };
    assert_eq!(spec.build().unwrap().seed(), RngSeed::new(7));
    let other = RandomTunerSpec { seed: Some(RngSeed::new(8)) };
    assert_eq!(other.build().unwrap().seed(), RngSeed::new(8));
}

#[test]
fn copies_of_a_handle_draw_from_one_stream() {
    let o = obs(0, 0, None);
    let choices = ["a", "b", "c", "d", "e", "f", "g", "h"];
    let draw = |t: &mut RandomTuner| match t.ask(&o, &name("p"), &categorical(&choices)).unwrap() {
        Asked::Value(ParamValue::Str(s)) => s,
        other => panic!("{:?}", other),
    };
    // one tuner alone gives the stream of the seed
    let mut alone = random_tuner(21);
    let stream: Vec<String> = (0..16).map(|_| draw(&mut alone)).collect();
    // two tuners on copies of one handle share that stream between them
    let rng = ArcRng::new(RngSeed::new(21));
    let mut first = RandomTuner::new(rng.clone());
    let mut second = RandomTuner::new(rng);
    let mut shared = Vec::new();
    for _ in 0..8 {
        shared.push(draw(&mut first));
        shared.push(draw(&mut second));
    }
    assert_eq!(shared, stream);
}
