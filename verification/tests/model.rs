use hone::attr::Attr;
use hone::commands::ask::{AskOpt, Grid, ParamSpec};
use hone::commands::run::RunOpt;
use hone::commands::tell::TellOpt;
use hone::error::Error;
use hone::metric::{MetricInstance, MetricName, MetricType, MetricValue};
use hone::param::{
    CategoricalParamType, ContinousParamType, DiscreteParamType, FidelityParamType,
    NormalParamType, NumParamType, OrdinalParamType, ParamInstance, ParamName, ParamType,
    ParamValue, StrParamType,
};
use hone::rng::RngSeed;
use hone::rpc::{AskRpc, MktempRpc, TellRpc};
use hone::runner::tempdir::{TempDirs, TempKey};
use hone::trial::{Observation, ObservationId, TrialId};
use hone::tuners::random::RandomTunerSpec;
use hone::tuners::{TunerSpec, TunerSpecInner};
use hone::types::FiniteF64;
use std::rc::Rc;

fn b(x: f64) -> u64 {
    x.to_bits()
}

/// The upper end of a range moved down onto the grid of a step.
fn snap(min: f64, max: f64, step: f64) -> f64 {
    min + ((max - min) / step).floor() * step
}

fn value(x: f64) -> MetricValue {
    MetricValue::new(b(x)).unwrap()
}

#[test]
fn names_are_kept() {
    assert_eq!(ParamName::new("lr".to_owned()).get(), "lr");
    assert_eq!(MetricName::new("loss".to_owned()).get(), "loss");
}

#[test]
fn metric_value_must_be_finite() {
    assert_eq!(MetricValue::new(b(1.5)).unwrap().get(), b(1.5));
    assert_eq!(MetricValue::new(b(f64::NAN)).err(), Some(Error::NotFinite));
    assert_eq!(MetricValue::new(b(f64::INFINITY)).err(), Some(Error::NotFinite));
}

#[test]
fn smaller_is_better_when_minimizing() {
    let m = MetricInstance::new(MetricType::Minimize, value(1.0));
    assert!(m.is_better_than(value(2.0)));
    assert!(!m.is_better_than(value(1.0)));
    assert!(!m.is_better_than(value(0.5)));
    assert!(m.is_better_than(value(1.0000000000000002)));
    assert!(MetricInstance::new(MetricType::Minimize, value(-2.0)).is_better_than(value(-1.0)));
    assert!(!MetricInstance::new(MetricType::Minimize, value(-0.0)).is_better_than(value(0.0)));
}

#[test]
fn larger_is_better_when_maximizing() {
    let m = MetricInstance::new(MetricType::Maximize, value(1.0));
    assert!(m.is_better_than(value(0.5)));
    assert!(m.is_better_than(value(-3.0)));
    assert!(!m.is_better_than(value(1.0)));
    assert!(!m.is_better_than(value(2.0)));
}

#[test]
fn records_and_judgements_never_compete() {
    for ty in [MetricType::Record, MetricType::Judge] {
        let m = MetricInstance::new(ty, value(1.0));
        assert!(!m.is_better_than(value(0.0)));
        assert!(!m.is_better_than(value(1.0)));
        assert!(!m.is_better_than(value(2.0)));
    }
}

#[test]
fn choices_must_not_be_empty() {
    assert_eq!(CategoricalParamType::new(Vec::new()).err(), Some(Error::EmptyList));
    assert_eq!(OrdinalParamType::new(Vec::new()).err(), Some(Error::EmptyList));
    let c = CategoricalParamType::new(vec!["a".to_owned(), "b".to_owned()]).unwrap();
    assert_eq!(c.choices().get(), &["a".to_owned(), "b".to_owned()][..]);
    assert_eq!(c.duplicate().choices().get(), c.choices().get());
    let o = OrdinalParamType::new(vec!["s".to_owned(), "l".to_owned()]).unwrap();
    assert_eq!(o.choices().get(), &["s".to_owned(), "l".to_owned()][..]);
    assert_eq!(o.duplicate().choices().get(), o.choices().get());
}

#[test]
fn continuous_parameter_keeps_its_description() {
    let t = ContinousParamType::new(b(0.0), b(1.0), false).unwrap();
    assert_eq!(t.range().min().get(), b(0.0));
    assert_eq!(t.range().max().get(), b(1.0));
    assert!(!t.ln());
    let l = ContinousParamType::new(b(1.0), b(std::f64::consts::E), true).unwrap();
    assert!(l.ln());
}

#[test]
fn logarithmic_scale_needs_a_positive_start() {
    assert_eq!(ContinousParamType::new(b(0.0), b(1.0), true).err(), Some(Error::NonPositiveLogRange));
    assert_eq!(ContinousParamType::new(b(-0.0), b(1.0), true).err(), Some(Error::NonPositiveLogRange));
    assert_eq!(ContinousParamType::new(b(-1.0), b(1.0), true).err(), Some(Error::NonPositiveLogRange));
    assert!(ContinousParamType::new(b(f64::MIN_POSITIVE), b(1.0), true).is_ok());
    assert!(ContinousParamType::new(b(-1.0), b(1.0), false).is_ok());
}

#[test]
fn range_errors_come_first() {
    assert_eq!(ContinousParamType::new(b(2.0), b(1.0), true).err(), Some(Error::MinAboveMax));
    assert_eq!(ContinousParamType::new(b(f64::NAN), b(1.0), true).err(), Some(Error::NotFinite));
    assert_eq!(DiscreteParamType::new(b(2.0), b(1.0), b(0.0), b(9.0)).err(), Some(Error::MinAboveMax));
    assert_eq!(
        FidelityParamType::new(b(2.0), b(1.0), Some(b(-1.0)), b(9.0)).err(),
        Some(Error::MinAboveMax)
    );
}

#[test]
fn normal_parameter_keeps_its_description() {
    let t = NormalParamType::new(b(-3.0), b(0.0)).unwrap();
    assert_eq!(t.mean().get(), b(-3.0));
    assert_eq!(t.stddev().get(), b(0.0));
    assert_eq!(NormalParamType::new(b(0.0), b(-1.0)).err(), Some(Error::Negative));
    assert_eq!(NormalParamType::new(b(f64::NAN), b(1.0)).err(), Some(Error::NotFinite));
    assert_eq!(NormalParamType::new(b(0.0), b(f64::INFINITY)).err(), Some(Error::NotFinite));
}

#[test]
fn grid_ends_on_its_last_point() {
    let snapped = snap(0.0, 1.0, 0.3);
    assert!((snapped - 0.9).abs() < 1e-9);
    let t = DiscreteParamType::new(b(0.0), b(1.0), b(0.3), b(snapped)).unwrap();
    assert_eq!(t.range().min().get(), b(0.0));
    assert_eq!(t.step().get(), b(0.3));
    assert_eq!(t.range().max().get(), b(snapped));
    assert!((f64::from_bits(t.range().max().get()) - 0.9).abs() < 1e-9);
    assert_ne!(t.range().max().get(), b(1.0));
    // the points of the grid
    let at = |k: f64| 0.0 + 0.3 * k;
    assert_eq!(at(3.0), snapped);
    for (k, expected) in [(0.0, 0.0), (1.0, 0.3), (2.0, 0.6), (3.0, 0.9)] {
        assert!((at(k) - expected).abs() < 1e-9);
    }
}

#[test]
fn grid_that_fits_keeps_its_upper_end() {
    let t = DiscreteParamType::new(b(1.0), b(9.0), b(2.0), b(snap(1.0, 9.0, 2.0))).unwrap();
    assert_eq!(t.range().max().get(), b(9.0));
    let u = DiscreteParamType::new(b(-1.0), b(-1.0), b(2.0), b(-1.0)).unwrap();
    assert_eq!(u.range().max().get(), b(-1.0));
    let v = DiscreteParamType::new(b(0.0), b(0.5), b(2.0), b(snap(0.0, 0.5, 2.0))).unwrap();
    assert_eq!(v.range().max().get(), b(0.0));
}

#[test]
fn grid_needs_a_step_above_zero() {
    assert_eq!(DiscreteParamType::new(b(0.0), b(1.0), b(0.0), b(0.9)).err(), Some(Error::ZeroStep));
    assert_eq!(DiscreteParamType::new(b(0.0), b(1.0), b(-0.5), b(0.9)).err(), Some(Error::Negative));
    assert_eq!(
        DiscreteParamType::new(b(0.0), b(1.0), b(f64::NAN), b(0.9)).err(),
        Some(Error::NotFinite)
    );
}

#[test]
fn moved_upper_end_must_lie_within_the_range() {
    assert_eq!(DiscreteParamType::new(b(0.0), b(1.0), b(0.3), b(1.2)).err(), Some(Error::OffRange));
    assert_eq!(DiscreteParamType::new(b(0.0), b(1.0), b(0.3), b(-0.3)).err(), Some(Error::OffRange));
    assert_eq!(
        DiscreteParamType::new(b(0.0), b(1.0), b(0.3), b(f64::NAN)).err(),
        Some(Error::NotFinite)
    );
    assert_eq!(
        DiscreteParamType::new(b(0.0), b(1.0), b(0.3), b(f64::INFINITY)).err(),
        Some(Error::NotFinite)
    );
    assert!(DiscreteParamType::new(b(0.0), b(1.0), b(0.3), b(1.0)).is_ok());
    assert!(DiscreteParamType::new(b(0.0), b(1.0), b(0.3), b(0.0)).is_ok());
    assert_eq!(
        FidelityParamType::new(b(1.0), b(10.0), Some(b(4.0)), b(13.0)).err(),
        Some(Error::OffRange)
    );
    // without a step nothing is moved
    assert_eq!(FidelityParamType::new(b(1.0), b(10.0), None, b(9.0)).err(), Some(Error::OffRange));
    assert_eq!(
        FidelityParamType::new(b(1.0), b(10.0), None, b(f64::NAN)).err(),
        Some(Error::NotFinite)
    );
}

#[test]
fn fidelity_may_have_a_step() {
    let t = FidelityParamType::new(b(1.0), b(9.0), None, b(9.0)).unwrap();
    assert!(t.step().is_none());
    assert_eq!(t.range().max().get(), b(9.0));
    let s = FidelityParamType::new(b(1.0), b(9.0), Some(b(2.0)), b(snap(1.0, 9.0, 2.0))).unwrap();
    assert_eq!(s.step().unwrap().get(), b(2.0));
    assert_eq!(s.range().max().get(), b(9.0));
    assert_eq!(
        FidelityParamType::new(b(1.0), b(9.0), Some(b(0.0)), b(9.0)).err(),
        Some(Error::ZeroStep)
    );
}

#[test]
fn fidelity_with_a_step_ends_on_its_grid() {
    let snapped = snap(1.0, 10.0, 4.0);
    assert_eq!(snapped, 9.0);
    let t = FidelityParamType::new(b(1.0), b(10.0), Some(b(4.0)), b(snapped)).unwrap();
    assert_eq!(t.range().min().get(), b(1.0));
    assert_eq!(t.range().max().get(), b(9.0));
    assert_eq!(t.step().unwrap().get(), b(4.0));
    // full fidelity is the last point of the grid, not the upper end asked for
    let full = ParamInstance::new(
        ParamType::Num(NumParamType::Fidelity(t)),
        ParamValue::Num(FiniteF64::new(b(9.0)).unwrap()),
    );
    assert_eq!(full.is_max_fidelity(), Some(true));
    let asked = ParamInstance::new(
        ParamType::Num(NumParamType::Fidelity(t)),
        ParamValue::Num(FiniteF64::new(b(10.0)).unwrap()),
    );
    assert_eq!(asked.is_max_fidelity(), Some(false));
}

fn fidelity_instance(max: f64, held: f64) -> ParamInstance {
    ParamInstance::new(
        ParamType::Num(NumParamType::Fidelity(FidelityParamType::new(b(0.0), b(max), None, b(max)).unwrap())),
        ParamValue::Num(FiniteF64::new(b(held)).unwrap()),
    )
}

#[test]
fn fidelity_is_full_at_the_upper_end() {
    assert_eq!(fidelity_instance(9.0, 9.0).is_max_fidelity(), Some(true));
    assert_eq!(fidelity_instance(9.0, 3.0).is_max_fidelity(), Some(false));
    assert_eq!(fidelity_instance(0.0, -0.0).is_max_fidelity(), Some(true));
    let other = ParamInstance::new(
        ParamType::Num(NumParamType::Continous(ContinousParamType::new(b(0.0), b(1.0), false).unwrap())),
        ParamValue::Num(FiniteF64::new(b(1.0)).unwrap()),
    );
    assert_eq!(other.is_max_fidelity(), None);
    let mismatched = ParamInstance::new(
        ParamType::Num(NumParamType::Fidelity(FidelityParamType::new(b(0.0), b(1.0), None, b(1.0)).unwrap())),
        ParamValue::Str("x".to_owned()),
    );
    assert_eq!(mismatched.is_max_fidelity(), None);
}

#[test]
fn observation_succeeds_with_exit_status_zero() {
    let mut o = Observation::new(ObservationId::new(3), TrialId::new(1));
    assert_eq!(o.id.get(), 3);
    assert_eq!(o.trial_id.get(), 1);
    assert_eq!(o.params.len(), 0);
    assert_eq!(o.metrics.len(), 0);
    assert_eq!(o.exit_status, None);
    assert!(!o.is_succeeded());
    o.exit_status = Some(1);
    assert!(!o.is_succeeded());
    o.exit_status = Some(0);
    assert!(o.is_succeeded());
}

#[test]
fn observation_is_at_full_fidelity_when_all_fidelities_are() {
    let mut o = Observation::new(ObservationId::new(0), TrialId::new(0));
    o.exit_status = Some(0);
    assert!(o.is_max_fidelity());
    o.params.insert("budget".to_owned(), fidelity_instance(9.0, 9.0));
    assert!(o.is_max_fidelity());
    o.params.insert("epochs".to_owned(), fidelity_instance(9.0, 3.0));
    assert!(!o.is_max_fidelity());
    o.params.insert("epochs".to_owned(), fidelity_instance(5.0, 5.0));
    assert!(o.is_max_fidelity());
    o.exit_status = Some(2);
    assert!(!o.is_max_fidelity());
    o.exit_status = None;
    assert!(!o.is_max_fidelity());
}

#[test]
fn compact_observation_holds_the_values() {
    let mut o = Observation::new(ObservationId::new(4), TrialId::new(2));
    o.params.insert("z".to_owned(), fidelity_instance(9.0, 3.0));
    o.params.insert(
        "a".to_owned(),
        ParamInstance::new(
            ParamType::Str(StrParamType::Ordinal(OrdinalParamType::new(vec!["s".to_owned()]).unwrap())),
            ParamValue::Str("s".to_owned()),
        ),
    );
    o.metrics.insert("loss".to_owned(), MetricInstance::new(MetricType::Minimize, value(0.5)));
    let c = o.to_compact();
    assert_eq!(c.id, ObservationId::new(4));
    assert_eq!(c.trial_id, TrialId::new(2));
    assert_eq!(c.params.len(), 2);
    assert_eq!(c.params.key(0), "a");
    assert!(matches!(c.params.value(0), ParamValue::Str(s) if s == "s"));
    assert!(matches!(c.params.value(1), ParamValue::Num(v) if v.get() == b(3.0)));
    assert_eq!(c.metrics.get("loss").unwrap().get(), b(0.5));
    let d = o.duplicate();
    assert_eq!(d.id, o.id);
    assert_eq!(d.params.len(), 2);
    assert_eq!(d.metrics.len(), 1);
    assert_eq!(d.params.key(1), "z");
}

#[test]
fn temporary_directory_is_made_anew_after_removal() {
    let mut dirs: TempDirs<u8> = TempDirs::new();
    let t = TrialId::new(3);
    assert_eq!(dirs.path(TempKey::Trial(t)), None);
    assert_eq!(dirs.create_trial_tempdir(t, "/tmp/one".to_owned(), 1), "/tmp/one");
    assert_eq!(dirs.create_trial_tempdir(t, "/tmp/two".to_owned(), 2), "/tmp/one");
    assert_eq!(dirs.path(TempKey::Trial(t)), Some("/tmp/one".to_owned()));
    dirs.remove_trial_tempdir(t);
    assert_eq!(dirs.path(TempKey::Trial(t)), None);
    assert_eq!(dirs.create_trial_tempdir(t, "/tmp/three".to_owned(), 3), "/tmp/three");
    assert_eq!(dirs.path(TempKey::Trial(t)), Some("/tmp/three".to_owned()));
}

#[test]
fn temporary_directories_of_different_keys_are_apart() {
    let mut dirs: TempDirs<u8> = TempDirs::new();
    assert_eq!(dirs.create_study_tempdir("/s".to_owned(), 0), "/s");
    assert_eq!(dirs.create_trial_tempdir(TrialId::new(1), "/t1".to_owned(), 0), "/t1");
    assert_eq!(dirs.create_obs_tempdir(ObservationId::new(1), "/o1".to_owned(), 0), "/o1");
    assert_eq!(dirs.create_obs_tempdir(ObservationId::new(2), "/o2".to_owned(), 0), "/o2");
    dirs.remove_obs_tempdir(ObservationId::new(1));
    assert_eq!(dirs.path(TempKey::Observation(ObservationId::new(1))), None);
    assert_eq!(dirs.path(TempKey::Observation(ObservationId::new(2))), Some("/o2".to_owned()));
    assert_eq!(dirs.path(TempKey::Trial(TrialId::new(1))), Some("/t1".to_owned()));
    assert_eq!(dirs.path(TempKey::Study), Some("/s".to_owned()));
    assert_eq!(dirs.create_study_tempdir("/other".to_owned(), 0), "/s");
    dirs.remove_trial_tempdir(TrialId::new(7));
    assert_eq!(dirs.path(TempKey::Trial(TrialId::new(1))), Some("/t1".to_owned()));
}

#[test]
fn procedures_have_their_numbers_and_names() {
    assert_eq!((AskRpc::ID, AskRpc::name()), (0, "ask"));
    assert_eq!((TellRpc::ID, TellRpc::name()), (1, "tell"));
    assert_eq!((MktempRpc::ID, MktempRpc::name()), (2, "mktemp"));
}

fn run_opt() -> RunOpt {
    RunOpt {
        study_name: None,
        study_attrs: vec![
            Attr::from_str("owner:me").unwrap(),
            Attr::from_str("host:a").unwrap(),
            Attr::from_str("owner:you").unwrap(),
        ],
        workers: 4,
        repeat: Some(12),
        load: Vec::new(),
        tuner: None,
        command: "train".to_owned(),
        args: vec!["--epochs".to_owned(), "3".to_owned()],
    }
}

#[test]
fn run_options_describe_the_study() {
    let opt = run_opt().run("fresh".to_owned(), 42);
    assert_eq!(opt.workers, 4);
    assert_eq!(opt.repeat, Some(12));
    assert_eq!(opt.study.name, "fresh");
    assert_eq!(opt.study.id, 42);
    assert_eq!(opt.study.tuner, TunerSpec::new());
    assert_eq!(opt.study.command.path, "train");
    assert_eq!(opt.study.command.args, vec!["--epochs".to_owned(), "3".to_owned()]);
    assert_eq!(opt.study.attrs.len(), 2);
    assert_eq!(opt.study.attrs.key(0), "host");
    assert_eq!(opt.study.attrs.get("owner"), Some(&"you".to_owned()));
}

#[test]
fn run_options_keep_a_given_name_and_tuner() {
    let mut given = run_opt();
    given.study_name = Some("mine".to_owned());
    let tuner = TunerSpec {
        retry: 3,
        inner: Some(TunerSpecInner::Random(RandomTunerSpec { seed: Some(RngSeed::new(1)) })),
    };
    given.tuner = Some(tuner);
    let opt = given.run("fresh".to_owned(), 1);
    assert_eq!(opt.study.name, "mine");
    assert_eq!(opt.study.tuner, tuner);
}

fn range(min: f64, max: f64, ln: bool, step: Option<f64>, fidelity: bool) -> ParamSpec {
    let grid = step.map(|s| Grid { step: b(s), snapped: b(snap(min, max, s)) });
    ParamSpec::Range { min: b(min), max: b(max), ln, grid, fidelity }
}

#[test]
fn parameter_descriptions_become_types() {
    match ParamSpec::Bool.to_param_type().unwrap() {
        ParamType::Str(StrParamType::Categorical(t)) => {
            assert_eq!(t.choices().get(), &["false".to_owned(), "true".to_owned()][..])
        }
        other => panic!("{:?}", other),
    }
    let choices = vec!["a".to_owned(), "b".to_owned()];
    match (ParamSpec::Choice { choices: choices.clone(), ordinal: false }).to_param_type().unwrap() {
        ParamType::Str(StrParamType::Categorical(t)) => assert_eq!(t.choices().get(), &choices[..]),
        other => panic!("{:?}", other),
    }
    match (ParamSpec::Choice { choices: choices.clone(), ordinal: true }).to_param_type().unwrap() {
        ParamType::Str(StrParamType::Ordinal(t)) => assert_eq!(t.choices().get(), &choices[..]),
        other => panic!("{:?}", other),
    }
    match (ParamSpec::Normal { mean: b(1.0), stddev: b(2.0) }).to_param_type().unwrap() {
        ParamType::Num(NumParamType::Normal(t)) => {
            assert_eq!((t.mean().get(), t.stddev().get()), (b(1.0), b(2.0)))
        }
        other => panic!("{:?}", other),
    }
    match range(1.0, 2.0, true, None, false).to_param_type().unwrap() {
        ParamType::Num(NumParamType::Continous(t)) => {
            assert!(t.ln());
            assert_eq!((t.range().min().get(), t.range().max().get()), (b(1.0), b(2.0)));
        }
        other => panic!("{:?}", other),
    }
    match range(0.0, 1.0, false, Some(0.3), false).to_param_type().unwrap() {
        ParamType::Num(NumParamType::Discrete(t)) => {
            assert_eq!(t.step().get(), b(0.3));
            assert_eq!(t.range().max().get(), b(snap(0.0, 1.0, 0.3)));
            assert!((f64::from_bits(t.range().max().get()) - 0.9).abs() < 1e-9);
        }
        other => panic!("{:?}", other),
    }
    match range(0.0, 9.0, false, None, true).to_param_type().unwrap() {
        ParamType::Num(NumParamType::Fidelity(t)) => assert!(t.step().is_none()),
        other => panic!("{:?}", other),
    }
    match range(0.0, 10.0, false, Some(3.0), true).to_param_type().unwrap() {
        ParamType::Num(NumParamType::Fidelity(t)) => {
            assert_eq!(t.step().unwrap().get(), b(3.0));
            assert_eq!(t.range().max().get(), b(9.0));
        }
        other => panic!("{:?}", other),
    }
}

#[test]
fn wrong_parameter_descriptions_are_errors() {
    assert_eq!(
        (ParamSpec::Choice { choices: Vec::new(), ordinal: false }).to_param_type().err(),
        Some(Error::EmptyList)
    );
    assert_eq!(range(1.0, 2.0, true, Some(0.5), false).to_param_type().err(), Some(Error::LnWithStep));
    assert_eq!(range(1.0, 2.0, true, Some(0.5), true).to_param_type().err(), Some(Error::LnWithStep));
    assert_eq!(range(1.0, 2.0, true, None, true).to_param_type().err(), Some(Error::LnWithFidelity));
    assert_eq!(range(2.0, 1.0, false, None, false).to_param_type().err(), Some(Error::MinAboveMax));
    assert_eq!(range(0.0, 1.0, true, None, false).to_param_type().err(), Some(Error::NonPositiveLogRange));
    assert_eq!(range(0.0, 1.0, false, Some(0.0), false).to_param_type().err(), Some(Error::ZeroStep));
    let off = ParamSpec::Range {
        min: b(0.0),
        max: b(1.0),
        ln: false,
        grid: Some(Grid { step: b(0.3), snapped: b(1.5) }),
        fidelity: false,
    };
    assert_eq!(off.to_param_type().err(), Some(Error::OffRange));
    assert_eq!(
        (ParamSpec::Normal { mean: b(0.0), stddev: b(-1.0) }).to_param_type().err(),
        Some(Error::Negative)
    );
}

#[test]
fn ask_options_become_a_request() {
    let opt = AskOpt { param_name: "lr".to_owned(), long_option: false, param_spec: range(0.0, 1.0, false, None, false) };
    let req = opt.ask(ObservationId::new(8)).unwrap();
    assert_eq!(req.observation_id, ObservationId::new(8));
    assert_eq!(req.param_name.get(), "lr");
    assert!(matches!(req.param_type, ParamType::Num(NumParamType::Continous(_))));
    let bad = AskOpt { param_name: "lr".to_owned(), long_option: true, param_spec: range(1.0, 0.0, false, None, false) };
    assert_eq!(bad.ask(ObservationId::new(8)).err(), Some(Error::MinAboveMax));
}

#[test]
fn tell_options_become_a_request() {
    let cases = [
        (TellOpt::Minimize { name: "a".to_owned(), value: b(1.0) }, MetricType::Minimize),
        (TellOpt::Maximize { name: "a".to_owned(), value: b(1.0) }, MetricType::Maximize),
        (TellOpt::Record { name: "a".to_owned(), value: b(1.0) }, MetricType::Record),
    ];
    for (opt, ty) in cases {
        let req = opt.tell(ObservationId::new(2)).unwrap();
        assert_eq!(req.observation_id, ObservationId::new(2));
        assert_eq!(req.metric_name.get(), "a");
        assert_eq!(req.metric_type, ty);
        assert_eq!(req.metric_value.get(), b(1.0));
    }
    let bad = TellOpt::Minimize { name: "a".to_owned(), value: b(f64::NAN) };
    assert_eq!(bad.tell(ObservationId::new(2)).err(), Some(Error::NotFinite));
    assert_eq!(TellOpt::default_name(), "objective value");
}

#[test]
fn a_kept_directory_keeps_its_handle() {
    let mut dirs: TempDirs<Rc<()>> = TempDirs::new();
    let first = Rc::new(());
    let second = Rc::new(());
    let t = TrialId::new(3);
    assert_eq!(dirs.create_trial_tempdir(t, "/tmp/one".to_owned(), first.clone()), "/tmp/one");
    assert_eq!(Rc::strong_count(&first), 2);
    // a second offer is given up; the first handle stays
    assert_eq!(dirs.create_trial_tempdir(t, "/tmp/two".to_owned(), second.clone()), "/tmp/one");
    assert_eq!(Rc::strong_count(&first), 2);
    assert_eq!(Rc::strong_count(&second), 1);
    // the removal gives the handle up, and the next offer is kept with its own handle
    dirs.remove_trial_tempdir(t);
    assert_eq!(Rc::strong_count(&first), 1);
    assert_eq!(dirs.create_trial_tempdir(t, "/tmp/two".to_owned(), second.clone()), "/tmp/two");
    assert_eq!(Rc::strong_count(&second), 2);
    assert_eq!(Rc::strong_count(&first), 1);
    // other keys are not touched
    let other = Rc::new(());
    assert_eq!(dirs.create_obs_tempdir(ObservationId::new(3), "/tmp/o".to_owned(), other.clone()), "/tmp/o");
    assert_eq!(dirs.create_study_tempdir("/tmp/s".to_owned(), other.clone()), "/tmp/s");
    dirs.remove_obs_tempdir(ObservationId::new(3));
    assert_eq!(Rc::strong_count(&other), 2);
    assert_eq!(Rc::strong_count(&second), 2);
}
