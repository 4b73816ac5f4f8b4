use hone::error::{Error, ErrorKind};
use hone::types::{Elapsed, FiniteF64, InclusiveRange, NonEmptyVec, NonNegF64, Scope};
use ordered_float::OrderedFloat;

fn finite(x: f64) -> FiniteF64 {
    FiniteF64::new(x.to_bits()).expect("finite")
}

fn samples() -> Vec<f64> {
    vec![
        0.0,
        -0.0,
        1.0,
        -1.0,
        0.3,
        0.9,
        -0.3,
        1e-310,
        -1e-310,
        f64::MIN_POSITIVE,
        f64::MAX,
        f64::MIN,
        2.5,
        -2.5,
        1e300,
        -1e300,
        std::f64::consts::E,
    ]
}

#[test]
fn finite_accepts_every_finite_number() {
    for x in samples() {
        let v = FiniteF64::new(x.to_bits()).expect("finite");
        assert_eq!(v.get(), x.to_bits());
    }
}

#[test]
fn finite_rejects_infinities_and_nan() {
    for x in [f64::INFINITY, f64::NEG_INFINITY, f64::NAN, -f64::NAN] {
        assert_eq!(FiniteF64::new(x.to_bits()).err(), Some(Error::NotFinite));
    }
}

#[test]
fn order_on_bits_is_the_order_of_the_numbers() {
    for a in samples() {
        for b in samples() {
            assert_eq!(finite(a).lt(finite(b)), a < b, "{} < {}", a, b);
            assert_eq!(finite(a).same(finite(b)), a == b, "{} == {}", a, b);
        }
    }
}

#[test]
fn order_on_bits_agrees_with_ordered_float() {
    for a in samples() {
        for b in samples() {
            assert_eq!(finite(a).lt(finite(b)), OrderedFloat(a) < OrderedFloat(b));
            assert_eq!(finite(a).same(finite(b)), OrderedFloat(a) == OrderedFloat(b));
        }
    }
}

#[test]
fn the_two_zeros_are_equal() {
    assert!(finite(0.0).same(finite(-0.0)));
    assert!(!finite(0.0).lt(finite(-0.0)));
    assert!(!finite(-0.0).lt(finite(0.0)));
}

#[test]
fn non_negative_accepts_zero_and_positive_numbers() {
    assert!(NonNegF64::new(0.0f64.to_bits()).is_ok());
    assert!(NonNegF64::new(0.3f64.to_bits()).is_ok());
    assert_eq!(NonNegF64::new(0.3f64.to_bits()).unwrap().get(), 0.3f64.to_bits());
    assert!(NonNegF64::new(0.0f64.to_bits()).unwrap().is_zero());
    assert!(!NonNegF64::new(1.0f64.to_bits()).unwrap().is_zero());
}

#[test]
fn non_negative_rejects_a_minus_sign() {
    assert_eq!(NonNegF64::new((-1.0f64).to_bits()).err(), Some(Error::Negative));
    assert_eq!(NonNegF64::new((-0.0f64).to_bits()).err(), Some(Error::Negative));
}

#[test]
fn non_negative_rejects_what_is_not_finite() {
    assert_eq!(NonNegF64::new(f64::INFINITY.to_bits()).err(), Some(Error::NotFinite));
    assert_eq!(NonNegF64::new(f64::NEG_INFINITY.to_bits()).err(), Some(Error::NotFinite));
    assert_eq!(NonNegF64::new(f64::NAN.to_bits()).err(), Some(Error::NotFinite));
}

#[test]
fn range_keeps_its_ends() {
    let r = InclusiveRange::new(0.0f64.to_bits(), 1.0f64.to_bits()).unwrap();
    assert_eq!(r.min().get(), 0.0f64.to_bits());
    assert_eq!(r.max().get(), 1.0f64.to_bits());
    let point = InclusiveRange::new(2.0f64.to_bits(), 2.0f64.to_bits()).unwrap();
    assert!(point.min().same(point.max()));
    assert!(InclusiveRange::new((-3.0f64).to_bits(), (-1.0f64).to_bits()).is_ok());
    assert!(InclusiveRange::new((-0.0f64).to_bits(), 0.0f64.to_bits()).is_ok());
    assert!(InclusiveRange::new(0.0f64.to_bits(), (-0.0f64).to_bits()).is_ok());
}

#[test]
fn range_rejects_min_above_max() {
    assert_eq!(
        InclusiveRange::new(1.0f64.to_bits(), 0.0f64.to_bits()).err(),
        Some(Error::MinAboveMax)
    );
    assert_eq!(
        InclusiveRange::new((-1.0f64).to_bits(), (-2.0f64).to_bits()).err(),
        Some(Error::MinAboveMax)
    );
}

#[test]
fn range_rejects_ends_that_are_not_finite() {
    assert_eq!(
        InclusiveRange::new(f64::NAN.to_bits(), 0.0f64.to_bits()).err(),
        Some(Error::NotFinite)
    );
    assert_eq!(
        InclusiveRange::new(0.0f64.to_bits(), f64::INFINITY.to_bits()).err(),
        Some(Error::NotFinite)
    );
}

#[test]
fn non_empty_list_keeps_its_elements() {
    let v = NonEmptyVec::new(vec![3u8, 1, 2]).unwrap();
    assert_eq!(v.get(), &[3u8, 1, 2][..]);
}

#[test]
fn non_empty_list_rejects_the_empty_list() {
    assert_eq!(NonEmptyVec::<u8>::new(Vec::new()).err(), Some(Error::EmptyList));
}

#[test]
fn non_empty_list_of_strings_is_copied_in_full() {
    let v = NonEmptyVec::new(vec!["a".to_owned(), "b".to_owned()]).unwrap();
    let w = v.duplicate();
    assert_eq!(w.get(), v.get());
}

#[test]
fn scope_names_are_read() {
    assert_eq!(Scope::from_str("observation"), Ok(Scope::Observation));
    assert_eq!(Scope::from_str("trial"), Ok(Scope::Trial));
    assert_eq!(Scope::from_str("study"), Ok(Scope::Study));
}

#[test]
fn unknown_scope_is_an_error() {
    assert_eq!(Scope::from_str("Study"), Err(Error::UnknownScope));
    assert_eq!(Scope::from_str(""), Err(Error::UnknownScope));
    assert_eq!(Scope::from_str("trials"), Err(Error::UnknownScope));
    assert_eq!(Error::UnknownScope.kind(), ErrorKind::InvalidInput);
}

#[test]
fn scope_names_round_trip() {
    for scope in [Scope::Observation, Scope::Trial, Scope::Study] {
        assert_eq!(Scope::from_str(scope.name()), Ok(scope));
    }
}

#[test]
fn elapsed_adds_up() {
    let a = Elapsed::new(1_500_000_000);
    let b = Elapsed::new(500_000_000);
    assert_eq!(a.checked_add(b), Some(Elapsed::new(2_000_000_000)));
    assert_eq!(Elapsed::zero().get(), 0);
    assert_eq!(Elapsed::new(u128::MAX).checked_add(Elapsed::new(1)), None);
    assert_eq!(Elapsed::new(u128::MAX).checked_add(Elapsed::zero()), Some(Elapsed::new(u128::MAX)));
}

#[test]
fn error_kinds() {
    assert_eq!(Error::UnknownObservation(3).kind(), ErrorKind::ProtocolError);
    assert_eq!(Error::UnexpectedSample.kind(), ErrorKind::ProtocolError);
    assert_eq!(Error::NotFinite.kind(), ErrorKind::InvalidInput);
    assert_eq!(Error::RetryMismatch.kind(), ErrorKind::InvalidInput);
    assert_eq!(Error::EmptyList.kind(), ErrorKind::InvalidInput);
    assert_eq!(Error::MinAboveMax.kind(), ErrorKind::InvalidInput);
    assert_eq!(Error::NonPositiveLogRange.kind(), ErrorKind::InvalidInput);
}

fn next_down(x: f64) -> f64 {
    f64::from_bits(x.to_bits() - 1)
}

fn next_up(x: f64) -> f64 {
    f64::from_bits(x.to_bits() + 1)
}

fn far_apart() -> Vec<f64> {
    let half = 2.0f64.powi(1023);
    let tie = 2.0f64.powi(970);
    let mut v = vec![
        f64::MAX,
        next_down(f64::MAX),
        half,
        next_down(half),
        next_up(half),
        f64::MAX / 2.0,
        f64::MAX / 4.0,
        tie,
        next_down(tie),
        next_up(tie),
        2.0f64.powi(971),
        2.0f64.powi(969),
        1e308,
        8e307,
        1e292,
        1.0,
        f64::MIN_POSITIVE,
        5e-324,
        0.0,
    ];
    let negatives: Vec<f64> = v.iter().map(|x| -x).collect();
    v.extend(negatives);
    v
}

#[test]
fn range_rejects_a_width_that_is_not_finite() {
    assert_eq!(
        InclusiveRange::new(f64::MIN.to_bits(), f64::MAX.to_bits()).err(),
        Some(Error::InfiniteWidth)
    );
    assert_eq!(
        InclusiveRange::new((-1e308f64).to_bits(), 1e308f64.to_bits()).err(),
        Some(Error::InfiniteWidth)
    );
    assert!(InclusiveRange::new((-8e307f64).to_bits(), 8e307f64.to_bits()).is_ok());
    assert!(InclusiveRange::new(0.0f64.to_bits(), f64::MAX.to_bits()).is_ok());
    assert!(InclusiveRange::new(f64::MIN.to_bits(), 0.0f64.to_bits()).is_ok());
}

#[test]
fn width_is_finite_exactly_when_the_subtraction_is() {
    let mut rejected = 0;
    let mut accepted = 0;
    for a in far_apart() {
        for b in far_apart() {
            if a > b {
                continue;
            }
            let expected = if (b - a).is_finite() { None } else { Some(Error::InfiniteWidth) };
            if expected.is_some() {
                rejected += 1;
            } else {
                accepted += 1;
            }
            assert_eq!(
                InclusiveRange::new(a.to_bits(), b.to_bits()).err(),
                expected,
                "{:e} .. {:e}",
                a,
                b
            );
        }
    }
    assert!(rejected > 20);
    assert!(accepted > 20);
}

#[test]
fn width_at_the_edge_of_overflow() {
    let tie = 2.0f64.powi(970);
    // half a step above the largest number rounds to infinity
    assert_eq!(
        InclusiveRange::new((-tie).to_bits(), f64::MAX.to_bits()).err(),
        Some(Error::InfiniteWidth)
    );
    assert_eq!(
        InclusiveRange::new(f64::MIN.to_bits(), tie.to_bits()).err(),
        Some(Error::InfiniteWidth)
    );
    // anything less rounds to the largest number
    assert!(InclusiveRange::new((-next_down(tie)).to_bits(), f64::MAX.to_bits()).is_ok());
    assert!(InclusiveRange::new(f64::MIN.to_bits(), next_down(tie).to_bits()).is_ok());
}

#[test]
fn positive_numbers_lie_above_zero() {
    for x in samples() {
        assert_eq!(finite(x).is_positive(), x > 0.0, "{}", x);
    }
}
