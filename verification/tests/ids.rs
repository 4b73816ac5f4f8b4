use hone::trial::{ObservationId, TrialId};

#[test]
fn trial_ids_grow_by_one() {
    let mut counter = TrialId::new(0);
    let a = counter.fetch_and_increment();
    let b = counter.fetch_and_increment();
    assert_eq!(a.get(), 0);
    assert_eq!(b.get(), 1);
    assert_eq!(counter.get(), 2);
}

#[test]
fn observation_ids_grow_by_one() {
    let mut counter = ObservationId::new(7);
    let a = counter.fetch_and_increment();
    let b = counter.fetch_and_increment();
    assert_eq!(a.get(), 7);
    assert_eq!(b.get(), 8);
    assert!(a < b);
}
