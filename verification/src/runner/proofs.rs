//! What keeps the invariant of the supervisor, and what follows from it.

use vstd::prelude::*;
use crate::error::Error;
use crate::event::EventView;
use crate::ordmap::{keys_sorted, lemma_lookup_put_other, lemma_lookup_put_same, lookup};
use crate::param::{ParamInstanceView, ParamTypeView, ParamValue};
use crate::runner::state::{
    announced_before, event_trial, finished_obs, ids_below, ids_increase, open_count,
    started_obs, started_trial, trial_announced, trial_announced_before, trials_precede, weight,
    StudyState,
};
use crate::runner::handles_after;
use crate::runner::tempdir::{Handles, TempKey};
use crate::trial::{ObservationId, ObservationView, TrialId};
use crate::tuners::{Action, Asked, Tune};
use crate::types::{Elapsed, FiniteF64};

verus! {

/// Starting an observation keeps the invariant.
pub proof fn lemma_wf_start(s: StudyState, trial: Option<TrialId>, now: Elapsed)
    requires
        s.wf(),
        s.has_room(now),
        !s.idle(),
    ensures
        s.start(trial, now).wf(),
{
    let t = s.start(trial, now);
    let n = s.journal.len() as int;
    let id = ObservationId(s.next_obs_id);
    let last = t.journal.len() - 1;
    assert forall|k: int| 0 <= k < t.running.len() implies keys_sorted(
        (#[trigger] t.running[k]).params,
    ) && keys_sorted(t.running[k].metrics) by {
        if k < s.running.len() {
            assert(t.running[k] == s.running[k]);
        }
    }
    assert(started_obs(t.journal[last]) == Some(id));
    assert forall|i: int| 0 <= i < n implies t.journal[i] == s.journal[i] by {}
    assert forall|i: int, j: int| 0 <= i < j < t.running.len() implies (#[trigger] t.running[i]).id
        != (#[trigger] t.running[j]).id by {
        if j == s.running.len() {
            assert(announced_before(s.journal, s.running[i].id, n));
        }
    }
    assert forall|k: int| 0 <= k < t.running.len() implies announced_before(
        t.journal,
        (#[trigger] t.running[k]).id,
        t.journal.len() as int,
    ) by {
        if k < s.running.len() {
            assert(announced_before(s.journal, s.running[k].id, n));
            let i = choose|i: int|
                0 <= i < n && i < s.journal.len() && #[trigger] started_obs(s.journal[i]) == Some(
                    s.running[k].id,
                );
            assert(started_obs(t.journal[i]) == Some(t.running[k].id));
        }
    }
    assert forall|j: int|
        0 <= j < t.journal.len() && (#[trigger] finished_obs(t.journal[j])) is Some implies announced_before(
        t.journal,
        finished_obs(t.journal[j]).unwrap(),
        j,
    ) by {
        assert(j < n);
        assert(finished_obs(s.journal[j]) is Some);
        let i = choose|i: int|
            0 <= i < j && i < s.journal.len() && #[trigger] started_obs(s.journal[i]) == Some(
                finished_obs(s.journal[j]).unwrap(),
            );
        assert(started_obs(t.journal[i]) == Some(finished_obs(t.journal[j]).unwrap()));
    }
    assert(ids_increase(t.journal)) by {
        assert forall|i: int, j: int|
            0 <= i < j < t.journal.len() && (#[trigger] started_obs(t.journal[i])) is Some && (
            #[trigger] started_obs(t.journal[j])) is Some implies started_obs(
            t.journal[i],
        ).unwrap().0 < started_obs(t.journal[j]).unwrap().0 by {
            if j < n {
                assert(started_obs(s.journal[i]) is Some && started_obs(s.journal[j]) is Some);
            } else if i < n {
                assert(started_obs(s.journal[i]) is Some);
            }
        }
        assert forall|i: int, j: int|
            0 <= i < j < t.journal.len() && (#[trigger] started_trial(t.journal[i])) is Some && (
            #[trigger] started_trial(t.journal[j])) is Some implies started_trial(
            t.journal[i],
        ).unwrap().0 < started_trial(t.journal[j]).unwrap().0 by {
            if j < n {
                assert(started_trial(s.journal[i]) is Some && started_trial(s.journal[j]) is Some);
            } else if i < n {
                assert(started_trial(s.journal[i]) is Some);
            }
        }
    }
    assert(ids_below(t.journal, t.next_obs_id, t.next_trial_id)) by {
        assert forall|i: int|
            0 <= i < t.journal.len() && (#[trigger] started_obs(t.journal[i])) is Some implies started_obs(
            t.journal[i],
        ).unwrap().0 < t.next_obs_id by {
            if i < n {
                assert(started_obs(s.journal[i]) is Some);
            }
        }
        assert forall|i: int|
            0 <= i < t.journal.len() && (#[trigger] started_trial(t.journal[i])) is Some implies started_trial(
            t.journal[i],
        ).unwrap().0 < t.next_trial_id by {
            if i < n {
                assert(started_trial(s.journal[i]) is Some);
            }
        }
    }
}

/// Adding an event to the journal keeps the invariant, provided that an
/// identifier it starts is not below the counter it comes from and below
/// the counter afterwards, and that an observation it finishes was
/// started before.
pub proof fn lemma_wf_push(s: StudyState, e: EventView, t: StudyState)
    requires
        s.wf(),
        t.journal == s.journal.push(e),
        t.running == s.running,
        t.workers == s.workers,
        s.next_obs_id <= t.next_obs_id,
        s.next_trial_id <= t.next_trial_id,
        started_obs(e) matches Some(id) ==> s.next_obs_id <= id.0 < t.next_obs_id,
        started_trial(e) matches Some(id) ==> s.next_trial_id <= id.0 < t.next_trial_id,
        finished_obs(e) matches Some(id) ==> announced_before(s.journal, id, s.journal.len() as int),
    ensures
        t.wf(),
{
    let n = s.journal.len() as int;
    assert forall|i: int| 0 <= i < n implies t.journal[i] == s.journal[i] by {}
    assert forall|k: int| 0 <= k < t.running.len() implies announced_before(
        t.journal,
        (#[trigger] t.running[k]).id,
        t.journal.len() as int,
    ) by {
        assert(announced_before(s.journal, s.running[k].id, n));
        let i = choose|i: int|
            0 <= i < n && i < s.journal.len() && #[trigger] started_obs(s.journal[i]) == Some(
                s.running[k].id,
            );
        assert(started_obs(t.journal[i]) == Some(t.running[k].id));
    }
    assert forall|j: int|
        0 <= j < t.journal.len() && (#[trigger] finished_obs(t.journal[j])) is Some implies announced_before(
        t.journal,
        finished_obs(t.journal[j]).unwrap(),
        j,
    ) by {
        if j < n {
            assert(finished_obs(s.journal[j]) is Some);
            let i = choose|i: int|
                0 <= i < j && i < s.journal.len() && #[trigger] started_obs(s.journal[i]) == Some(
                    finished_obs(s.journal[j]).unwrap(),
                );
            assert(started_obs(t.journal[i]) == Some(finished_obs(t.journal[j]).unwrap()));
        } else {
            let id = finished_obs(e).unwrap();
            let i = choose|i: int|
                0 <= i < n && i < s.journal.len() && #[trigger] started_obs(s.journal[i]) == Some(
                    id,
                );
            assert(started_obs(t.journal[i]) == Some(id));
        }
    }
    assert(ids_increase(t.journal)) by {
        assert forall|i: int, j: int|
            0 <= i < j < t.journal.len() && (#[trigger] started_obs(t.journal[i])) is Some && (
            #[trigger] started_obs(t.journal[j])) is Some implies started_obs(
            t.journal[i],
        ).unwrap().0 < started_obs(t.journal[j]).unwrap().0 by {
            assert(started_obs(s.journal[i]) is Some);
            if j < n {
                assert(started_obs(s.journal[j]) is Some);
            }
        }
        assert forall|i: int, j: int|
            0 <= i < j < t.journal.len() && (#[trigger] started_trial(t.journal[i])) is Some && (
            #[trigger] started_trial(t.journal[j])) is Some implies started_trial(
            t.journal[i],
        ).unwrap().0 < started_trial(t.journal[j]).unwrap().0 by {
            assert(started_trial(s.journal[i]) is Some);
            if j < n {
                assert(started_trial(s.journal[j]) is Some);
            }
        }
    }
    assert(ids_below(t.journal, t.next_obs_id, t.next_trial_id)) by {
        assert forall|i: int|
            0 <= i < t.journal.len() && (#[trigger] started_obs(t.journal[i])) is Some implies started_obs(
            t.journal[i],
        ).unwrap().0 < t.next_obs_id by {
            if i < n {
                assert(started_obs(s.journal[i]) is Some);
            }
        }
        assert forall|i: int|
            0 <= i < t.journal.len() && (#[trigger] started_trial(t.journal[i])) is Some implies started_trial(
            t.journal[i],
        ).unwrap().0 < t.next_trial_id by {
            if i < n {
                assert(started_trial(s.journal[i]) is Some);
            }
        }
    }
}

/// Raising the counters keeps the invariant.
pub proof fn lemma_wf_skip(s: StudyState, t: StudyState)
    requires
        s.wf(),
        t == (StudyState { next_obs_id: t.next_obs_id, next_trial_id: t.next_trial_id, ..s }),
        s.next_obs_id <= t.next_obs_id,
        s.next_trial_id <= t.next_trial_id,
    ensures
        t.wf(),
{
    assert forall|i: int|
        0 <= i < t.journal.len() && (#[trigger] started_obs(t.journal[i])) is Some implies started_obs(
        t.journal[i],
    ).unwrap().0 < t.next_obs_id by {}
    assert forall|i: int|
        0 <= i < t.journal.len() && (#[trigger] started_trial(t.journal[i])) is Some implies started_trial(
        t.journal[i],
    ).unwrap().0 < t.next_trial_id by {}
}

/// The end of a running observation keeps the invariant, whether or not
/// its event is handed out.
pub proof fn lemma_wf_reap(s: StudyState, i: int, exit_status: Option<i32>, now: Elapsed, written: bool)
    requires
        s.wf(),
        0 <= i < s.running.len(),
    ensures
        s.reap(i, exit_status, now, written).wf(),
{
    let t = s.reap(i, exit_status, now, written);
    let n = s.journal.len() as int;
    assert forall|k: int| 0 <= k < t.running.len() implies keys_sorted(
        (#[trigger] t.running[k]).params,
    ) && keys_sorted(t.running[k].metrics) by {
        let k0 = if k < i { k } else { k + 1 };
        assert(t.running[k] == s.running[k0]);
    }
    assert forall|k: int| 0 <= k < n implies t.journal[k] == s.journal[k] by {}
    assert forall|a: int, b: int| 0 <= a < b < t.running.len() implies (#[trigger] t.running[a]).id
        != (#[trigger] t.running[b]).id by {
        let a0 = if a < i { a } else { a + 1 };
        let b0 = if b < i { b } else { b + 1 };
        assert(t.running[a] == s.running[a0]);
        assert(t.running[b] == s.running[b0]);
    }
    assert forall|k: int| 0 <= k < t.running.len() implies announced_before(
        t.journal,
        (#[trigger] t.running[k]).id,
        t.journal.len() as int,
    ) by {
        let k0 = if k < i { k } else { k + 1 };
        assert(t.running[k] == s.running[k0]);
        assert(announced_before(s.journal, s.running[k0].id, n));
        let w = choose|w: int|
            0 <= w < n && w < s.journal.len() && #[trigger] started_obs(s.journal[w]) == Some(
                s.running[k0].id,
            );
        assert(started_obs(t.journal[w]) == Some(t.running[k].id));
    }
    assert forall|j: int|
        0 <= j < t.journal.len() && (#[trigger] finished_obs(t.journal[j])) is Some implies announced_before(
        t.journal,
        finished_obs(t.journal[j]).unwrap(),
        j,
    ) by {
        if j < n {
            assert(finished_obs(s.journal[j]) is Some);
            let w = choose|w: int|
                0 <= w < j && w < s.journal.len() && #[trigger] started_obs(s.journal[w]) == Some(
                    finished_obs(s.journal[j]).unwrap(),
                );
            assert(started_obs(t.journal[w]) == Some(finished_obs(t.journal[j]).unwrap()));
        } else {
            assert(announced_before(s.journal, s.running[i].id, n));
            let w = choose|w: int|
                0 <= w < n && w < s.journal.len() && #[trigger] started_obs(s.journal[w]) == Some(
                    s.running[i].id,
                );
            assert(started_obs(t.journal[w]) == Some(finished_obs(t.journal[j]).unwrap()));
        }
    }
    assert(ids_increase(t.journal)) by {
        assert forall|a: int, b: int|
            0 <= a < b < t.journal.len() && (#[trigger] started_obs(t.journal[a])) is Some && (
            #[trigger] started_obs(t.journal[b])) is Some implies started_obs(
            t.journal[a],
        ).unwrap().0 < started_obs(t.journal[b]).unwrap().0 by {
            assert(started_obs(s.journal[a]) is Some && started_obs(s.journal[b]) is Some);
        }
        assert forall|a: int, b: int|
            0 <= a < b < t.journal.len() && (#[trigger] started_trial(t.journal[a])) is Some && (
            #[trigger] started_trial(t.journal[b])) is Some implies started_trial(
            t.journal[a],
        ).unwrap().0 < started_trial(t.journal[b]).unwrap().0 by {
            assert(started_trial(s.journal[a]) is Some && started_trial(s.journal[b]) is Some);
        }
    }
    assert(ids_below(t.journal, t.next_obs_id, t.next_trial_id)) by {
        assert forall|a: int|
            0 <= a < t.journal.len() && (#[trigger] started_obs(t.journal[a])) is Some implies started_obs(
            t.journal[a],
        ).unwrap().0 < t.next_obs_id by {
            assert(started_obs(s.journal[a]) is Some);
        }
        assert forall|a: int|
            0 <= a < t.journal.len() && (#[trigger] started_trial(t.journal[a])) is Some implies started_trial(
            t.journal[a],
        ).unwrap().0 < t.next_trial_id by {
            assert(started_trial(s.journal[a]) is Some);
        }
    }
}

/// A change to what a running observation holds, but not to its
/// identifier, keeps the invariant.
pub proof fn lemma_wf_update(s: StudyState, i: int, obs: ObservationView)
    requires
        s.wf(),
        0 <= i < s.running.len(),
        obs.id == s.running[i].id,
        keys_sorted(obs.params),
        keys_sorted(obs.metrics),
    ensures
        (StudyState { running: s.running.update(i, obs), ..s }).wf(),
{
    let t = StudyState { running: s.running.update(i, obs), ..s };
    assert forall|k: int| 0 <= k < t.running.len() implies keys_sorted(
        (#[trigger] t.running[k]).params,
    ) && keys_sorted(t.running[k].metrics) by {
        if k != i {
            assert(t.running[k] == s.running[k]);
        }
    }
    assert forall|a: int, b: int| 0 <= a < b < t.running.len() implies (#[trigger] t.running[a]).id
        != (#[trigger] t.running[b]).id by {
        assert(t.running[a].id == s.running[a].id);
        assert(t.running[b].id == s.running[b].id);
    }
    assert forall|k: int| 0 <= k < t.running.len() implies announced_before(
        t.journal,
        (#[trigger] t.running[k]).id,
        t.journal.len() as int,
    ) by {
        assert(t.running[k].id == s.running[k].id);
    }
}

/// A trial that is started in a journal is started in every journal that
/// continues it.
pub proof fn lemma_trial_announced_grows(log: Seq<EventView>, longer: Seq<EventView>, id: TrialId)
    requires
        log.len() <= longer.len(),
        longer.take(log.len() as int) == log,
        trial_announced(log, id),
    ensures
        trial_announced(longer, id),
{
    let i = choose|i: int|
        0 <= i < log.len() && i < log.len() && #[trigger] started_trial(log[i]) == Some(id);
    assert(longer.take(log.len() as int)[i] == longer[i]);
    assert(started_trial(longer[i]) == Some(id));
}

/// Every trial that is started in a journal is started in every journal
/// that continues it.
pub proof fn lemma_trials_kept(log: Seq<EventView>, longer: Seq<EventView>)
    requires
        log.len() <= longer.len(),
        longer.take(log.len() as int) == log,
    ensures
        forall|id: TrialId| trial_announced(log, id) ==> trial_announced(longer, id),
{
    assert forall|id: TrialId| trial_announced(log, id) implies trial_announced(longer, id) by {
        lemma_trial_announced_grows(log, longer, id);
    }
}

/// Adding an event to the journal keeps the events of every trial behind
/// the start of the trial, provided that the trial of the new event has
/// been started.
pub proof fn lemma_trials_push(s: StudyState, e: EventView, t: StudyState)
    requires
        s.trials_known(),
        t.journal == s.journal.push(e),
        t.running == s.running,
        event_trial(e) matches Some(id) ==> trial_announced(s.journal, id),
    ensures
        t.trials_known(),
        forall|id: TrialId| trial_announced(s.journal, id) ==> trial_announced(t.journal, id),
        started_trial(e) matches Some(id) ==> trial_announced(t.journal, id),
{
    let n = s.journal.len() as int;
    assert(t.journal.take(n) =~= s.journal);
    assert forall|id: TrialId| trial_announced(s.journal, id) implies trial_announced(
        t.journal,
        id,
    ) by {
        lemma_trial_announced_grows(s.journal, t.journal, id);
    }
    assert forall|j: int|
        0 <= j < t.journal.len() && (#[trigger] event_trial(t.journal[j])) is Some implies trial_announced_before(
        t.journal,
        event_trial(t.journal[j]).unwrap(),
        j,
    ) by {
        let id = event_trial(t.journal[j]).unwrap();
        if j < n {
            assert(t.journal[j] == s.journal[j]);
            assert(event_trial(s.journal[j]) is Some);
            let i = choose|i: int|
                0 <= i < j && i < s.journal.len() && #[trigger] started_trial(s.journal[i]) == Some(
                    id,
                );
            assert(t.journal[i] == s.journal[i]);
            assert(started_trial(t.journal[i]) == Some(id));
        } else {
            let i = choose|i: int|
                0 <= i < n && i < s.journal.len() && #[trigger] started_trial(s.journal[i]) == Some(
                    id,
                );
            assert(t.journal[i] == s.journal[i]);
            assert(started_trial(t.journal[i]) == Some(id));
        }
    }
    assert forall|k: int| 0 <= k < t.running.len() implies trial_announced(
        t.journal,
        (#[trigger] t.running[k]).trial_id,
    ) by {
        assert(trial_announced(s.journal, s.running[k].trial_id));
    }
    if started_trial(e) is Some {
        assert(started_trial(t.journal[n]) == started_trial(e));
    }
}

/// Starting an observation keeps the events of every trial behind the
/// start of the trial, provided that a trial that is resumed has been
/// started.
pub proof fn lemma_trials_start(s: StudyState, trial: Option<TrialId>, now: Elapsed)
    requires
        s.trials_known(),
        trial matches Some(id) ==> trial_announced(s.journal, id),
    ensures
        s.start(trial, now).trials_known(),
        forall|id: TrialId|
            trial_announced(s.journal, id) ==> trial_announced(s.start(trial, now).journal, id),
{
    let t = s.start(trial, now);
    let obs_id = ObservationId(s.next_obs_id);
    match trial {
        Some(id) => {
            let e = EventView::ObservationStarted { obs_id, trial_id: id, elapsed: s.at(now) };
            let m = StudyState { journal: s.journal.push(e), ..s };
            lemma_trials_push(s, e, m);
            assert(t.journal == m.journal);
            assert forall|k: int| 0 <= k < t.running.len() implies trial_announced(
                t.journal,
                (#[trigger] t.running[k]).trial_id,
            ) by {
                if k < s.running.len() {
                    assert(t.running[k] == m.running[k]);
                }
            }
        },
        None => {
            let id = TrialId(s.next_trial_id);
            let e1 = EventView::TrialStarted { trial_id: id };
            let m1 = StudyState { journal: s.journal.push(e1), ..s };
            lemma_trials_push(s, e1, m1);
            let e2 = EventView::ObservationStarted { obs_id, trial_id: id, elapsed: s.at(now) };
            let m2 = StudyState { journal: m1.journal.push(e2), ..m1 };
            lemma_trials_push(m1, e2, m2);
            assert(t.journal == m2.journal);
            assert forall|k: int| 0 <= k < t.running.len() implies trial_announced(
                t.journal,
                (#[trigger] t.running[k]).trial_id,
            ) by {
                if k < s.running.len() {
                    assert(t.running[k] == m2.running[k]);
                }
            }
        },
    }
}

/// The end of a running observation keeps the events of every trial behind
/// the start of the trial.
pub proof fn lemma_trials_reap(s: StudyState, i: int, exit_status: Option<i32>, now: Elapsed, written: bool)
    requires
        s.trials_known(),
        0 <= i < s.running.len(),
    ensures
        s.reap(i, exit_status, now, written).trials_known(),
        forall|id: TrialId|
            trial_announced(s.journal, id) ==> trial_announced(
                s.reap(i, exit_status, now, written).journal,
                id,
            ),
        trial_announced(s.reap(i, exit_status, now, written).journal, s.running[i].trial_id),
{
    let t = s.reap(i, exit_status, now, written);
    assert(trial_announced(s.journal, s.running[i].trial_id));
    if written {
        let e = EventView::ObservationFinished {
            obs: s.ended(i, exit_status),
            elapsed: s.at(now),
        };
        let m = StudyState { journal: s.journal.push(e), ..s };
        lemma_trials_push(s, e, m);
        assert(t.journal == m.journal);
    }
    assert forall|k: int| 0 <= k < t.running.len() implies trial_announced(
        t.journal,
        (#[trigger] t.running[k]).trial_id,
    ) by {
        let k0 = if k < i { k } else { k + 1 };
        assert(t.running[k] == s.running[k0]);
        assert(trial_announced(s.journal, s.running[k0].trial_id));
    }
}

/// A step keeps a supervisor orderly when it keeps the events of every
/// trial behind the start of the trial, forgets the start of no trial, and
/// lets the tuner name only what it named before or what has been started.
pub proof fn lemma_orderly_step<T: Tune>(s: StudyState, tuner: T, t: StudyState, tuner_after: T)
    requires
        s.orderly(tuner),
        t.trials_known(),
        forall|id: TrialId| trial_announced(s.journal, id) ==> trial_announced(t.journal, id),
        forall|id: TrialId| #[trigger]
            tuner_after.may_name(id) ==> tuner.may_name(id) || trial_announced(t.journal, id),
    ensures
        t.orderly(tuner_after),
{
    assert forall|id: TrialId| #[trigger] tuner_after.may_name(id) implies trial_announced(
        t.journal,
        id,
    ) by {
        if tuner.may_name(id) {
            assert(trial_announced(s.journal, id));
        }
    }
}

/// An event added to the journal adds its weight to the count of open
/// observations, and changes the count of no earlier point of the journal.
pub proof fn lemma_open_push(log: Seq<EventView>, e: EventView)
    ensures
        open_count(log.push(e)) == open_count(log) + weight(e),
        forall|n: int| 0 <= n <= log.len() ==> #[trigger] log.push(e).take(n) == log.take(n),
{
    assert(log.push(e).drop_last() =~= log);
    assert forall|n: int| 0 <= n <= log.len() implies #[trigger] log.push(e).take(n) == log.take(
        n,
    ) by {
        assert(log.push(e).take(n) =~= log.take(n));
    }
}

/// Adding an event to the journal keeps starts and finishes paired,
/// provided that the number of running observations changes by the weight
/// of the event and stays within the number of workers.
pub proof fn lemma_paired_push(s: StudyState, e: EventView, t: StudyState)
    requires
        s.paired(),
        t.journal == s.journal.push(e),
        t.workers == s.workers,
        t.running.len() == s.running.len() + weight(e),
        t.running.len() <= t.workers,
    ensures
        t.paired(),
{
    lemma_open_push(s.journal, e);
    assert forall|n: int| 0 <= n <= t.journal.len() implies #[trigger] open_count(
        t.journal.take(n),
    ) <= t.workers by {
        if n <= s.journal.len() {
            assert(t.journal.take(n) == s.journal.take(n));
        } else {
            assert(t.journal.take(n) =~= t.journal);
        }
    }
}

/// Starting an observation while a worker is free keeps starts and
/// finishes paired.
pub proof fn lemma_paired_start(s: StudyState, trial: Option<TrialId>, now: Elapsed)
    requires
        s.paired(),
        s.running.len() < s.workers,
    ensures
        s.start(trial, now).paired(),
{
    let t = s.start(trial, now);
    let obs_id = ObservationId(s.next_obs_id);
    match trial {
        Some(id) => {
            let e = EventView::ObservationStarted { obs_id, trial_id: id, elapsed: s.at(now) };
            lemma_paired_push(s, e, t);
        },
        None => {
            let id = TrialId(s.next_trial_id);
            let e1 = EventView::TrialStarted { trial_id: id };
            let m = StudyState { journal: s.journal.push(e1), ..s };
            lemma_paired_push(s, e1, m);
            let e2 = EventView::ObservationStarted { obs_id, trial_id: id, elapsed: s.at(now) };
            lemma_paired_push(m, e2, t);
        },
    }
}

/// As long as starts and finishes are paired, no more observations have
/// started and not finished, at any point of the journal, than there are
/// workers; and those that are open at its end are the running ones.
pub proof fn lemma_never_more_than_workers(s: StudyState, n: int)
    requires
        s.paired(),
        0 <= n <= s.journal.len(),
    ensures
        open_count(s.journal.take(n)) <= s.workers,
        open_count(s.journal) == s.running.len(),
{
}

/// Following an answer of the tuner adds to the journal exactly the events
/// that the decision asks to be written.
pub proof fn lemma_follow_journal(s: StudyState, action: Option<Action>, now: Elapsed)
    ensures
        forall|r: crate::runner::Scheduled| #[trigger]
            r.answers(s, action, now) ==> s.follow(action, now).journal == s.journal
                + r.event_views(),
{
    assert forall|r: crate::runner::Scheduled| #[trigger] r.answers(s, action, now) implies s.follow(
        action,
        now,
    ).journal == s.journal + r.event_views() by {
        assert(s.follow(action, now).journal =~= s.journal + r.event_views());
    }
}

/// Every event of the journal that is about an observation comes at or
/// behind the event that started that observation; an event that finishes
/// it comes strictly behind.
pub proof fn lemma_started_first(s: StudyState, j: int)
    requires
        s.wf(),
        0 <= j < s.journal.len(),
        s.journal[j].observation_id() is Some,
    ensures
        exists|i: int|
            0 <= i <= j && #[trigger] started_obs(s.journal[i]) == s.journal[j].observation_id(),
        finished_obs(s.journal[j]) is Some ==> announced_before(
            s.journal,
            s.journal[j].observation_id().unwrap(),
            j,
        ),
{
    if finished_obs(s.journal[j]) is Some {
        let id = finished_obs(s.journal[j]).unwrap();
        assert(announced_before(s.journal, id, j));
        let i = choose|i: int|
            0 <= i < j && i < s.journal.len() && #[trigger] started_obs(s.journal[i]) == Some(id);
        assert(started_obs(s.journal[i]) == s.journal[j].observation_id());
    } else {
        assert(started_obs(s.journal[j]) == s.journal[j].observation_id());
    }
}

/// In the journal of an orderly supervisor every event of a trial comes
/// behind the event that started the trial.
pub proof fn lemma_trial_started_first<T: Tune>(s: StudyState, tuner: T, j: int)
    requires
        s.orderly(tuner),
        0 <= j < s.journal.len(),
        event_trial(s.journal[j]) is Some,
    ensures
        exists|i: int|
            0 <= i < j && #[trigger] started_trial(s.journal[i]) == event_trial(s.journal[j]),
{
    let id = event_trial(s.journal[j]).unwrap();
    assert(trial_announced_before(s.journal, id, j));
    let i = choose|i: int|
        0 <= i < j && i < s.journal.len() && #[trigger] started_trial(s.journal[i]) == Some(id);
    assert(started_trial(s.journal[i]) == event_trial(s.journal[j]));
}

/// Along the journal the identifiers of started observations grow
/// strictly, and so do those of started trials; all of them lie below the
/// counters that the next ones come from.
pub proof fn lemma_ids_grow(s: StudyState, i: int, j: int)
    requires
        s.wf(),
        0 <= i < j < s.journal.len(),
    ensures
        started_obs(s.journal[i]) is Some && started_obs(s.journal[j]) is Some ==> started_obs(
            s.journal[i],
        ).unwrap().0 < started_obs(s.journal[j]).unwrap().0 < s.next_obs_id,
        started_trial(s.journal[i]) is Some && started_trial(s.journal[j]) is Some
            ==> started_trial(s.journal[i]).unwrap().0 < started_trial(s.journal[j]).unwrap().0
            < s.next_trial_id,
{
}

/// A request changes the position of no running observation.
proof fn lemma_position_stays(s: StudyState, t: StudyState, id: ObservationId)
    requires
        s.wf(),
        t.running.len() == s.running.len(),
        forall|k: int| 0 <= k < s.running.len() ==> (#[trigger] t.running[k]).id == s.running[k].id,
        s.has(id),
    ensures
        t.has(id),
        t.position(id) == s.position(id),
{
    let i = s.position(id);
    assert(t.running[i].id == id);
    let p = t.position(id);
    if p < i {
        assert(s.running[p].id != s.running[i].id);
    } else if i < p {
        assert(s.running[i].id != s.running[p].id);
    }
}

/// Asking again for a parameter that has been answered gives the value of
/// the first answer, whatever type is named the second time, and touches
/// neither the state nor the tuner.
pub proof fn lemma_ask_again<T: Tune>(
    s0: StudyState,
    t0: T,
    id: ObservationId,
    name: Seq<char>,
    ty1: ParamTypeView,
    value: ParamValue,
    s1: StudyState,
    t1: T,
    ty2: ParamTypeView,
    r2: Result<Asked, Error>,
    s2: StudyState,
    t2: T,
)
    requires
        s0.wf(),
        s0.asked(t0, id, name, ty1, Ok(Asked::Value(value)), s1, t1),
        s1.asked(t1, id, name, ty2, r2, s2, t2),
    ensures
        r2 == Ok::<Asked, Error>(Asked::Value(value)),
        s2 == s1,
        t2 == t1,
{
    let i = s0.position(id);
    let obs = s0.running[i];
    if lookup(obs.params, name) is None {
        let instance = ParamInstanceView { ty: ty1, value };
        assert(s1 == s0.bind(i, name, instance));
        lemma_position_stays(s0, s1, id);
        lemma_lookup_put_same(obs.params, name, instance);
    }
}

/// A value drawn for a parameter is what asking for that parameter gives
/// from then on.
pub proof fn lemma_ask_after_sample<T: Tune>(
    s0: StudyState,
    id: ObservationId,
    name: Seq<char>,
    ty1: ParamTypeView,
    drawn: FiniteF64,
    value: ParamValue,
    s1: StudyState,
    t1: T,
    ty2: ParamTypeView,
    r2: Result<Asked, Error>,
    s2: StudyState,
    t2: T,
)
    requires
        s0.wf(),
        s0.sampled(id, name, ty1, drawn, Ok(value), s1),
        s1.asked(t1, id, name, ty2, r2, s2, t2),
    ensures
        r2 == Ok::<Asked, Error>(Asked::Value(value)),
        s2 == s1,
        t2 == t1,
{
    let i = s0.position(id);
    let obs = s0.running[i];
    if lookup(obs.params, name) is None {
        let instance = ParamInstanceView { ty: ty1, value: ParamValue::Num(drawn) };
        assert(s1 == s0.bind(i, name, instance));
        lemma_position_stays(s0, s1, id);
        lemma_lookup_put_same(obs.params, name, instance);
    }
}

/// No request for a parameter changes a parameter that an observation
/// holds already: once a name is bound, it stays bound to the same
/// instance.
pub proof fn lemma_params_stay<T: Tune>(
    s0: StudyState,
    t0: T,
    id: ObservationId,
    name: Seq<char>,
    ty: ParamTypeView,
    r: Result<Asked, Error>,
    s1: StudyState,
    t1: T,
    k: int,
    held: Seq<char>,
)
    requires
        s0.wf(),
        s0.asked(t0, id, name, ty, r, s1, t1),
        0 <= k < s0.running.len(),
        lookup(s0.running[k].params, held) is Some,
    ensures
        s1.running.len() == s0.running.len(),
        lookup(s1.running[k].params, held) == lookup(s0.running[k].params, held),
{
    if s0.has(id) {
        let i = s0.position(id);
        let obs = s0.running[i];
        if lookup(obs.params, name) is None {
            match r {
                Ok(Asked::Value(v)) => {
                    let instance = ParamInstanceView { ty, value: v };
                    if k == i {
                        lemma_lookup_put_other(obs.params, name, instance, held);
                    }
                },
                _ => {},
            }
        }
    }
}

/// A trial that has been closed has no temporary directory: the next
/// request for one is answered with the key to make a new one under.
pub proof fn lemma_closed_trial_has_no_tempdir(s: StudyState, trial_id: TrialId, now: Elapsed)
    ensures
        s.follow(Some(Action::FinishTrial { trial_id }), now).tempdirs.path(
            TempKey::Trial(trial_id),
        ) is None,
{
}

/// After a trial has been closed, the next directory offered for it is
/// kept with the handle that is offered: the directory that was given up
/// is not handed out again.
pub proof fn lemma_closed_trial_keeps_next_handle<H>(
    handles: Handles<H>,
    trial_id: TrialId,
    offered: H,
)
    ensures
        handles_after(handles, Some(Action::FinishTrial { trial_id })).get(
            TempKey::Trial(trial_id),
        ) is None,
        handles_after(handles, Some(Action::FinishTrial { trial_id })).create(
            TempKey::Trial(trial_id),
            offered,
        ).get(TempKey::Trial(trial_id)) == Some(offered),
{
}

/// An observation that has ended has no temporary directory.
pub proof fn lemma_ended_observation_has_no_tempdir(
    s: StudyState,
    i: int,
    exit_status: Option<i32>,
    now: Elapsed,
    written: bool,
)
    requires
        0 <= i < s.running.len(),
    ensures
        s.reap(i, exit_status, now, written).tempdirs.path(
            TempKey::Observation(s.running[i].id),
        ) is None,
{
}

} // verus!
