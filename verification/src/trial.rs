//! Trials and observations.
//!
//! A trial is an identity only: one point of the search space. An
//! observation is one run of the worker command for a trial, together with
//! the parameters it asked for and the metrics it reported.

use vstd::prelude::*;
use crate::metric::{MetricInstance, MetricValue};
use crate::ordmap::{keys_sorted, lemma_map_entries, lookup, map_entries, put, Entries, OrderedMap};
use crate::param::{ParamInstance, ParamInstanceView, ParamValue};

verus! {

/// Identifier of a trial: a value of a counter that only grows.
#[derive(Debug, Clone, Copy, PartialEq, Eq, Hash, PartialOrd, Ord, Structural)]
pub struct TrialId(pub u64);

impl TrialId {
    pub fn new(id: u64) -> (r: Self)
        ensures
            r.0 == id,
    {
        Self(id)
    }

    pub fn get(self) -> (r: u64)
        ensures
            r == self.0,
    {
        self.0
    }

    /// Hands out the current identifier and advances the counter by one.
    pub fn fetch_and_increment(&mut self) -> (r: Self)
        requires
            old(self).0 < u64::MAX,
        ensures
            r == *old(self),
            final(self).0 == old(self).0 + 1,
    {
        let id = Self(self.0);
        self.0 = self.0 + 1;
        id
    }
}

/// Identifier of an observation: a value of a counter that only grows.
#[derive(Debug, Clone, Copy, PartialEq, Eq, Hash, PartialOrd, Ord, Structural)]
pub struct ObservationId(pub u64);

impl ObservationId {
    pub fn new(id: u64) -> (r: Self)
        ensures
            r.0 == id,
    {
        Self(id)
    }

    pub fn get(self) -> (r: u64)
        ensures
            r == self.0,
    {
        self.0
    }

    /// Hands out the current identifier and advances the counter by one.
    pub fn fetch_and_increment(&mut self) -> (r: Self)
        requires
            old(self).0 < u64::MAX,
        ensures
            r == *old(self),
            final(self).0 == old(self).0 + 1,
    {
        let id = Self(self.0);
        self.0 = self.0 + 1;
        id
    }
}

/// One run of the worker command.
#[derive(Debug)]
pub struct Observation {
    pub id: ObservationId,
    pub trial_id: TrialId,
    pub params: OrderedMap<ParamInstance>,
    pub metrics: OrderedMap<MetricInstance>,
    pub exit_status: Option<i32>,
}

/// The model of an observation.
pub struct ObservationView {
    pub id: ObservationId,
    pub trial_id: TrialId,
    pub params: Entries<ParamInstanceView>,
    pub metrics: Entries<MetricInstance>,
    pub exit_status: Option<i32>,
}

/// The models of stored parameters.
pub open spec fn param_views(s: Entries<ParamInstance>) -> Entries<ParamInstanceView> {
    map_entries(s, |p: ParamInstance| p@)
}

/// Storing and looking up commute with taking the models of parameters.
pub proof fn lemma_param_views(s: Entries<ParamInstance>, name: Seq<char>, value: ParamInstance)
    ensures
        param_views(put(s, name, value)) == put(param_views(s), name, value@),
        lookup(param_views(s), name) == match lookup(s, name) {
            Some(v) => Some(v@),
            None => None,
        },
        keys_sorted(s) <==> keys_sorted(param_views(s)),
{
    lemma_map_entries(s, |p: ParamInstance| p@, name, value);
}

/// The values of modelled parameters, without their types.
pub open spec fn param_values(s: Entries<ParamInstanceView>) -> Entries<ParamValue> {
    map_entries(s, |p: ParamInstanceView| p.value)
}

/// The values of metrics, without their types.
pub open spec fn metric_values(s: Entries<MetricInstance>) -> Entries<MetricValue> {
    map_entries(s, |m: MetricInstance| m.value)
}

impl View for Observation {
    type V = ObservationView;

    open spec fn view(&self) -> ObservationView {
        ObservationView {
            id: self.id,
            trial_id: self.trial_id,
            params: param_views(self.params@),
            metrics: self.metrics@,
            exit_status: self.exit_status,
        }
    }
}

impl ObservationView {
    /// The worker ended with exit status 0.
    pub open spec fn succeeded(self) -> bool {
        self.exit_status == Some(0i32)
    }

    /// The worker succeeded and every fidelity among the parameters holds
    /// the upper end of its range.
    pub open spec fn max_fidelity(self) -> bool {
        self.succeeded() && forall|i: int|
            0 <= i < self.params.len() ==> (#[trigger] self.params[i]).1.max_fidelity() != Some(
                false,
            )
    }

    /// The observation cut down to values.
    pub open spec fn compact(self) -> CompactObservationView {
        CompactObservationView {
            id: self.id,
            trial_id: self.trial_id,
            params: param_values(self.params),
            metrics: metric_values(self.metrics),
        }
    }
}

impl Observation {
    /// A fresh observation: nothing asked, nothing reported, still running.
    pub fn new(obs_id: ObservationId, trial_id: TrialId) -> (r: Self)
        ensures
            r@ == (ObservationView {
                id: obs_id,
                trial_id,
                params: Seq::empty(),
                metrics: Seq::empty(),
                exit_status: None,
            }),
    {
        let r = Self {
            id: obs_id,
            trial_id,
            params: OrderedMap::new(),
            metrics: OrderedMap::new(),
            exit_status: None,
        };
        assert(r@.params =~= Seq::empty());
        r
    }

    /// Whether the worker ended with exit status 0.
    pub fn is_succeeded(&self) -> (r: bool)
        ensures
            r == self@.succeeded(),
    {
        match self.exit_status {
            Some(code) => code == 0,
            None => false,
        }
    }

    /// Whether this is a successful evaluation at full fidelity.
    pub fn is_max_fidelity(&self) -> (r: bool)
        ensures
            r == self@.max_fidelity(),
    {
        if !self.is_succeeded() {
            return false;
        }
        let n = self.params.len();
        let mut i: usize = 0;
        while i < n
            invariant
                n == self.params@.len(),
                i <= n,
                self@.succeeded(),
                forall|j: int| 0 <= j < i ==> (#[trigger] self@.params[j]).1.max_fidelity() != Some(false),
            decreases n - i,
        {
            let full = self.params.value(i).is_max_fidelity();
            assert(self@.params[i as int].1 == self.params@[i as int].1@);
            match full {
                Some(false) => {
                    return false;
                },
                _ => {},
            }
            i = i + 1;
        }
        true
    }

    /// A copy of the observation.
    pub fn duplicate(&self) -> (r: Self)
        ensures
            r@ == self@,
    {
        let mut params: OrderedMap<ParamInstance> = OrderedMap::new();
        let n = self.params.len();
        let mut i: usize = 0;
        while i < n
            invariant
                n == self.params@.len(),
                i <= n,
                keys_sorted(self.params@),
                param_views(params@) == param_views(self.params@).take(i as int),
                params@.len() == i,
                forall|j: int| 0 <= j < i ==> (#[trigger] params@[j]).0 == self.params@[j].0,
            decreases n - i,
        {
            let name = self.params.key(i).clone();
            let value = self.params.value(i).duplicate();
            let ghost before = params@;
            params.append(name, value);
            proof {
                assert(param_views(params@) =~= param_views(self.params@).take(i + 1)) by {
                    assert forall|j: int| 0 <= j < i + 1 implies param_views(params@)[j]
                        == param_views(self.params@).take(i + 1)[j] by {
                        if j < i {
                            assert(params@[j] == before[j]);
                            assert(param_views(before)[j] == param_views(self.params@).take(
                                i as int,
                            )[j]);
                        }
                    }
                }
            }
            i = i + 1;
        }
        let mut metrics: OrderedMap<MetricInstance> = OrderedMap::new();
        let m = self.metrics.len();
        let mut k: usize = 0;
        while k < m
            invariant
                m == self.metrics@.len(),
                k <= m,
                keys_sorted(self.metrics@),
                metrics@ == self.metrics@.take(k as int),
            decreases m - k,
        {
            let name = self.metrics.key(k).clone();
            let value = *self.metrics.value(k);
            metrics.append(name, value);
            proof {
                assert(metrics@ =~= self.metrics@.take(k + 1));
            }
            k = k + 1;
        }
        proof {
            assert(param_views(self.params@).take(n as int) =~= param_views(self.params@));
            assert(self.metrics@.take(m as int) =~= self.metrics@);
        }
        Self { id: self.id, trial_id: self.trial_id, params, metrics, exit_status: self.exit_status }
    }

    /// The observation cut down to values: what a reader of results needs.
    pub fn to_compact(&self) -> (r: CompactObservation)
        ensures
            r@ == self@.compact(),
    {
        let mut params: OrderedMap<ParamValue> = OrderedMap::new();
        let n = self.params.len();
        let mut i: usize = 0;
        while i < n
            invariant
                n == self.params@.len(),
                i <= n,
                keys_sorted(self.params@),
                params@ == param_values(param_views(self.params@)).take(i as int),
            decreases n - i,
        {
            let name = self.params.key(i).clone();
            let value = self.params.value(i).value.duplicate();
            params.append(name, value);
            proof {
                assert(params@ =~= param_values(param_views(self.params@)).take(i + 1));
            }
            i = i + 1;
        }
        let mut metrics: OrderedMap<MetricValue> = OrderedMap::new();
        let m = self.metrics.len();
        let mut k: usize = 0;
        while k < m
            invariant
                m == self.metrics@.len(),
                k <= m,
                keys_sorted(self.metrics@),
                metrics@ == metric_values(self.metrics@).take(k as int),
            decreases m - k,
        {
            let name = self.metrics.key(k).clone();
            let value = self.metrics.value(k).value;
            metrics.append(name, value);
            proof {
                assert(metrics@ =~= metric_values(self.metrics@).take(k + 1));
            }
            k = k + 1;
        }
        proof {
            assert(param_values(param_views(self.params@)).take(n as int) =~= param_values(
                param_views(self.params@),
            ));
            assert(metric_values(self.metrics@).take(m as int) =~= metric_values(self.metrics@));
        }
        CompactObservation { id: self.id, trial_id: self.trial_id, params, metrics }
    }
}

/// An observation cut down to the values of its parameters and metrics.
#[derive(Debug)]
pub struct CompactObservation {
    pub id: ObservationId,
    pub trial_id: TrialId,
    pub params: OrderedMap<ParamValue>,
    pub metrics: OrderedMap<MetricValue>,
}

/// The model of a compact observation.
pub struct CompactObservationView {
    pub id: ObservationId,
    pub trial_id: TrialId,
    pub params: Entries<ParamValue>,
    pub metrics: Entries<MetricValue>,
}

impl View for CompactObservation {
    type V = CompactObservationView;

    open spec fn view(&self) -> CompactObservationView {
        CompactObservationView {
            id: self.id,
            trial_id: self.trial_id,
            params: self.params@,
            metrics: self.metrics@,
        }
    }
}

} // verus!
