//! Reporting a metric.

use vstd::prelude::*;
use crate::error::Error;
use crate::metric::{MetricName, MetricType, MetricValue};
use crate::rpc::TellReq;
use crate::trial::ObservationId;
use crate::types::is_finite;

verus! {

/// What a worker reports: a value, under a name, to be minimized, to be
/// maximized, or for the record.
#[derive(Debug)]
pub enum TellOpt {
    Minimize { name: String, value: u64 },
    Maximize { name: String, value: u64 },
    Record { name: String, value: u64 },
}

impl TellOpt {
    /// The name that a metric gets when none is given.
    pub fn default_name() -> (r: &'static str)
        ensures
            r@ == "objective value"@,
    {
        "objective value"
    }

    /// The type of the metric.
    pub open spec fn spec_metric_type(&self) -> MetricType {
        match self {
            TellOpt::Minimize { .. } => MetricType::Minimize,
            TellOpt::Maximize { .. } => MetricType::Maximize,
            TellOpt::Record { .. } => MetricType::Record,
        }
    }

    /// The name of the metric.
    pub open spec fn spec_name(&self) -> String {
        match self {
            TellOpt::Minimize { name, .. } => *name,
            TellOpt::Maximize { name, .. } => *name,
            TellOpt::Record { name, .. } => *name,
        }
    }

    /// The encoded value of the metric.
    pub open spec fn spec_value(&self) -> u64 {
        match self {
            TellOpt::Minimize { value, .. } => *value,
            TellOpt::Maximize { value, .. } => *value,
            TellOpt::Record { value, .. } => *value,
        }
    }

    /// The request that reports the metric for observation
    /// `observation_id`. A value that is not finite is an error.
    pub fn tell(&self, observation_id: ObservationId) -> (r: Result<TellReq, Error>)
        ensures
            !is_finite(self.spec_value()) ==> r is Err && r->Err_0 == Error::NotFinite,
            is_finite(self.spec_value()) ==> r is Ok && r->Ok_0.observation_id == observation_id
                && r->Ok_0.metric_name.0 == self.spec_name() && r->Ok_0.metric_type
                == self.spec_metric_type() && r->Ok_0.metric_value.0.bits() == self.spec_value(),
    {
        let (name, ty, value) = match self {
            TellOpt::Minimize { name, value } => (name, MetricType::Minimize, *value),
            TellOpt::Maximize { name, value } => (name, MetricType::Maximize, *value),
            TellOpt::Record { name, value } => (name, MetricType::Record, *value),
        };
        let metric_value = match MetricValue::new(value) {
            Ok(v) => v,
            Err(e) => {
                return Err(e);
            },
        };
        Ok(
            TellReq {
                observation_id,
                metric_name: MetricName::new(name.clone()),
                metric_type: ty,
                metric_value,
            },
        )
    }
}

} // verus!
