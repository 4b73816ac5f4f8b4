//! The requests that workers send to the supervisor.

use vstd::prelude::*;
use crate::metric::{MetricName, MetricType, MetricValue};
use crate::param::{ParamName, ParamType};
use crate::trial::ObservationId;
use crate::types::Scope;

verus! {

/// The procedure by which a worker asks for the value of a parameter.
#[derive(Debug, Clone, Copy)]
pub struct AskRpc;

impl AskRpc {
    /// The number of the procedure on the wire.
    pub const ID: u32 = 0;

    /// The name of the procedure.
    pub fn name() -> (r: &'static str)
        ensures
            r@ == "ask"@,
    {
        "ask"
    }
}

/// The procedure by which a worker reports a metric.
#[derive(Debug, Clone, Copy)]
pub struct TellRpc;

impl TellRpc {
    /// The number of the procedure on the wire.
    pub const ID: u32 = 1;

    /// The name of the procedure.
    pub fn name() -> (r: &'static str)
        ensures
            r@ == "tell"@,
    {
        "tell"
    }
}

/// The procedure by which a worker asks for a temporary directory.
#[derive(Debug, Clone, Copy)]
pub struct MktempRpc;

impl MktempRpc {
    /// The number of the procedure on the wire.
    pub const ID: u32 = 2;

    /// The name of the procedure.
    pub fn name() -> (r: &'static str)
        ensures
            r@ == "mktemp"@,
    {
        "mktemp"
    }
}

/// A worker asks for the value of a parameter.
#[derive(Debug)]
pub struct AskReq {
    pub observation_id: ObservationId,
    pub param_name: ParamName,
    pub param_type: ParamType,
}

/// A worker reports a metric.
#[derive(Debug)]
pub struct TellReq {
    pub observation_id: ObservationId,
    pub metric_name: MetricName,
    pub metric_type: MetricType,
    pub metric_value: MetricValue,
}

/// A worker asks for a temporary directory.
#[derive(Debug)]
pub struct MktempReq {
    pub observation_id: ObservationId,
    /// The directory under which a new one is to be made.
    pub parent: Option<String>,
    pub scope: Scope,
}

} // verus!
