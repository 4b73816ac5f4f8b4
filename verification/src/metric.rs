//! Metrics: what a worker reports about an observation.

use vstd::prelude::*;
use crate::error::Error;
use crate::types::{is_finite, FiniteF64};

verus! {

/// The name of a metric.
#[derive(Debug)]
pub struct MetricName(pub String);

impl MetricName {
    pub fn new(name: String) -> (r: Self)
        ensures
            r.0 == name,
    {
        Self(name)
    }

    pub fn get(&self) -> (r: &str)
        ensures
            r@ == self.0@,
    {
        self.0.as_str()
    }
}

/// The value of a metric: a finite number.
#[derive(Debug, Clone, Copy)]
pub struct MetricValue(pub FiniteF64);

impl MetricValue {
    /// Accepts the encoding of any finite number.
    pub fn new(bits: u64) -> (r: Result<Self, Error>)
        ensures
            is_finite(bits) ==> r.is_ok() && r.unwrap().0.bits() == bits,
            !is_finite(bits) ==> r.is_err() && r.unwrap_err() == Error::NotFinite,
    {
        match FiniteF64::new(bits) {
            Ok(v) => Ok(Self(v)),
            Err(e) => Err(e),
        }
    }

    pub fn get(self) -> (r: u64)
        ensures
            r == self.0.bits(),
            is_finite(r),
    {
        self.0.get()
    }
}

/// What a metric is reported for.
#[derive(Debug, Clone, Copy, PartialEq, Eq, Hash, Structural)]
pub enum MetricType {
    /// Smaller values are better.
    Minimize,
    /// Larger values are better.
    Maximize,
    /// Kept for the record, never competed.
    Record,
    /// Judged elsewhere, never competed.
    Judge,
}

/// A reported metric together with its type.
#[derive(Debug, Clone, Copy)]
pub struct MetricInstance {
    pub ty: MetricType,
    pub value: MetricValue,
}

impl MetricInstance {
    pub fn new(ty: MetricType, value: MetricValue) -> (r: Self)
        ensures
            r.ty == ty,
            r.value == value,
    {
        Self { ty, value }
    }

    /// Whether this metric beats the value `other`: a smaller value beats a
    /// larger one when minimizing, a larger a smaller when maximizing, and
    /// nothing beats anything otherwise.
    pub open spec fn better_than(self, other: MetricValue) -> bool {
        match self.ty {
            MetricType::Minimize => self.value.0.key() < other.0.key(),
            MetricType::Maximize => self.value.0.key() > other.0.key(),
            MetricType::Record => false,
            MetricType::Judge => false,
        }
    }

    pub fn is_better_than(&self, other: MetricValue) -> (r: bool)
        ensures
            r == self.better_than(other),
    {
        match self.ty {
            MetricType::Minimize => self.value.0.lt(other.0),
            MetricType::Maximize => other.0.lt(self.value.0),
            MetricType::Record => false,
            MetricType::Judge => false,
        }
    }
}

/// No metric beats its own value, and of two metrics of one type at most
/// one beats the other.
pub proof fn lemma_better_than_strict(a: MetricInstance, b: MetricInstance)
    requires
        a.ty == b.ty,
    ensures
        !a.better_than(a.value),
        !(a.better_than(b.value) && b.better_than(a.value)),
{
}

} // verus!
