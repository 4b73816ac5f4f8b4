//! The error type shared by the whole library.

use vstd::prelude::*;

verus! {

/// Broad classes of failure.
#[derive(Debug, Clone, Copy, PartialEq, Eq, Hash, Structural)]
pub enum ErrorKind {
    /// A value handed in from outside breaks a constraint.
    InvalidInput,
    /// A request refers to something the supervisor does not know.
    ProtocolError,
    /// A worker could not be started.
    ChildError,
    /// Reading or writing failed.
    IoError,
}

/// Everything that can go wrong inside the library.
#[derive(Debug, Clone, Copy, PartialEq, Eq, Hash, Structural)]
pub enum Error {
    /// A list that must hold at least one element is empty.
    EmptyList,
    /// A number is infinite or not a number.
    NotFinite,
    /// A number that must not be negative carries a minus sign.
    Negative,
    /// The lower end of a range lies above its upper end.
    MinAboveMax,
    /// The distance between the ends of a range is not a finite number.
    InfiniteWidth,
    /// A logarithmic range does not start above zero.
    NonPositiveLogRange,
    /// The step of a grid is zero.
    ZeroStep,
    /// The upper end moved onto a grid lies outside the range, or an upper
    /// end that needs no moving was moved.
    OffRange,
    /// A scope name is none of the known ones.
    UnknownScope,
    /// An attribute string holds no `:`.
    MissingAttrValue,
    /// A text that must be a decimal number is not one, or is too large.
    InvalidNumber,
    /// A request names an observation that is not running.
    UnknownObservation(u64),
    /// An event names a trial that was never started.
    UnknownTrial(u64),
    /// A retried trial asked for a parameter that the first attempt never asked for.
    RetryMismatch,
    /// A sampled value was offered for a parameter that does not wait for one.
    UnexpectedSample,
    /// A line of the journal holds a line break.
    MalformedLine,
    /// A study was given no worker to run on.
    ZeroWorkers,
    /// A journal finishes an observation that it never started.
    UnstartedObservation(u64),
    /// A counter of identifiers has reached its end.
    OutOfIds,
    /// A sum of elapsed times is too large to hold.
    ElapsedOverflow,
    /// A range is given both a logarithmic scale and a step.
    LnWithStep,
    /// A range is given both a logarithmic scale and the role of a
    /// fidelity.
    LnWithFidelity,
}

impl Error {
    /// The class a failure belongs to.
    pub open spec fn spec_kind(self) -> ErrorKind {
        match self {
            Error::UnknownObservation(_) => ErrorKind::ProtocolError,
            Error::UnexpectedSample => ErrorKind::ProtocolError,
            _ => ErrorKind::InvalidInput,
        }
    }

    #[verifier::when_used_as_spec(spec_kind)]
    pub fn kind(self) -> (r: ErrorKind)
        ensures
            r == self.spec_kind(),
    {
        match self {
            Error::UnknownObservation(_) => ErrorKind::ProtocolError,
            Error::UnexpectedSample => ErrorKind::ProtocolError,
            _ => ErrorKind::InvalidInput,
        }
    }
}

} // verus!
