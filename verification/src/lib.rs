//! Hyperparameter-optimization driver: the verified core.
//!
//! A study runs a worker command many times. Each run is an observation of
//! a trial, a point of the search space that a tuner has chosen. Workers
//! ask the supervisor for the values of parameters, report metrics, and
//! ask for temporary directories; the supervisor writes a journal of
//! events that is both the result of the study and what a later study
//! resumes from.
//!
//! This library holds the decisions and the data, and proves what it
//! states about them. It does no input or output and no arithmetic on
//! floating-point numbers: a number is held by the bits of its encoding,
//! and what has to be read, written, started or computed outside is asked
//! of the caller.
//!
//! - `types`, `text`, `ordmap`: numbers by their bits, ranges, the order of
//!   strings, maps kept in the order of their names.
//! - `param`, `metric`, `trial`, `study`: parameters, metrics,
//!   observations, the description of a study.
//! - `event`: the events of the journal and its lines.
//! - `tuners`: the contract of a tuner, the random tuner, the retry tuner.
//! - `runner`: the supervisor, its temporary directories, the loader of
//!   earlier journals.
//! - `rpc`, `envvar`, `attr`, `commands`: requests of workers, values of
//!   the environment, attributes, and what the commands decide.
//! - `rng`: the random number generator, the one place where the library
//!   calls code that it does not prove.

pub mod attr;
pub mod commands;
pub mod envvar;
pub mod error;
pub mod event;
pub mod metric;
pub mod ordmap;
pub mod param;
pub mod rng;
pub mod rpc;
pub mod runner;
pub mod study;
pub mod text;
pub mod trial;
pub mod tuners;
pub mod types;
