//! The environment variables through which a worker learns where the
//! supervisor listens and what it is working on, and how their values are
//! read.

use vstd::prelude::*;
use crate::error::Error;
use crate::text::{number, parse_u64};
use crate::trial::{ObservationId, TrialId};

verus! {

/// The address of the supervisor, as `host:port`.
pub const KEY_SERVER_ADDR: &'static str = "HONE_SERVER_ADDR";

/// The identifier of the study.
pub const KEY_STUDY_ID: &'static str = "HONE_STUDY_ID";

/// The identifier of the trial, in decimal.
pub const KEY_TRIAL_ID: &'static str = "HONE_TRIAL_ID";

/// The identifier of the observation, in decimal.
pub const KEY_OBSERVATION_ID: &'static str = "HONE_OBSERVATION_ID";

/// What went wrong with an environment variable.
#[derive(Debug)]
pub enum EnvVarError {
    /// The variable is not set.
    NotFound { key: &'static str },
    /// The variable holds a value that cannot be used.
    Other { key: &'static str, source: Error },
}

impl EnvVarError {
    /// The error for a value of `key` that cannot be used because of `e`.
    pub fn from_other_error(key: &'static str, e: Error) -> (r: Self)
        ensures
            r == (EnvVarError::Other { key, source: e }),
    {
        Self::Other { key, source: e }
    }
}

/// The number that a value of `key` stands for, where there is a value and
/// it is a number that fits into 64 bits.
fn parse_id(key: &'static str, value: Option<&str>) -> (r: Result<u64, EnvVarError>)
    ensures
        r == id_of(key, value),
{
    match value {
        None => Err(EnvVarError::NotFound { key }),
        Some(text) => match parse_u64(text) {
            Ok(id) => Ok(id),
            Err(e) => Err(EnvVarError::from_other_error(key, e)),
        },
    }
}

/// What reading an identifier from the value of `key` gives: the number
/// that the value stands for; an error where the variable is not set, and
/// where its value is no number that fits into 64 bits.
pub open spec fn id_of(key: &'static str, value: Option<&str>) -> Result<u64, EnvVarError> {
    match value {
        None => Err(EnvVarError::NotFound { key }),
        Some(text) => match number(text@) {
            Some(v) => if v <= u64::MAX {
                Ok(v as u64)
            } else {
                Err(EnvVarError::Other { key, source: Error::InvalidNumber })
            },
            None => Err(EnvVarError::Other { key, source: Error::InvalidNumber }),
        },
    }
}

/// The trial that a worker works on, from the value of `HONE_TRIAL_ID`;
/// none stands for a variable that is not set.
pub fn get_trial_id(value: Option<&str>) -> (r: Result<TrialId, EnvVarError>)
    ensures
        match id_of(KEY_TRIAL_ID, value) {
            Ok(id) => r == Ok::<TrialId, EnvVarError>(TrialId(id)),
            Err(e) => r == Err::<TrialId, EnvVarError>(e),
        },
{
    match parse_id(KEY_TRIAL_ID, value) {
        Ok(id) => Ok(TrialId::new(id)),
        Err(e) => Err(e),
    }
}

/// The observation that a worker works on, from the value of
/// `HONE_OBSERVATION_ID`; none stands for a variable that is not set.
pub fn get_observation_id(value: Option<&str>) -> (r: Result<ObservationId, EnvVarError>)
    ensures
        match id_of(KEY_OBSERVATION_ID, value) {
            Ok(id) => r == Ok::<ObservationId, EnvVarError>(ObservationId(id)),
            Err(e) => r == Err::<ObservationId, EnvVarError>(e),
        },
{
    match parse_id(KEY_OBSERVATION_ID, value) {
        Ok(id) => Ok(ObservationId::new(id)),
        Err(e) => Err(e),
    }
}

/// The value of a variable that must be set.
pub fn get_string(key: &'static str, value: Option<String>) -> (r: Result<String, EnvVarError>)
    ensures
        match value {
            Some(v) => r == Ok::<String, EnvVarError>(v),
            None => r == Err::<String, EnvVarError>(EnvVarError::NotFound { key }),
        },
{
    match value {
        Some(v) => Ok(v),
        None => Err(EnvVarError::NotFound { key }),
    }
}

} // verus!
