//! Asking for the value of a parameter.

use vstd::prelude::*;
use crate::error::Error;
use crate::param::{
    continuous_error, discrete_error, fidelity_error, normal_error, CategoricalParamType,
    ContinousParamType, DiscreteParamType, FidelityParamType, NormalParamType, NumParamType,
    OrdinalParamType, ParamName, ParamType, ParamTypeView, StrParamType,
};
use crate::rpc::AskReq;
use crate::trial::ObservationId;
use crate::types::clone_strings;

verus! {

/// The grid of a range: its step, and the upper end of the range moved down
/// onto the grid, which is the lower end plus the largest whole number of
/// steps that fits into the range.
#[derive(Debug, Clone, Copy, PartialEq, Eq, Structural)]
pub struct Grid {
    pub step: u64,
    pub snapped: u64,
}

/// The description of a parameter as a worker gives it. Numbers are given
/// by their encodings.
#[derive(Debug)]
pub enum ParamSpec {
    /// One of `false` and `true`.
    Bool,
    /// One of a list of choices.
    Choice { choices: Vec<String>, ordinal: bool },
    /// A number of a range, on a grid where there is one.
    Range { min: u64, max: u64, ln: bool, grid: Option<Grid>, fidelity: bool },
    /// A normally distributed number.
    Normal { mean: u64, stddev: u64 },
}

/// The step of a grid, if there is a grid.
pub open spec fn step_of(grid: Option<Grid>) -> Option<u64> {
    match grid {
        Some(g) => Some(g.step),
        None => None,
    }
}

/// The upper end that a range from somewhere up to `max` ends at: the one
/// moved onto the grid where there is a grid, `max` itself otherwise.
pub open spec fn top_of(max: u64, grid: Option<Grid>) -> u64 {
    match grid {
        Some(g) => g.snapped,
        None => max,
    }
}

/// The two choices of a parameter that is true or false.
pub open spec fn bool_choices(choices: Seq<String>) -> bool {
    choices.len() == 2 && choices[0]@ == "false"@ && choices[1]@ == "true"@
}

impl ParamSpec {
    /// What is wrong with the description, if anything.
    pub open spec fn error(&self) -> Option<Error> {
        match self {
            ParamSpec::Bool => None,
            ParamSpec::Choice { choices, .. } => if choices@.len() == 0 {
                Some(Error::EmptyList)
            } else {
                None
            },
            ParamSpec::Normal { mean, stddev } => normal_error(*mean, *stddev),
            ParamSpec::Range { min, max, ln, grid, fidelity } => if *fidelity {
                if *ln {
                    if grid is Some {
                        Some(Error::LnWithStep)
                    } else {
                        Some(Error::LnWithFidelity)
                    }
                } else {
                    fidelity_error(*min, *max, step_of(*grid), top_of(*max, *grid))
                }
            } else {
                match grid {
                    None => continuous_error(*min, *max, *ln),
                    Some(g) => if *ln {
                        Some(Error::LnWithStep)
                    } else {
                        discrete_error(*min, *max, g.step, g.snapped)
                    },
                }
            },
        }
    }

    /// Whether `ty` is the type that the description stands for: a
    /// categorical type for a truth value and for choices without order,
    /// an ordinal type for choices with order; for a range a fidelity where
    /// it is marked as one, else a grid where it has one, else a
    /// continuous type. The range of a type with a grid ends at the upper
    /// end moved onto the grid.
    pub open spec fn describes(&self, ty: ParamTypeView) -> bool {
        match self {
            ParamSpec::Bool => ty matches ParamTypeView::Categorical(c) && bool_choices(c),
            ParamSpec::Choice { choices, ordinal } => if *ordinal {
                ty == ParamTypeView::Ordinal(choices@)
            } else {
                ty == ParamTypeView::Categorical(choices@)
            },
            ParamSpec::Normal { mean, stddev } => ty matches ParamTypeView::Num(
                NumParamType::Normal(t),
            ) && t.mean.bits() == *mean && t.stddev.bits() == *stddev,
            ParamSpec::Range { min, max, ln, grid, fidelity } => if *fidelity {
                ty matches ParamTypeView::Num(NumParamType::Fidelity(t))
                    && t.spec_range().spec_min().bits() == *min && t.spec_range().spec_max().bits()
                    == top_of(*max, *grid) && match grid {
                    Some(g) => t.spec_step() is Some && t.spec_step().unwrap().bits() == g.step,
                    None => t.spec_step() is None,
                }
            } else {
                match grid {
                    None => ty matches ParamTypeView::Num(NumParamType::Continous(t))
                        && t.spec_range().spec_min().bits() == *min
                        && t.spec_range().spec_max().bits() == *max && t.spec_ln() == *ln,
                    Some(g) => ty matches ParamTypeView::Num(NumParamType::Discrete(t))
                        && t.spec_range().spec_min().bits() == *min
                        && t.spec_range().spec_max().bits() == g.snapped && t.spec_step().bits()
                        == g.step,
                }
            },
        }
    }

    /// The type that the description stands for.
    pub fn to_param_type(&self) -> (r: Result<ParamType, Error>)
        ensures
            match self.error() {
                Some(e) => r == Err::<ParamType, Error>(e),
                None => r is Ok && self.describes(r.unwrap()@),
            },
    {
        match self {
            ParamSpec::Bool => {
                let mut choices: Vec<String> = Vec::new();
                choices.push("false".to_owned());
                choices.push("true".to_owned());
                match CategoricalParamType::new(choices) {
                    Ok(t) => Ok(ParamType::Str(StrParamType::Categorical(t))),
                    Err(e) => Err(e),
                }
            },
            ParamSpec::Choice { choices, ordinal } => {
                let copy = clone_strings(choices.as_slice());
                if *ordinal {
                    match OrdinalParamType::new(copy) {
                        Ok(t) => Ok(ParamType::Str(StrParamType::Ordinal(t))),
                        Err(e) => Err(e),
                    }
                } else {
                    match CategoricalParamType::new(copy) {
                        Ok(t) => Ok(ParamType::Str(StrParamType::Categorical(t))),
                        Err(e) => Err(e),
                    }
                }
            },
            ParamSpec::Normal { mean, stddev } => match NormalParamType::new(*mean, *stddev) {
                Ok(t) => Ok(ParamType::Num(NumParamType::Normal(t))),
                Err(e) => Err(e),
            },
            ParamSpec::Range { min, max, ln, grid, fidelity } => {
                if *ln && grid.is_some() {
                    return Err(Error::LnWithStep);
                }
                if *ln && *fidelity {
                    return Err(Error::LnWithFidelity);
                }
                if *fidelity {
                    let made = match grid {
                        Some(g) => FidelityParamType::new(*min, *max, Some(g.step), g.snapped),
                        None => FidelityParamType::new(*min, *max, None, *max),
                    };
                    return match made {
                        Ok(t) => Ok(ParamType::Num(NumParamType::Fidelity(t))),
                        Err(e) => Err(e),
                    };
                }
                match grid {
                    Some(g) => match DiscreteParamType::new(*min, *max, g.step, g.snapped) {
                        Ok(t) => Ok(ParamType::Num(NumParamType::Discrete(t))),
                        Err(e) => Err(e),
                    },
                    None => match ContinousParamType::new(*min, *max, *ln) {
                        Ok(t) => Ok(ParamType::Num(NumParamType::Continous(t))),
                        Err(e) => Err(e),
                    },
                }
            },
        }
    }
}

/// The options of a request for a parameter.
#[derive(Debug)]
pub struct AskOpt {
    pub param_name: String,
    /// Whether the answer is to be given as a command line option.
    pub long_option: bool,
    pub param_spec: ParamSpec,
}

impl AskOpt {
    /// The request that asks for the parameter on behalf of observation
    /// `observation_id`. A description that is wrong is an error.
    pub fn ask(&self, observation_id: ObservationId) -> (r: Result<AskReq, Error>)
        ensures
            match self.param_spec.error() {
                Some(e) => r is Err && r->Err_0 == e,
                None => r is Ok && r->Ok_0.observation_id == observation_id
                    && r->Ok_0.param_name.0 == self.param_name && self.param_spec.describes(
                    r->Ok_0.param_type@,
                ),
            },
    {
        match self.param_spec.to_param_type() {
            Ok(param_type) => Ok(
                AskReq {
                    observation_id,
                    param_name: ParamName::new(self.param_name.clone()),
                    param_type,
                },
            ),
            Err(e) => Err(e),
        }
    }
}

} // verus!
