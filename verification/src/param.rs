//! Parameters: the types a worker may ask for and the values it is given.

use vstd::prelude::*;
use crate::error::Error;
use crate::types::{
    is_finite, is_negative, lemma_width_within, order_key, range_error, FiniteF64,
    InclusiveRange, NonEmptyVec, NonNegF64,
};

verus! {

/// The name of a parameter.
#[derive(Debug)]
pub struct ParamName(pub String);

impl ParamName {
    pub fn new(name: String) -> (r: Self)
        ensures
            r.0 == name,
    {
        Self(name)
    }

    pub fn get(&self) -> (r: &str)
        ensures
            r@ == self.0@,
    {
        self.0.as_str()
    }
}

/// A parameter that takes one of a list of unordered choices.
#[derive(Debug)]
pub struct CategoricalParamType {
    choices: NonEmptyVec<String>,
}

impl View for CategoricalParamType {
    type V = Seq<String>;

    closed spec fn view(&self) -> Seq<String> {
        self.choices@
    }
}

impl CategoricalParamType {
    /// Accepts every list of choices but the empty one.
    pub fn new(choices: Vec<String>) -> (r: Result<Self, Error>)
        ensures
            choices@.len() > 0 ==> (r matches Ok(t) && t@ == choices@),
            choices@.len() == 0 ==> (r matches Err(e) && e == Error::EmptyList),
    {
        match NonEmptyVec::new(choices) {
            Ok(choices) => Ok(Self { choices }),
            Err(e) => Err(e),
        }
    }

    pub fn choices(&self) -> (r: &NonEmptyVec<String>)
        ensures
            r@ == self@,
    {
        &self.choices
    }

    pub fn duplicate(&self) -> (r: Self)
        ensures
            r@ == self@,
    {
        Self { choices: self.choices.duplicate() }
    }
}

/// A parameter that takes one of a list of choices whose order matters.
#[derive(Debug)]
pub struct OrdinalParamType {
    choices: NonEmptyVec<String>,
}

impl View for OrdinalParamType {
    type V = Seq<String>;

    closed spec fn view(&self) -> Seq<String> {
        self.choices@
    }
}

impl OrdinalParamType {
    /// Accepts every list of choices but the empty one.
    pub fn new(choices: Vec<String>) -> (r: Result<Self, Error>)
        ensures
            choices@.len() > 0 ==> (r matches Ok(t) && t@ == choices@),
            choices@.len() == 0 ==> (r matches Err(e) && e == Error::EmptyList),
    {
        match NonEmptyVec::new(choices) {
            Ok(choices) => Ok(Self { choices }),
            Err(e) => Err(e),
        }
    }

    pub fn choices(&self) -> (r: &NonEmptyVec<String>)
        ensures
            r@ == self@,
    {
        &self.choices
    }

    pub fn duplicate(&self) -> (r: Self)
        ensures
            r@ == self@,
    {
        Self { choices: self.choices.duplicate() }
    }
}

/// The types of parameters whose values are strings.
#[derive(Debug)]
pub enum StrParamType {
    Categorical(CategoricalParamType),
    Ordinal(OrdinalParamType),
}

/// What is wrong with the description of a continuous parameter, if
/// anything: its range, or a logarithmic scale that does not start above
/// zero.
pub open spec fn continuous_error(min: u64, max: u64, ln: bool) -> Option<Error> {
    if range_error(min, max) is Some {
        range_error(min, max)
    } else if ln && order_key(min) <= 0 {
        Some(Error::NonPositiveLogRange)
    } else {
        None
    }
}

/// A parameter that ranges over an interval, on a linear or a logarithmic
/// scale.
#[derive(Debug, Clone, Copy)]
pub struct ContinousParamType {
    range: InclusiveRange,
    ln: bool,
}

impl ContinousParamType {
    #[verifier::type_invariant]
    spec fn inv(self) -> bool {
        self.ln ==> self.range.spec_min().key() > 0
    }

    pub closed spec fn spec_range(&self) -> InclusiveRange {
        self.range
    }

    pub closed spec fn spec_ln(&self) -> bool {
        self.ln
    }

    /// Accepts the ends of a range; a logarithmic scale needs a lower end
    /// above zero.
    pub fn new(min: u64, max: u64, ln: bool) -> (r: Result<Self, Error>)
        ensures
            match continuous_error(min, max, ln) {
                Some(e) => r == Err::<Self, Error>(e),
                None => r is Ok && r.unwrap().spec_range().spec_min().bits() == min
                    && r.unwrap().spec_range().spec_max().bits() == max && r.unwrap().spec_ln()
                    == ln,
            },
    {
        let range = match InclusiveRange::new(min, max) {
            Ok(x) => x,
            Err(e) => {
                return Err(e);
            },
        };
        if ln && !range.min().is_positive() {
            return Err(Error::NonPositiveLogRange);
        }
        Ok(Self { range, ln })
    }

    #[verifier::when_used_as_spec(spec_range)]
    pub fn range(&self) -> (r: InclusiveRange)
        ensures
            r == self.spec_range(),
    {
        self.range
    }

    /// Whether the scale is logarithmic; on such a scale the lower end lies
    /// above zero.
    #[verifier::when_used_as_spec(spec_ln)]
    pub fn ln(&self) -> (r: bool)
        ensures
            r == self.spec_ln(),
            r ==> self.spec_range().spec_min().key() > 0,
    {
        proof {
            use_type_invariant(self);
        }
        self.ln
    }
}

/// What is wrong with a pair of mean and standard deviation, if anything.
pub open spec fn normal_error(mean: u64, stddev: u64) -> Option<Error> {
    if !is_finite(mean) || !is_finite(stddev) {
        Some(Error::NotFinite)
    } else if is_negative(stddev) {
        Some(Error::Negative)
    } else {
        None
    }
}

/// A parameter drawn from a normal distribution.
#[derive(Debug, Clone, Copy)]
pub struct NormalParamType {
    pub mean: FiniteF64,
    pub stddev: NonNegF64,
}

impl NormalParamType {
    /// Accepts a finite mean and a finite standard deviation without a
    /// minus sign.
    pub fn new(mean: u64, stddev: u64) -> (r: Result<Self, Error>)
        ensures
            match normal_error(mean, stddev) {
                Some(e) => r == Err::<Self, Error>(e),
                None => r is Ok && r.unwrap().mean.bits() == mean && r.unwrap().stddev.bits()
                    == stddev,
            },
    {
        let mean = match FiniteF64::new(mean) {
            Ok(x) => x,
            Err(e) => {
                return Err(e);
            },
        };
        let stddev = match NonNegF64::new(stddev) {
            Ok(x) => x,
            Err(e) => {
                return Err(e);
            },
        };
        Ok(Self { mean, stddev })
    }

    pub fn mean(&self) -> (r: FiniteF64)
        ensures
            r == self.mean,
    {
        self.mean
    }

    pub fn stddev(&self) -> (r: NonNegF64)
        ensures
            r == self.stddev,
    {
        self.stddev
    }
}

/// What is wrong with a step, if anything: it must be a finite number
/// above zero.
pub open spec fn step_error(step: u64) -> Option<Error> {
    if !is_finite(step) {
        Some(Error::NotFinite)
    } else if is_negative(step) {
        Some(Error::Negative)
    } else if step == 0 {
        Some(Error::ZeroStep)
    } else {
        None
    }
}

/// What is wrong with the upper end of a range after it was moved down onto
/// a grid, if anything: it must be a finite number within the range.
pub open spec fn snapped_error(min: u64, max: u64, snapped: u64) -> Option<Error> {
    if !is_finite(snapped) {
        Some(Error::NotFinite)
    } else if order_key(snapped) < order_key(min) || order_key(max) < order_key(snapped) {
        Some(Error::OffRange)
    } else {
        None
    }
}

/// What is wrong with the upper end of a range that has no grid, if
/// anything: it must be the upper end itself.
pub open spec fn unsnapped_error(max: u64, snapped: u64) -> Option<Error> {
    if !is_finite(snapped) {
        Some(Error::NotFinite)
    } else if order_key(snapped) != order_key(max) {
        Some(Error::OffRange)
    } else {
        None
    }
}

/// What is wrong with the description of a grid, if anything: its range
/// first, then its step, then its snapped upper end.
pub open spec fn discrete_error(min: u64, max: u64, step: u64, snapped: u64) -> Option<Error> {
    if range_error(min, max) is Some {
        range_error(min, max)
    } else if step_error(step) is Some {
        step_error(step)
    } else {
        snapped_error(min, max, snapped)
    }
}

fn check_step(step: u64) -> (r: Result<NonNegF64, Error>)
    ensures
        match step_error(step) {
            Some(e) => r == Err::<NonNegF64, Error>(e),
            None => r is Ok && r.unwrap().bits() == step,
        },
{
    let step = match NonNegF64::new(step) {
        Ok(x) => x,
        Err(e) => {
            return Err(e);
        },
    };
    if step.is_zero() {
        return Err(Error::ZeroStep);
    }
    Ok(step)
}

/// The range from `min` to `snapped`, where `snapped` lies within the range
/// from `min` to `max`.
fn snapped_range(min: u64, max: u64, snapped: u64) -> (r: Result<InclusiveRange, Error>)
    requires
        range_error(min, max) is None,
    ensures
        match snapped_error(min, max, snapped) {
            Some(e) => r == Err::<InclusiveRange, Error>(e),
            None => r is Ok && r.unwrap().spec_min().bits() == min && r.unwrap().spec_max().bits()
                == snapped,
        },
{
    let top = match FiniteF64::new(snapped) {
        Ok(x) => x,
        Err(e) => {
            return Err(e);
        },
    };
    let low = match FiniteF64::new(min) {
        Ok(x) => x,
        Err(e) => {
            return Err(e);
        },
    };
    let high = match FiniteF64::new(max) {
        Ok(x) => x,
        Err(e) => {
            return Err(e);
        },
    };
    if top.lt(low) || high.lt(top) {
        return Err(Error::OffRange);
    }
    proof {
        lemma_width_within(min, snapped, max);
    }
    InclusiveRange::new(min, snapped)
}

/// The range from `min` to `snapped`, where `snapped` is `max` itself.
fn unsnapped_range(min: u64, max: u64, snapped: u64) -> (r: Result<InclusiveRange, Error>)
    requires
        range_error(min, max) is None,
    ensures
        match unsnapped_error(max, snapped) {
            Some(e) => r == Err::<InclusiveRange, Error>(e),
            None => r is Ok && r.unwrap().spec_min().bits() == min && r.unwrap().spec_max().bits()
                == snapped,
        },
{
    let top = match FiniteF64::new(snapped) {
        Ok(x) => x,
        Err(e) => {
            return Err(e);
        },
    };
    let high = match FiniteF64::new(max) {
        Ok(x) => x,
        Err(e) => {
            return Err(e);
        },
    };
    if !top.same(high) {
        return Err(Error::OffRange);
    }
    proof {
        lemma_width_within(min, snapped, max);
    }
    InclusiveRange::new(min, snapped)
}

/// A parameter that takes the values of a grid: the lower end of a range
/// plus a whole number of steps.
///
/// The range of the type ends on the grid: its upper end is the upper end
/// asked for, moved down onto the grid, which is the lower end plus the
/// largest whole number of steps that fits into the range. Finding that
/// number is arithmetic on the numbers themselves, so the moved upper end
/// is handed in beside the one asked for.
#[derive(Debug, Clone, Copy)]
pub struct DiscreteParamType {
    range: InclusiveRange,
    step: NonNegF64,
}

impl DiscreteParamType {
    #[verifier::type_invariant]
    spec fn inv(self) -> bool {
        self.step.key() > 0
    }

    pub closed spec fn spec_range(&self) -> InclusiveRange {
        self.range
    }

    pub closed spec fn spec_step(&self) -> NonNegF64 {
        self.step
    }

    /// Accepts the ends of a range, a step above zero, and the upper end
    /// moved down onto the grid, which must lie within the range. The
    /// range of the type runs from the lower end to the moved upper end.
    pub fn new(min: u64, max: u64, step: u64, snapped: u64) -> (r: Result<Self, Error>)
        ensures
            match discrete_error(min, max, step, snapped) {
                Some(e) => r == Err::<Self, Error>(e),
                None => r is Ok && r.unwrap().spec_range().spec_min().bits() == min
                    && r.unwrap().spec_range().spec_max().bits() == snapped
                    && r.unwrap().spec_step().bits() == step,
            },
    {
        match InclusiveRange::new(min, max) {
            Ok(_) => {},
            Err(e) => {
                return Err(e);
            },
        }
        let step = match check_step(step) {
            Ok(x) => x,
            Err(e) => {
                return Err(e);
            },
        };
        let range = match snapped_range(min, max, snapped) {
            Ok(x) => x,
            Err(e) => {
                return Err(e);
            },
        };
        Ok(Self { range, step })
    }

    /// The range of the grid, from its lower end to its last point.
    #[verifier::when_used_as_spec(spec_range)]
    pub fn range(&self) -> (r: InclusiveRange)
        ensures
            r == self.spec_range(),
    {
        self.range
    }

    /// The step, which lies above zero.
    #[verifier::when_used_as_spec(spec_step)]
    pub fn step(&self) -> (r: NonNegF64)
        ensures
            r == self.spec_step(),
            r.key() > 0,
    {
        proof {
            use_type_invariant(self);
        }
        self.step
    }
}

/// What is wrong with the description of a fidelity, if anything: its
/// range first, then its step where it has one, then its upper end, which
/// must lie within the range where there is a step and be the upper end
/// itself where there is none.
pub open spec fn fidelity_error(min: u64, max: u64, step: Option<u64>, snapped: u64) -> Option<
    Error,
> {
    if range_error(min, max) is Some {
        range_error(min, max)
    } else {
        match step {
            Some(s) => if step_error(s) is Some {
                step_error(s)
            } else {
                snapped_error(min, max, snapped)
            },
            None => unsnapped_error(max, snapped),
        }
    }
}

/// A parameter that stands for a budget: the upper end of its range means
/// a full evaluation.
///
/// Where the fidelity has a step, its range ends on the grid of the step,
/// as the range of a grid does; where it has none, its range is the range
/// asked for.
#[derive(Debug, Clone, Copy)]
pub struct FidelityParamType {
    range: InclusiveRange,
    step: Option<NonNegF64>,
}

impl FidelityParamType {
    #[verifier::type_invariant]
    spec fn inv(self) -> bool {
        self.step matches Some(s) ==> s.key() > 0
    }

    pub closed spec fn spec_range(&self) -> InclusiveRange {
        self.range
    }

    pub closed spec fn spec_step(&self) -> Option<NonNegF64> {
        self.step
    }

    /// Accepts the ends of a range, a step above zero if there is one, and
    /// the effective upper end: with a step, the upper end moved down onto
    /// the grid, which must lie within the range; without, the upper end
    /// itself. The range of the type runs from the lower end to the
    /// effective upper end.
    pub fn new(min: u64, max: u64, step: Option<u64>, snapped: u64) -> (r: Result<Self, Error>)
        ensures
            match fidelity_error(min, max, step, snapped) {
                Some(e) => r == Err::<Self, Error>(e),
                None => r is Ok && r.unwrap().spec_range().spec_min().bits() == min
                    && r.unwrap().spec_range().spec_max().bits() == snapped && match step {
                    Some(s) => r.unwrap().spec_step() is Some && r.unwrap().spec_step().unwrap().bits()
                        == s,
                    None => r.unwrap().spec_step() is None,
                },
            },
    {
        match InclusiveRange::new(min, max) {
            Ok(_) => {},
            Err(e) => {
                return Err(e);
            },
        }
        match step {
            Some(s) => {
                let step = match check_step(s) {
                    Ok(x) => x,
                    Err(e) => {
                        return Err(e);
                    },
                };
                match snapped_range(min, max, snapped) {
                    Ok(range) => Ok(Self { range, step: Some(step) }),
                    Err(e) => Err(e),
                }
            },
            None => match unsnapped_range(min, max, snapped) {
                Ok(range) => Ok(Self { range, step: None }),
                Err(e) => Err(e),
            },
        }
    }

    /// The range of the fidelity; its upper end means a full evaluation.
    #[verifier::when_used_as_spec(spec_range)]
    pub fn range(&self) -> (r: InclusiveRange)
        ensures
            r == self.spec_range(),
    {
        self.range
    }

    #[verifier::when_used_as_spec(spec_step)]
    pub fn step(&self) -> (r: Option<NonNegF64>)
        ensures
            r == self.spec_step(),
            r matches Some(s) ==> s.key() > 0,
    {
        proof {
            use_type_invariant(self);
        }
        self.step
    }
}

/// The types of parameters whose values are numbers.
#[derive(Debug, Clone, Copy)]
pub enum NumParamType {
    Continous(ContinousParamType),
    Discrete(DiscreteParamType),
    Normal(NormalParamType),
    Fidelity(FidelityParamType),
}

/// The type of a parameter.
#[derive(Debug)]
pub enum ParamType {
    Str(StrParamType),
    Num(NumParamType),
}

/// The model of a parameter type: lists of choices by their contents.
pub enum ParamTypeView {
    Categorical(Seq<String>),
    Ordinal(Seq<String>),
    Num(NumParamType),
}

impl View for ParamType {
    type V = ParamTypeView;

    open spec fn view(&self) -> ParamTypeView {
        match self {
            ParamType::Str(StrParamType::Categorical(t)) => ParamTypeView::Categorical(t@),
            ParamType::Str(StrParamType::Ordinal(t)) => ParamTypeView::Ordinal(t@),
            ParamType::Num(t) => ParamTypeView::Num(*t),
        }
    }
}

impl ParamType {
    pub fn duplicate(&self) -> (r: Self)
        ensures
            r@ == self@,
    {
        match self {
            ParamType::Str(StrParamType::Categorical(t)) => ParamType::Str(
                StrParamType::Categorical(t.duplicate()),
            ),
            ParamType::Str(StrParamType::Ordinal(t)) => ParamType::Str(
                StrParamType::Ordinal(t.duplicate()),
            ),
            ParamType::Num(t) => ParamType::Num(*t),
        }
    }
}

/// The value of a parameter: a string or a finite number.
#[derive(Debug)]
pub enum ParamValue {
    Str(String),
    Num(FiniteF64),
}

impl ParamValue {
    pub fn duplicate(&self) -> (r: Self)
        ensures
            r == *self,
    {
        match self {
            ParamValue::Str(s) => ParamValue::Str(s.clone()),
            ParamValue::Num(v) => ParamValue::Num(*v),
        }
    }
}

/// A parameter's value together with the type it was asked under.
#[derive(Debug)]
pub struct ParamInstance {
    pub ty: ParamType,
    pub value: ParamValue,
}

/// The model of a parameter instance.
pub struct ParamInstanceView {
    pub ty: ParamTypeView,
    pub value: ParamValue,
}

impl View for ParamInstance {
    type V = ParamInstanceView;

    open spec fn view(&self) -> ParamInstanceView {
        ParamInstanceView { ty: self.ty@, value: self.value }
    }
}

impl ParamInstanceView {
    /// For a fidelity: whether the value is the upper end of its range.
    /// For anything else: nothing.
    pub open spec fn max_fidelity(self) -> Option<bool> {
        match (self.ty, self.value) {
            (ParamTypeView::Num(NumParamType::Fidelity(ty)), ParamValue::Num(value)) => Some(
                ty.spec_range().spec_max().key() == value.key(),
            ),
            _ => None,
        }
    }
}

impl ParamInstance {
    pub fn new(ty: ParamType, value: ParamValue) -> (r: Self)
        ensures
            r.ty == ty,
            r.value == value,
    {
        Self { ty, value }
    }

    pub fn duplicate(&self) -> (r: Self)
        ensures
            r@ == self@,
    {
        Self { ty: self.ty.duplicate(), value: self.value.duplicate() }
    }

    /// For a fidelity: whether the value is the upper end of its range.
    pub fn is_max_fidelity(&self) -> (r: Option<bool>)
        ensures
            r == self@.max_fidelity(),
    {
        match &self.ty {
            ParamType::Num(NumParamType::Fidelity(ty)) => match &self.value {
                ParamValue::Num(value) => Some(ty.range().max().same(*value)),
                _ => None,
            },
            _ => None,
        }
    }
}

} // verus!
