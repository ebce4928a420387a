use vstd::prelude::*;
use crate::date::Date;
use crate::domain::user::UserId;
use crate::error::ApiError;

verus! {

/// The largest weight the library accounts for in its arithmetic:
/// 1 000 000 kg, carried as thousandths of a kilogram. Trend sums are
/// proved free of overflow for weights up to this bound.
pub const MAX_WEIGHT_MILLI: i64 = 1000000000;

/// The most observations a single trend computation accepts; the trend
/// sums are proved free of overflow up to this many.
pub const MAX_OBSERVATIONS: usize = 100000000;

/// One dated weight reading of a user: the local calendar day it was
/// taken on and its value. Rows arrive already filtered to one user and
/// ordered ascending by time of measurement.
pub struct Measurement {
    pub id: MeasurementId,
    pub user_id: UserId,
    pub date: Date,
    pub weight: Weight,
}

impl Measurement {
    /// A measurement the chart routines can work on: its day is a real
    /// calendar day and its weight lies in the supported range.
    pub open spec fn wf(&self) -> bool {
        self.date.valid() && 0 <= self.weight.spec_milli() <= MAX_WEIGHT_MILLI
    }
}

/// Identifier of a measurement row.
#[derive(Debug, Clone, Copy, PartialEq, Eq, Structural)]
pub struct MeasurementId {
    value: i64,
}

impl MeasurementId {
    pub closed spec fn spec_value(&self) -> i64 {
        self.value
    }

    pub fn new(value: i64) -> (r: Self)
        ensures
            r.spec_value() == value,
    {
        Self { value }
    }

    #[verifier::when_used_as_spec(spec_value)]
    pub fn value(&self) -> (r: i64)
        ensures
            r == self.spec_value(),
    {
        self.value
    }
}

/// A weight in thousandths of a kilogram. A weight is never negative:
/// construction rejects a negative value before a `Weight` can exist.
#[derive(Debug, Clone, Copy, PartialEq, Eq, Structural)]
pub struct Weight {
    milli: i64,
}

impl Weight {
    pub closed spec fn spec_milli(&self) -> i64 {
        self.milli
    }

    pub fn new(weight: i64) -> (r: Result<Weight, ApiError>)
        ensures
            weight < 0 ==> (r matches Err(e) && e == ApiError::NegativeWeight),
            weight >= 0 ==> (r matches Ok(w) && w.spec_milli() == weight),
    {
        if weight < 0 {
            return Err(ApiError::NegativeWeight);
        }
        Ok(Weight { milli: weight })
    }

    #[verifier::when_used_as_spec(spec_milli)]
    pub fn milli(&self) -> (r: i64)
        ensures
            r == self.spec_milli(),
    {
        self.milli
    }
}

} // verus!
