use vstd::prelude::*;
use crate::date::Date;
use crate::domain::user::UserId;
use crate::error::ApiError;

verus! {

/// One persisted weight row: who, when (as the local calendar day), and
/// how many kilograms.
pub struct Weight {
    pub weight_id: WeightId,
    pub user_id: UserId,
    pub date: Date,
    pub kilograms: Kilograms,
}

/// Identifier of a weight row.
#[derive(Debug, Clone, Copy, PartialEq, Eq, Structural)]
pub struct WeightId {
    value: i64,
}

impl WeightId {
    pub closed spec fn spec_value(&self) -> i64 {
        self.value
    }

    pub fn new(value: i64) -> (r: Self)
        ensures
            r.spec_value() == value,
    {
        Self { value }
    }

    #[verifier::when_used_as_spec(spec_value)]
    pub fn value(&self) -> (r: i64)
        ensures
            r == self.spec_value(),
    {
        self.value
    }
}

/// A mass in thousandths of a kilogram. Never negative: construction
/// rejects a negative value before a `Kilograms` can exist.
#[derive(Debug, Clone, Copy, PartialEq, Eq, Structural)]
pub struct Kilograms {
    milli: i64,
}

impl Kilograms {
    pub closed spec fn spec_milli(&self) -> i64 {
        self.milli
    }

    pub fn new(value: i64) -> (r: Result<Kilograms, ApiError>)
        ensures
            value < 0 ==> (r matches Err(e) && e == ApiError::NegativeWeight),
            value >= 0 ==> (r matches Ok(w) && w.spec_milli() == value),
    {
        if value < 0 {
            return Err(ApiError::NegativeWeight);
        }
        Ok(Kilograms { milli: value })
    }

    #[verifier::when_used_as_spec(spec_milli)]
    pub fn milli(&self) -> (r: i64)
        ensures
            r == self.spec_milli(),
    {
        self.milli
    }
}

} // verus!
