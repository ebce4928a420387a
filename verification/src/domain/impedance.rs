use vstd::prelude::*;
use crate::date::Date;
use crate::domain::user::UserId;
use crate::error::ApiError;

verus! {

/// One persisted impedance row: who, when (as the local calendar day),
/// and the measured resistance.
pub struct Impedance {
    pub impedance_id: ImpedanceId,
    pub user_id: UserId,
    pub date: Date,
    pub ohms: Ohms,
}

/// Identifier of an impedance row.
#[derive(Debug, Clone, Copy, PartialEq, Eq, Structural)]
pub struct ImpedanceId {
    value: i64,
}

impl ImpedanceId {
    pub closed spec fn spec_value(&self) -> i64 {
        self.value
    }

    pub fn new(value: i64) -> (r: Self)
        ensures
            r.spec_value() == value,
    {
        Self { value }
    }

    #[verifier::when_used_as_spec(spec_value)]
    pub fn value(&self) -> (r: i64)
        ensures
            r == self.spec_value(),
    {
        self.value
    }
}

/// A resistance in thousandths of an ohm. Never negative: construction
/// rejects a negative value before an `Ohms` can exist.
#[derive(Debug, Clone, Copy, PartialEq, Eq, Structural)]
pub struct Ohms {
    milli: i64,
}

impl Ohms {
    pub closed spec fn spec_milli(&self) -> i64 {
        self.milli
    }

    pub fn new(value: i64) -> (r: Result<Ohms, ApiError>)
        ensures
            value < 0 ==> (r matches Err(e) && e == ApiError::NegativeWeight),
            value >= 0 ==> (r matches Ok(w) && w.spec_milli() == value),
    {
        if value < 0 {
            return Err(ApiError::NegativeWeight);
        }
        Ok(Ohms { milli: value })
    }

    #[verifier::when_used_as_spec(spec_milli)]
    pub fn milli(&self) -> (r: i64)
        ensures
            r == self.spec_milli(),
    {
        self.milli
    }
}

} // verus!
