use vstd::prelude::*;
use vstd::string::StringExecFns;

verus! {

/// Error kinds surfaced by the library and by the request handlers around
/// it. Every failure is a value-based return; nothing here panics.
#[derive(Debug, Clone, PartialEq, Eq)]
pub enum ApiError {
    UserNotFound,
    MandatoryUserId,
    MandatoryStartDate,
    MandatoryEndDate,
    InvalidUserId,
    InvalidDateTime,
    NegativeWeight,
    WeightNotFound,
    ImpedanceNotFound,
    UnsupportedMediaType,
    /// A trend was requested over too few observations, or over
    /// observations whose regression denominator is zero.
    InsufficientData,
    /// An unexpected failure from a collaborator, carried as its message.
    Unexpected(String),
}

impl ApiError {
    /// The HTTP status code that a response for this error carries.
    pub open spec fn status_spec(&self) -> u16 {
        match self {
            ApiError::UserNotFound => 404,
            ApiError::MandatoryUserId => 400,
            ApiError::MandatoryStartDate => 400,
            ApiError::MandatoryEndDate => 400,
            ApiError::InvalidUserId => 400,
            ApiError::InvalidDateTime => 400,
            ApiError::NegativeWeight => 400,
            ApiError::WeightNotFound => 404,
            ApiError::ImpedanceNotFound => 404,
            ApiError::UnsupportedMediaType => 415,
            ApiError::InsufficientData => 400,
            ApiError::Unexpected(_) => 500,
        }
    }

    pub fn status_code(&self) -> (r: u16)
        ensures
            r == self.status_spec(),
    {
        match self {
            ApiError::UserNotFound => 404,
            ApiError::MandatoryUserId => 400,
            ApiError::MandatoryStartDate => 400,
            ApiError::MandatoryEndDate => 400,
            ApiError::InvalidUserId => 400,
            ApiError::InvalidDateTime => 400,
            ApiError::NegativeWeight => 400,
            ApiError::WeightNotFound => 404,
            ApiError::ImpedanceNotFound => 404,
            ApiError::UnsupportedMediaType => 415,
            ApiError::InsufficientData => 400,
            ApiError::Unexpected(_) => 500,
        }
    }

    /// The user-facing message that a response for this error carries.
    pub open spec fn message_spec(&self) -> Seq<char> {
        match self {
            ApiError::UserNotFound => "User not found"@,
            ApiError::MandatoryUserId => "Query parameter user_id is mandatory"@,
            ApiError::MandatoryStartDate => "Query parameter start_date is mandatory"@,
            ApiError::MandatoryEndDate => "Query parameter end_date is mandatory"@,
            ApiError::InvalidUserId => "user_id must be valid"@,
            ApiError::InvalidDateTime => "date_time must be a valid date"@,
            ApiError::NegativeWeight => "Weight cannot be negative"@,
            ApiError::WeightNotFound => "Weight not found"@,
            ApiError::ImpedanceNotFound => "Impedance not found"@,
            ApiError::UnsupportedMediaType => "media type not supported"@,
            ApiError::InsufficientData => "Not enough data for a trend"@,
            ApiError::Unexpected(_) => "Internal server error"@,
        }
    }

    pub fn message(&self) -> (r: String)
        ensures
            r@ == self.message_spec(),
    {
        match self {
            ApiError::UserNotFound => String::from_str("User not found"),
            ApiError::MandatoryUserId => String::from_str("Query parameter user_id is mandatory"),
            ApiError::MandatoryStartDate => String::from_str(
                "Query parameter start_date is mandatory",
            ),
            ApiError::MandatoryEndDate => String::from_str("Query parameter end_date is mandatory"),
            ApiError::InvalidUserId => String::from_str("user_id must be valid"),
            ApiError::InvalidDateTime => String::from_str("date_time must be a valid date"),
            ApiError::NegativeWeight => String::from_str("Weight cannot be negative"),
            ApiError::WeightNotFound => String::from_str("Weight not found"),
            ApiError::ImpedanceNotFound => String::from_str("Impedance not found"),
            ApiError::UnsupportedMediaType => String::from_str("media type not supported"),
            ApiError::InsufficientData => String::from_str("Not enough data for a trend"),
            ApiError::Unexpected(_) => String::from_str("Internal server error"),
        }
    }
}

} // verus!
