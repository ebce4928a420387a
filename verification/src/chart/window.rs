use vstd::prelude::*;
use crate::date::{date_text_valid, parse_date, parsed_date, Date};
use crate::error::ApiError;

verus! {

/// The stretch of calendar days a chart request covers. The chart plots
/// one slot per day of the half-open range `[start, end)`: the `end` day
/// itself is left out, mirroring a walk that stops strictly before the
/// end bound.
#[derive(Debug, Clone, Copy, PartialEq, Eq, Structural)]
pub struct DateWindow {
    pub start: Date,
    pub end: Date,
}

impl DateWindow {
    pub open spec fn wf(&self) -> bool {
        self.start.valid() && self.end.valid()
    }

    /// The number of calendar days in `[start, end)`; zero when the
    /// bounds are out of order.
    pub open spec fn day_count(&self) -> int {
        if self.start.day_number() <= self.end.day_number() {
            self.end.day_number() - self.start.day_number()
        } else {
            0
        }
    }
}

/// Whether an optional `YYYY-MM-DD` parameter is acceptable: absent, or
/// present and spelling a valid calendar date.
pub open spec fn param_accepted(p: Option<&str>) -> bool {
    match p {
        Some(s) => date_text_valid(s@),
        None => true,
    }
}

/// The end day the resolver picks: the parsed parameter if present,
/// otherwise the present day.
pub open spec fn end_of_window(end_param: Option<&str>, today: Date) -> Date {
    match end_param {
        Some(s) => parsed_date(s@),
        None => today,
    }
}

/// The day number of the default start: thirty days before the end,
/// stopped at the first representable day.
pub open spec fn default_start_number(end: Date) -> int {
    if end.day_number() - 30 >= 1 {
        end.day_number() - 30
    } else {
        1
    }
}

/// Turns the optional `start-date` and `end-date` parameters of a chart
/// request into a calendar window.
///
/// The end is the parsed `end-date` if given, otherwise `today`; the
/// start is the parsed `start-date` if given, otherwise thirty days
/// before the end. A present parameter that is not a valid `YYYY-MM-DD`
/// date fails the request with `InvalidDateTime`. The bounds are not
/// reordered: a start after the end yields a window with no days.
pub fn resolve(start_param: Option<&str>, end_param: Option<&str>, today: Date) -> (r: Result<
    DateWindow,
    ApiError,
>)
    requires
        today.valid(),
    ensures
        r is Ok <==> param_accepted(start_param) && param_accepted(end_param),
        r matches Ok(w) ==> {
            &&& w.wf()
            &&& w.end == end_of_window(end_param, today)
            &&& (start_param matches Some(s) ==> w.start == parsed_date(s@))
            &&& (start_param is None ==> w.start.day_number() == default_start_number(w.end))
        },
        r matches Err(e) ==> e == ApiError::InvalidDateTime,
{
    let end: Date = match end_param {
        Some(s) => match parse_date(s) {
            Ok(d) => d,
            Err(e) => {
                return Err(e);
            },
        },
        None => today,
    };
    let start: Date = match start_param {
        Some(s) => match parse_date(s) {
            Ok(d) => d,
            Err(e) => {
                return Err(e);
            },
        },
        None => end.days_back(30),
    };
    Ok(DateWindow { start, end })
}

} // verus!
