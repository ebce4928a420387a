use vstd::prelude::*;
use crate::chart::align::DaySlot;
use crate::chart::duplicates::DuplicateGroup;
use crate::chart::trend::TrendSummary;
use crate::chart::window::DateWindow;

verus! {

/// Everything the chart view needs, composed from the window, the
/// gap-filled series, the duplicate warnings and the trend. A pure
/// value object handed to the presentation layer; `trend` is `None`
/// when too little data exists for a slope and the caller chose to
/// render without one.
pub struct ChartViewModel {
    pub window: DateWindow,
    pub day_slots: Vec<DaySlot>,
    pub duplicates: Vec<DuplicateGroup>,
    pub trend: Option<TrendSummary>,
}

/// Composes the chart view model. Pure composition: every part is
/// carried over unchanged, and nothing can fail.
pub fn assemble(
    window: DateWindow,
    day_slots: Vec<DaySlot>,
    duplicates: Vec<DuplicateGroup>,
    trend: Option<TrendSummary>,
) -> (r: ChartViewModel)
    ensures
        r.window == window,
        r.day_slots == day_slots,
        r.duplicates == duplicates,
        r.trend == trend,
{
    ChartViewModel { window, day_slots, duplicates, trend }
}

} // verus!
