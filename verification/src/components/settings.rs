//! What the settings page decides for a capacity row.
use vstd::prelude::*;
use crate::handlers::settings::CalendarDate;

verus! {

/// The close-on-date form shows only for an open-ended row: one with no
/// period end.
pub fn close_form_shown(period_end: Option<CalendarDate>) -> (r: bool)
    ensures
        r == (period_end is None),
{
    period_end.is_none()
}

} // verus!
