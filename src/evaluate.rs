//! The date resolver under its evaluation-side name.

use vstd::prelude::*;
use crate::date::CivilDate;
use crate::mapper::{arg_to_time, date_result_view, resolved_date, InputError};

verus! {

/// Resolves a loosely written date against the current date `today`, exactly
/// as `arg_to_time` does.
pub fn get_time(date_str: &str, today: CivilDate) -> (r: Result<CivilDate, InputError>)
    requires
        today.wf(),
    ensures
        date_result_view(r) == resolved_date(date_str@, today),
        r is Ok ==> r->Ok_0.wf(),
{
    arg_to_time(date_str, today)
}

} // verus!
