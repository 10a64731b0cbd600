//! Wall-clock timestamps for new records.

use vstd::prelude::*;

verus! {

/// Relies on chrono's `Local::now` and its strftime-style formatter: the
/// current local time rendered as `YYYY-MM-DD HH:MM:SS.mmm`. The format
/// string holds literal separators, so the result is never empty; nothing
/// more is assumed of a clock reading.
#[verifier::external_body]
pub(crate) fn now_timestamp() -> (r: String)
    ensures
        r@.len() > 0,
{
    chrono::Local::now().format("%Y-%m-%d %H:%M:%S%.3f").to_string()
}

} // verus!
