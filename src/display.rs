//! Arithmetic behind what the screens show.
use vstd::prelude::*;

verus! {

/// `ms` milliseconds as whole hours, the minutes left over, and the seconds
/// left over after those.
pub fn hours_mins_secs(ms: u64) -> (r: (u64, u64, u64))
    ensures
        r.0 == ms / 3_600_000,
        r.1 == (ms % 3_600_000) / 60_000,
        r.2 == (ms % 60_000) / 1000,
        r.1 < 60,
        r.2 < 60,
{
    (ms / 3_600_000, (ms % 3_600_000) / 60_000, (ms % 60_000) / 1000)
}

/// How many items a list of `height` rows skips so that the item at
/// `selected` shows: none while it fits, else enough to put it on the last
/// row.
pub fn scroll_offset(selected: usize, height: usize) -> (r: usize)
    requires
        selected < usize::MAX,
    ensures
        selected < height ==> r == 0,
        selected >= height ==> r == selected - height + 1,
{
    if selected >= height {
        selected - height + 1
    } else {
        0
    }
}

} // verus!
