//! The periodic timer tick's report.
use vstd::prelude::*;

verus! {

/// Every this many timer ticks the tick handler reports the tick count.
pub const TICK_REPORT_INTERVAL: u64 = 100;

/// Whether the tick handler reports the tick count at tick `ticks`: at every
/// multiple of `TICK_REPORT_INTERVAL`, tick 0 included.
pub fn should_report_ticks(ticks: u64) -> (r: bool)
    ensures
        r == (ticks % TICK_REPORT_INTERVAL == 0),
{
    ticks % TICK_REPORT_INTERVAL == 0
}

} // verus!
