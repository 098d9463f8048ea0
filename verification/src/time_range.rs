use vstd::prelude::*;

verus! {

/// The bucket granularity that tags a candle series. A pure tag: it has no
/// behavior of its own.
#[derive(Clone, Copy, PartialEq, Eq, Structural, Debug)]
pub enum TimeRange {
    Second,
    FiveMinute,
    Minute,
    Hour,
    Day,
    Month,
}

} // verus!
