use vstd::prelude::*;
use crate::clock::now_millis;

verus! {

/// One OHLCV candle: the open, high, low and close trade prices of a time
/// bucket, the cumulative matched quantity, and the instant (milliseconds
/// since the Unix epoch) at which the value was created. Prices are in whole
/// price units.
#[derive(Clone, Copy, PartialEq, Eq, Structural, Debug)]
pub struct Point {
    pub open: u32,
    pub high: u32,
    pub low: u32,
    pub close: u32,
    pub volume: u64,
    pub timestamp: i64,
}

impl Point {
    /// A candle stamped with the current instant.
    pub fn new(open: u32, high: u32, low: u32, close: u32, volume: u64) -> (r: Self)
        ensures
            r.open == open,
            r.high == high,
            r.low == low,
            r.close == close,
            r.volume == volume,
    {
        Point { open, high, low, close, volume, timestamp: now_millis() }
    }

    /// A candle with every field given by the caller.
    pub fn new_with_timestamp(
        open: u32,
        high: u32,
        low: u32,
        close: u32,
        volume: u64,
        timestamp: i64,
    ) -> (r: Self)
        ensures
            r == (Point { open, high, low, close, volume, timestamp }),
    {
        Point { open, high, low, close, volume, timestamp }
    }

    /// A zero-valued candle stamped with the current instant.
    pub fn blank() -> (r: Self)
        ensures
            r.open == 0,
            r.high == 0,
            r.low == 0,
            r.close == 0,
            r.volume == 0,
    {
        Point { open: 0, high: 0, low: 0, close: 0, volume: 0, timestamp: now_millis() }
    }

    pub fn borrow(&self) -> (r: &Self)
        ensures
            r == self,
    {
        self
    }
}

} // verus!
