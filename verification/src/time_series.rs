use vstd::prelude::*;
use crate::clock::now_millis;
use crate::point::Point;
use crate::time_range::TimeRange;

verus! {

/// Mathematical model of a candle series snapshot.
#[verifier::ext_equal]
pub struct TimeSeriesV {
    pub time_range_unit: TimeRange,
    pub start: i64,
    pub end: i64,
    pub data: Seq<Point>,
}

/// A snapshot of closed candles: the bucket granularity, the covering start
/// and end instants (milliseconds since the Unix epoch), and the ordered
/// candles themselves. A snapshot is replaced wholesale on each refresh,
/// never merged incrementally.
#[derive(Clone, Debug)]
pub struct TimeSeries {
    time_range_unit: TimeRange,
    start: i64,
    end: i64,
    data: Vec<Point>,
}

impl View for TimeSeries {
    type V = TimeSeriesV;

    closed spec fn view(&self) -> TimeSeriesV {
        TimeSeriesV {
            time_range_unit: self.time_range_unit,
            start: self.start,
            end: self.end,
            data: self.data@,
        }
    }
}

impl TimeSeries {
    pub fn new(time_range_unit: TimeRange, start: i64, end: i64, data: Vec<Point>) -> (r: Self)
        ensures
            r@ == (TimeSeriesV { time_range_unit, start, end, data: data@ }),
    {
        TimeSeries { time_range_unit, start, end, data }
    }

    /// An empty daily series covering the instant of its creation: both
    /// bounds carry the same instant, so the series starts no later than it
    /// ends.
    pub fn default() -> (r: Self)
        ensures
            r@.time_range_unit == TimeRange::Day,
            r@.data == Seq::<Point>::empty(),
            r@.start == r@.end,
    {
        let now: i64 = now_millis();
        TimeSeries::new(TimeRange::Day, now, now, Vec::new())
    }

    pub fn time_range_unit(&self) -> (r: &TimeRange)
        ensures
            *r == self@.time_range_unit,
    {
        &self.time_range_unit
    }

    pub fn update_time_range_unit(&mut self, unit: TimeRange)
        ensures
            final(self)@ == (TimeSeriesV { time_range_unit: unit, ..old(self)@ }),
    {
        self.time_range_unit = unit;
    }

    pub fn start(&self) -> (r: i64)
        ensures
            r == self@.start,
    {
        self.start
    }

    pub fn end(&self) -> (r: i64)
        ensures
            r == self@.end,
    {
        self.end
    }

    pub fn set_end(&mut self, end: i64)
        ensures
            final(self)@ == (TimeSeriesV { end, ..old(self)@ }),
    {
        self.end = end;
    }

    pub fn data(&self) -> (r: &Vec<Point>)
        ensures
            r@ == self@.data,
    {
        &self.data
    }
}

} // verus!
