use order_matching::order_book::OrderBook;
use order_matching::point::Point;
use order_matching::time_range::TimeRange;
use order_matching::time_series::TimeSeries;

#[test]
fn test_series_accessors() {
    let pts = vec![Point::new_with_timestamp(1, 2, 3, 4, 5, 6)];
    let mut ts = TimeSeries::new(TimeRange::Hour, 10, 20, pts);
    assert!(matches!(ts.time_range_unit(), TimeRange::Hour));
    assert_eq!(ts.start(), 10);
    assert_eq!(ts.end(), 20);
    assert_eq!(ts.data().len(), 1);
    ts.set_end(30);
    assert_eq!(ts.end(), 30);
    ts.update_time_range_unit(TimeRange::Month);
    assert!(matches!(ts.time_range_unit(), TimeRange::Month));
}

#[test]
fn test_series_default() {
    let ts = TimeSeries::default();
    assert!(matches!(ts.time_range_unit(), TimeRange::Day));
    assert!(ts.data().is_empty());
    assert_eq!(ts.start(), ts.end());
}

// Points appended after construction are published by the next refresh, and
// the snapshot's bounds carry one and the same refresh instant.
#[test]
fn test_add_point_feeds_refresh() {
    let mut book = OrderBook::default();
    assert!(book.points().is_empty());
    book.add_point(Point::new_with_timestamp(1, 2, 3, 4, 5, 6));
    book.add_point(Point::new_with_timestamp(7, 8, 9, 10, 11, 12));
    assert_eq!(book.points().len(), 2);
    book.update_time_series();
    let series = book.time_series();
    assert!(matches!(series.time_range_unit(), TimeRange::Minute));
    assert_eq!(series.data().len(), 2);
    assert_eq!(series.data()[1], Point::new_with_timestamp(7, 8, 9, 10, 11, 12));
    assert_eq!(series.start(), series.end());
}

// A refresh publishes a minute-bucketed snapshot of the pending points as of
// the call, replacing the previous series wholesale.
#[test]
fn test_update_time_series() {
    let pts = vec![
        Point::new_with_timestamp(1, 2, 3, 4, 5, 6),
        Point::new_with_timestamp(7, 8, 9, 10, 11, 12),
    ];
    let mut book = OrderBook::new(Vec::new(), Vec::new(), pts, Point::blank());
    assert!(matches!(book.time_series().time_range_unit(), TimeRange::Day));
    assert!(book.time_series().data().is_empty());
    book.update_time_series();
    let series = book.time_series();
    assert!(matches!(series.time_range_unit(), TimeRange::Minute));
    assert_eq!(series.data().len(), 2);
    assert_eq!(series.data()[0], Point::new_with_timestamp(1, 2, 3, 4, 5, 6));
    assert_eq!(series.data()[1], Point::new_with_timestamp(7, 8, 9, 10, 11, 12));
    // the pending points are still there: refresh reads, it does not drain
    assert_eq!(book.points().len(), 2);
}
