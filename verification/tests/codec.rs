use order_matching::codec::{decode_point, decode_time_series, encode_point, encode_time_series};
use order_matching::point::Point;
use order_matching::time_range::TimeRange;
use order_matching::time_series::TimeSeries;

// Round trip for one candle: every encoded field comes back; the timestamp
// is not part of the encoding and comes back as zero.
#[test]
fn test_point_round_trip() {
    let p = Point::new_with_timestamp(400, 500, 390, 450, 2000, 77);
    let bytes = encode_point(&p);
    let back = decode_point(&bytes).unwrap();
    assert_eq!(back.open, 400);
    assert_eq!(back.high, 500);
    assert_eq!(back.low, 390);
    assert_eq!(back.close, 450);
    assert_eq!(back.volume, 2000);
    assert_eq!(back.timestamp, 0);
}

#[test]
fn test_point_round_trip_extremes() {
    let p = Point::new_with_timestamp(0, u32::MAX, 0, u32::MAX, u64::MAX, 0);
    let bytes = encode_point(&p);
    let back = decode_point(&bytes).unwrap();
    assert_eq!(back, p);
}

// The encoding is field-named: the ASCII names appear in the bytes.
#[test]
fn test_point_encoding_is_field_named() {
    let p = Point::new_with_timestamp(1, 2, 3, 4, 5, 6);
    let bytes = encode_point(&p);
    assert_eq!(bytes.len(), 56);
    assert_eq!(&bytes[0..5], b"open:");
    assert_eq!(&bytes[10..15], b"high:");
    assert_eq!(&bytes[20..24], b"low:");
    assert_eq!(&bytes[29..35], b"close:");
    assert_eq!(&bytes[40..47], b"volume:");
}

#[test]
fn test_point_decode_rejects_malformed() {
    let p = Point::new_with_timestamp(1, 2, 3, 4, 5, 6);
    let mut bytes = encode_point(&p);
    bytes[0] = b'x';
    assert!(decode_point(&bytes).is_none());
    assert!(decode_point(&Vec::new()).is_none());
    let short = vec![b'o'; 10];
    assert!(decode_point(&short).is_none());
}

#[test]
fn test_series_round_trip() {
    let data = vec![
        Point::new_with_timestamp(400, 500, 390, 450, 2000, 1),
        Point::new_with_timestamp(450, 470, 440, 460, 300, 2),
    ];
    let ts = TimeSeries::new(TimeRange::FiveMinute, -5, 99, data);
    let bytes = encode_time_series(&ts);
    let back = decode_time_series(&bytes).unwrap();
    assert!(matches!(back.time_range_unit(), TimeRange::FiveMinute));
    assert_eq!(back.start(), -5);
    assert_eq!(back.end(), 99);
    assert_eq!(back.data().len(), 2);
    assert_eq!(back.data()[0].open, 400);
    assert_eq!(back.data()[0].close, 450);
    assert_eq!(back.data()[0].volume, 2000);
    assert_eq!(back.data()[1].high, 470);
    assert_eq!(back.data()[1].low, 440);
    assert_eq!(back.data()[1].timestamp, 0);
}

#[test]
fn test_empty_series_round_trip() {
    let ts = TimeSeries::new(TimeRange::Day, 0, 0, Vec::new());
    let bytes = encode_time_series(&ts);
    assert_eq!(bytes.len(), 60);
    assert_eq!(&bytes[0..16], b"time_range_unit:");
    assert_eq!(&bytes[18..24], b"start:");
    assert_eq!(&bytes[33..37], b"end:");
    assert_eq!(&bytes[46..51], b"data:");
    let back = decode_time_series(&bytes).unwrap();
    assert!(matches!(back.time_range_unit(), TimeRange::Day));
    assert!(back.data().is_empty());
}

#[test]
fn test_series_decode_rejects_malformed() {
    let ts = TimeSeries::new(TimeRange::Day, 1, 2, vec![Point::new_with_timestamp(1, 2, 3, 4, 5, 6)]);
    let mut bytes = encode_time_series(&ts);
    // an undefined granularity tag
    bytes[16] = 9;
    assert!(decode_time_series(&bytes).is_none());
    // a truncated record run
    let good = encode_time_series(&ts);
    let truncated: Vec<u8> = good[..good.len() - 1].to_vec();
    assert!(decode_time_series(&truncated).is_none());
    assert!(decode_time_series(&Vec::new()).is_none());
}
