use vstd::prelude::*;
use vstd::arithmetic::div_mod::lemma_fundamental_div_mod;
use crate::point::Point;
use crate::time_range::TimeRange;
use crate::time_series::{TimeSeries, TimeSeriesV};

verus! {

// The stable structured encoding of candles and candle series: every field is
// written as its ASCII name, a colon, its value in little-endian bytes, and a
// terminating semicolon. A candle record is 56 bytes: `open`, `high`, `low`
// and `close` carry four value bytes each, `volume` eight. A series is a
// 60-byte header (`time_range_unit` as a one-byte tag, `start` and `end` as
// eight bytes each, `data` as an eight-byte record count) followed by the
// candle records in order. The candle timestamp is not part of the encoding;
// a decoded candle carries timestamp zero.

pub open spec fn u32_le(v: u32) -> Seq<u8> {
    seq![
        (v & 0xff) as u8,
        ((v >> 8) & 0xff) as u8,
        ((v >> 16) & 0xff) as u8,
        ((v >> 24) & 0xff) as u8,
    ]
}

pub open spec fn u64_le(v: u64) -> Seq<u8> {
    seq![
        (v & 0xff) as u8,
        ((v >> 8) & 0xff) as u8,
        ((v >> 16) & 0xff) as u8,
        ((v >> 24) & 0xff) as u8,
        ((v >> 32) & 0xff) as u8,
        ((v >> 40) & 0xff) as u8,
        ((v >> 48) & 0xff) as u8,
        ((v >> 56) & 0xff) as u8,
    ]
}

pub open spec fn u32_of_le(b0: u8, b1: u8, b2: u8, b3: u8) -> u32 {
    (b0 as u32) | ((b1 as u32) << 8) | ((b2 as u32) << 16) | ((b3 as u32) << 24)
}

pub open spec fn u64_of_le(
    b0: u8,
    b1: u8,
    b2: u8,
    b3: u8,
    b4: u8,
    b5: u8,
    b6: u8,
    b7: u8,
) -> u64 {
    (b0 as u64) | ((b1 as u64) << 8) | ((b2 as u64) << 16) | ((b3 as u64) << 24) | ((b4 as u64)
        << 32) | ((b5 as u64) << 40) | ((b6 as u64) << 48) | ((b7 as u64) << 56)
}

pub proof fn lemma_u32_le_round_trip(v: u32)
    ensures
        u32_of_le(u32_le(v)[0], u32_le(v)[1], u32_le(v)[2], u32_le(v)[3]) == v,
{
    assert(((v & 0xff) as u8 as u32) | ((((v >> 8) & 0xff) as u8 as u32) << 8) | ((((v >> 16)
        & 0xff) as u8 as u32) << 16) | ((((v >> 24) & 0xff) as u8 as u32) << 24) == v)
        by (bit_vector);
}

pub proof fn lemma_u64_le_round_trip(v: u64)
    ensures
        u64_of_le(
            u64_le(v)[0],
            u64_le(v)[1],
            u64_le(v)[2],
            u64_le(v)[3],
            u64_le(v)[4],
            u64_le(v)[5],
            u64_le(v)[6],
            u64_le(v)[7],
        ) == v,
{
    assert(((v & 0xff) as u8 as u64) | ((((v >> 8) & 0xff) as u8 as u64) << 8) | ((((v >> 16)
        & 0xff) as u8 as u64) << 16) | ((((v >> 24) & 0xff) as u8 as u64) << 24) | ((((v >> 32)
        & 0xff) as u8 as u64) << 32) | ((((v >> 40) & 0xff) as u8 as u64) << 40) | ((((v >> 48)
        & 0xff) as u8 as u64) << 48) | ((((v >> 56) & 0xff) as u8 as u64) << 56) == v)
        by (bit_vector);
}

/// The 56-byte encoding of one candle.
pub open spec fn spec_encode_point(c: Point) -> Seq<u8> {
    seq![111u8, 112u8, 101u8, 110u8, 58u8] + u32_le(c.open) + seq![59u8] + seq![
        104u8,
        105u8,
        103u8,
        104u8,
        58u8,
    ] + u32_le(c.high) + seq![59u8] + seq![108u8, 111u8, 119u8, 58u8] + u32_le(c.low) + seq![59u8]
        + seq![99u8, 108u8, 111u8, 115u8, 101u8, 58u8] + u32_le(c.close) + seq![59u8] + seq![
        118u8,
        111u8,
        108u8,
        117u8,
        109u8,
        101u8,
        58u8,
    ] + u64_le(c.volume) + seq![59u8]
}

/// Whether a 56-byte block is a well-formed candle record.
pub open spec fn point_bytes_valid(s: Seq<u8>) -> bool {
    &&& s.len() == 56
    &&& s[0] == 111u8
    &&& s[1] == 112u8
    &&& s[2] == 101u8
    &&& s[3] == 110u8
    &&& s[4] == 58u8
    &&& s[9] == 59u8
    &&& s[10] == 104u8
    &&& s[11] == 105u8
    &&& s[12] == 103u8
    &&& s[13] == 104u8
    &&& s[14] == 58u8
    &&& s[19] == 59u8
    &&& s[20] == 108u8
    &&& s[21] == 111u8
    &&& s[22] == 119u8
    &&& s[23] == 58u8
    &&& s[28] == 59u8
    &&& s[29] == 99u8
    &&& s[30] == 108u8
    &&& s[31] == 111u8
    &&& s[32] == 115u8
    &&& s[33] == 101u8
    &&& s[34] == 58u8
    &&& s[39] == 59u8
    &&& s[40] == 118u8
    &&& s[41] == 111u8
    &&& s[42] == 108u8
    &&& s[43] == 117u8
    &&& s[44] == 109u8
    &&& s[45] == 101u8
    &&& s[46] == 58u8
    &&& s[55] == 59u8
}

/// Decoding a candle record: the candle whose fields the bytes carry, with a
/// zero timestamp, or nothing when the bytes are not a well-formed record.
pub open spec fn spec_decode_point(s: Seq<u8>) -> Option<Point> {
    if point_bytes_valid(s) {
        Some(
            Point {
                open: u32_of_le(s[5], s[6], s[7], s[8]),
                high: u32_of_le(s[15], s[16], s[17], s[18]),
                low: u32_of_le(s[24], s[25], s[26], s[27]),
                close: u32_of_le(s[35], s[36], s[37], s[38]),
                volume: u64_of_le(s[47], s[48], s[49], s[50], s[51], s[52], s[53], s[54]),
                timestamp: 0,
            },
        )
    } else {
        None
    }
}

fn push_u32_le(out: &mut Vec<u8>, v: u32)
    ensures
        final(out)@ == old(out)@ + u32_le(v),
{
    proof {
        assert(v & 0xff < 256 && (v >> 8) & 0xff < 256 && (v >> 16) & 0xff < 256 && (v >> 24)
            & 0xff < 256) by (bit_vector);
    }
    out.push((v & 0xff) as u8);
    out.push(((v >> 8) & 0xff) as u8);
    out.push(((v >> 16) & 0xff) as u8);
    out.push(((v >> 24) & 0xff) as u8);
    proof {
        assert(out@ =~= old(out)@ + u32_le(v));
    }
}

fn push_u64_le(out: &mut Vec<u8>, v: u64)
    ensures
        final(out)@ == old(out)@ + u64_le(v),
{
    proof {
        assert(v & 0xff < 256 && (v >> 8) & 0xff < 256 && (v >> 16) & 0xff < 256 && (v >> 24)
            & 0xff < 256 && (v >> 32) & 0xff < 256 && (v >> 40) & 0xff < 256 && (v >> 48) & 0xff
            < 256 && (v >> 56) & 0xff < 256) by (bit_vector);
    }
    out.push((v & 0xff) as u8);
    out.push(((v >> 8) & 0xff) as u8);
    out.push(((v >> 16) & 0xff) as u8);
    out.push(((v >> 24) & 0xff) as u8);
    out.push(((v >> 32) & 0xff) as u8);
    out.push(((v >> 40) & 0xff) as u8);
    out.push(((v >> 48) & 0xff) as u8);
    out.push(((v >> 56) & 0xff) as u8);
    proof {
        assert(out@ =~= old(out)@ + u64_le(v));
    }
}

fn read_u32_le(b: &Vec<u8>, off: usize) -> (r: u32)
    requires
        off + 4 <= b@.len(),
    ensures
        r == u32_of_le(b@[off as int], b@[off as int + 1], b@[off as int + 2], b@[off as int + 3]),
{
    let n: usize = b.len();
    assert(off + 4 <= n);
    (b[off] as u32) | ((b[off + 1] as u32) << 8u32) | ((b[off + 2] as u32) << 16u32) | ((b[off + 3]
        as u32) << 24u32)
}

fn read_u64_le(b: &Vec<u8>, off: usize) -> (r: u64)
    requires
        off + 8 <= b@.len(),
    ensures
        r == u64_of_le(
            b@[off as int],
            b@[off as int + 1],
            b@[off as int + 2],
            b@[off as int + 3],
            b@[off as int + 4],
            b@[off as int + 5],
            b@[off as int + 6],
            b@[off as int + 7],
        ),
{
    let n: usize = b.len();
    assert(off + 8 <= n);
    (b[off] as u64) | ((b[off + 1] as u64) << 8u64) | ((b[off + 2] as u64) << 16u64) | ((b[off + 3]
        as u64) << 24u64) | ((b[off + 4] as u64) << 32u64) | ((b[off + 5] as u64) << 40u64) | ((b[off
        + 6] as u64) << 48u64) | ((b[off + 7] as u64) << 56u64)
}

/// Encode one candle into its 56-byte record.
pub fn encode_point(c: &Point) -> (r: Vec<u8>)
    ensures
        r@ == spec_encode_point(*c),
{
    let mut out: Vec<u8> = Vec::new();
    out.push(111);
    out.push(112);
    out.push(101);
    out.push(110);
    out.push(58);
    push_u32_le(&mut out, c.open);
    out.push(59);
    out.push(104);
    out.push(105);
    out.push(103);
    out.push(104);
    out.push(58);
    push_u32_le(&mut out, c.high);
    out.push(59);
    out.push(108);
    out.push(111);
    out.push(119);
    out.push(58);
    push_u32_le(&mut out, c.low);
    out.push(59);
    out.push(99);
    out.push(108);
    out.push(111);
    out.push(115);
    out.push(101);
    out.push(58);
    push_u32_le(&mut out, c.close);
    out.push(59);
    out.push(118);
    out.push(111);
    out.push(108);
    out.push(117);
    out.push(109);
    out.push(101);
    out.push(58);
    push_u64_le(&mut out, c.volume);
    out.push(59);
    proof {
        assert(out@ =~= spec_encode_point(*c));
    }
    out
}

/// Decode one candle from its 56-byte record.
pub fn decode_point(b: &Vec<u8>) -> (r: Option<Point>)
    ensures
        r == spec_decode_point(b@),
{
    if b.len() != 56 {
        return None;
    }
    let ok: bool = b[0] == 111 && b[1] == 112 && b[2] == 101 && b[3] == 110 && b[4] == 58 && b[9]
        == 59 && b[10] == 104 && b[11] == 105 && b[12] == 103 && b[13] == 104 && b[14] == 58
        && b[19] == 59 && b[20] == 108 && b[21] == 111 && b[22] == 119 && b[23] == 58 && b[28]
        == 59 && b[29] == 99 && b[30] == 108 && b[31] == 111 && b[32] == 115 && b[33] == 101
        && b[34] == 58 && b[39] == 59 && b[40] == 118 && b[41] == 111 && b[42] == 108 && b[43]
        == 117 && b[44] == 109 && b[45] == 101 && b[46] == 58 && b[55] == 59;
    if !ok {
        return None;
    }
    Some(
        Point {
            open: read_u32_le(b, 5),
            high: read_u32_le(b, 15),
            low: read_u32_le(b, 24),
            close: read_u32_le(b, 35),
            volume: read_u64_le(b, 47),
            timestamp: 0,
        },
    )
}

/// A candle with its timestamp cleared: the encoding carries only the five
/// named OHLCV fields, so this is what decoding an encoded candle yields.
pub open spec fn cleared(c: Point) -> Point {
    Point { timestamp: 0, ..c }
}

/// Round trip for one candle: decoding an encoded candle yields the same
/// candle in every encoded field (its timestamp, which the encoding does not
/// carry, comes back as zero).
pub proof fn lemma_point_round_trip(c: Point)
    ensures
        spec_decode_point(spec_encode_point(c)) == Some(cleared(c)),
{
    let s = spec_encode_point(c);
    assert(point_bytes_valid(s));
    lemma_u32_le_round_trip(c.open);
    lemma_u32_le_round_trip(c.high);
    lemma_u32_le_round_trip(c.low);
    lemma_u32_le_round_trip(c.close);
    lemma_u64_le_round_trip(c.volume);
    assert(spec_decode_point(s) == Some(cleared(c)));
}

/// The one-byte tag of a bucket granularity.
pub open spec fn range_tag(r: TimeRange) -> u8 {
    match r {
        TimeRange::Second => 0u8,
        TimeRange::FiveMinute => 1u8,
        TimeRange::Minute => 2u8,
        TimeRange::Hour => 3u8,
        TimeRange::Day => 4u8,
        TimeRange::Month => 5u8,
    }
}

/// The bucket granularity a tag byte stands for, if any.
pub open spec fn tag_range(t: u8) -> Option<TimeRange> {
    if t == 0 {
        Some(TimeRange::Second)
    } else if t == 1 {
        Some(TimeRange::FiveMinute)
    } else if t == 2 {
        Some(TimeRange::Minute)
    } else if t == 3 {
        Some(TimeRange::Hour)
    } else if t == 4 {
        Some(TimeRange::Day)
    } else if t == 5 {
        Some(TimeRange::Month)
    } else {
        None
    }
}

fn range_tag_of(r: &TimeRange) -> (t: u8)
    ensures
        t == range_tag(*r),
{
    match r {
        TimeRange::Second => 0,
        TimeRange::FiveMinute => 1,
        TimeRange::Minute => 2,
        TimeRange::Hour => 3,
        TimeRange::Day => 4,
        TimeRange::Month => 5,
    }
}

fn range_of_tag(t: u8) -> (r: Option<TimeRange>)
    ensures
        r == tag_range(t),
{
    if t == 0 {
        Some(TimeRange::Second)
    } else if t == 1 {
        Some(TimeRange::FiveMinute)
    } else if t == 2 {
        Some(TimeRange::Minute)
    } else if t == 3 {
        Some(TimeRange::Hour)
    } else if t == 4 {
        Some(TimeRange::Day)
    } else if t == 5 {
        Some(TimeRange::Month)
    } else {
        None
    }
}

/// The concatenated records of a sequence of candles.
pub open spec fn enc_points(s: Seq<Point>) -> Seq<u8>
    decreases s.len(),
{
    if s.len() == 0 {
        Seq::<u8>::empty()
    } else {
        spec_encode_point(s[0]) + enc_points(s.drop_first())
    }
}

/// The 60-byte header of a series encoding.
pub open spec fn series_header(ts: TimeSeriesV) -> Seq<u8> {
    seq![
        116u8,
        105u8,
        109u8,
        101u8,
        95u8,
        114u8,
        97u8,
        110u8,
        103u8,
        101u8,
        95u8,
        117u8,
        110u8,
        105u8,
        116u8,
        58u8,
    ] + seq![range_tag(ts.time_range_unit)] + seq![59u8] + seq![115u8, 116u8, 97u8, 114u8, 116u8, 58u8]
        + u64_le(ts.start as u64) + seq![59u8] + seq![101u8, 110u8, 100u8, 58u8] + u64_le(
        ts.end as u64,
    ) + seq![59u8] + seq![100u8, 97u8, 116u8, 97u8, 58u8] + u64_le(ts.data.len() as u64) + seq![59u8]
}

/// The encoding of a whole series: the header, then each candle's record.
pub open spec fn spec_encode_series(ts: TimeSeriesV) -> Seq<u8> {
    series_header(ts) + enc_points(ts.data)
}

/// Whether the fixed bytes of a series header are well formed.
pub open spec fn series_header_valid(s: Seq<u8>) -> bool {
    &&& s.len() >= 60
    &&& s[0] == 116u8
    &&& s[1] == 105u8
    &&& s[2] == 109u8
    &&& s[3] == 101u8
    &&& s[4] == 95u8
    &&& s[5] == 114u8
    &&& s[6] == 97u8
    &&& s[7] == 110u8
    &&& s[8] == 103u8
    &&& s[9] == 101u8
    &&& s[10] == 95u8
    &&& s[11] == 117u8
    &&& s[12] == 110u8
    &&& s[13] == 105u8
    &&& s[14] == 116u8
    &&& s[15] == 58u8
    &&& tag_range(s[16]) is Some
    &&& s[17] == 59u8
    &&& s[18] == 115u8
    &&& s[19] == 116u8
    &&& s[20] == 97u8
    &&& s[21] == 114u8
    &&& s[22] == 116u8
    &&& s[23] == 58u8
    &&& s[32] == 59u8
    &&& s[33] == 101u8
    &&& s[34] == 110u8
    &&& s[35] == 100u8
    &&& s[36] == 58u8
    &&& s[45] == 59u8
    &&& s[46] == 100u8
    &&& s[47] == 97u8
    &&& s[48] == 116u8
    &&& s[49] == 97u8
    &&& s[50] == 58u8
    &&& s[59] == 59u8
    &&& u64_of_le(s[51], s[52], s[53], s[54], s[55], s[56], s[57], s[58]) as int * 56 + 60
        == s.len()
}

/// Decoding a run of 56-byte candle records.
pub open spec fn spec_decode_points(s: Seq<u8>) -> Option<Seq<Point>>
    decreases s.len(),
{
    if s.len() == 0 {
        Some(Seq::<Point>::empty())
    } else if s.len() < 56 {
        None
    } else {
        match spec_decode_point(s.subrange(0, 56)) {
            Some(p) => match spec_decode_points(s.skip(56)) {
                Some(rest) => Some(seq![p] + rest),
                None => None,
            },
            None => None,
        }
    }
}

/// Decoding a whole series encoding.
pub open spec fn spec_decode_series(s: Seq<u8>) -> Option<TimeSeriesV> {
    if series_header_valid(s) {
        match spec_decode_points(s.skip(60)) {
            Some(data) => Some(
                TimeSeriesV {
                    time_range_unit: tag_range(s[16]).unwrap(),
                    start: u64_of_le(
                        s[24],
                        s[25],
                        s[26],
                        s[27],
                        s[28],
                        s[29],
                        s[30],
                        s[31],
                    ) as i64,
                    end: u64_of_le(s[37], s[38], s[39], s[40], s[41], s[42], s[43], s[44]) as i64,
                    data,
                },
            ),
            None => None,
        }
    } else {
        None
    }
}

proof fn lemma_enc_points_snoc(s: Seq<Point>)
    requires
        s.len() > 0,
    ensures
        enc_points(s) == enc_points(s.drop_last()) + spec_encode_point(s.last()),
    decreases s.len(),
{
    if s.len() == 1 {
        assert(s.drop_first() =~= Seq::<Point>::empty());
        assert(s.drop_last() =~= Seq::<Point>::empty());
        assert(enc_points(s) =~= enc_points(s.drop_last()) + spec_encode_point(s.last()));
    } else {
        let t = s.drop_first();
        lemma_enc_points_snoc(t);
        assert(t.drop_last() =~= s.drop_last().drop_first());
        assert(s.drop_last().len() > 0);
        assert(s.drop_last()[0] == s[0]);
        assert(t.last() == s.last());
        assert(enc_points(s) =~= enc_points(s.drop_last()) + spec_encode_point(s.last()));
    }
}

proof fn lemma_enc_points_len(s: Seq<Point>)
    ensures
        enc_points(s).len() == 56 * s.len(),
    decreases s.len(),
{
    if s.len() > 0 {
        lemma_enc_points_len(s.drop_first());
    }
}

/// Encode a series snapshot: the 60-byte header, then each candle in order.
pub fn encode_time_series(ts: &TimeSeries) -> (r: Vec<u8>)
    ensures
        r@ == spec_encode_series(ts@),
{
    let mut out: Vec<u8> = Vec::new();
    out.push(116);
    out.push(105);
    out.push(109);
    out.push(101);
    out.push(95);
    out.push(114);
    out.push(97);
    out.push(110);
    out.push(103);
    out.push(101);
    out.push(95);
    out.push(117);
    out.push(110);
    out.push(105);
    out.push(116);
    out.push(58);
    out.push(range_tag_of(ts.time_range_unit()));
    out.push(59);
    out.push(115);
    out.push(116);
    out.push(97);
    out.push(114);
    out.push(116);
    out.push(58);
    push_u64_le(&mut out, ts.start() as u64);
    out.push(59);
    out.push(101);
    out.push(110);
    out.push(100);
    out.push(58);
    push_u64_le(&mut out, ts.end() as u64);
    out.push(59);
    out.push(100);
    out.push(97);
    out.push(116);
    out.push(97);
    out.push(58);
    let data: &Vec<Point> = ts.data();
    push_u64_le(&mut out, data.len() as u64);
    out.push(59);
    proof {
        assert(out@ =~= series_header(ts@));
    }
    let ghost header = out@;
    let mut i: usize = 0;
    while i < data.len()
        invariant
            i <= data@.len(),
            data@ == ts@.data,
            header == series_header(ts@),
            out@ == header + enc_points(data@.take(i as int)),
        decreases data@.len() - i,
    {
        let mut chunk: Vec<u8> = encode_point(&data[i]);
        out.append(&mut chunk);
        proof {
            let t = data@.take(i as int + 1);
            assert(t.drop_last() =~= data@.take(i as int));
            assert(t.last() == data@[i as int]);
            lemma_enc_points_snoc(t);
            assert(out@ =~= header + enc_points(t));
        }
        i = i + 1;
    }
    proof {
        assert(data@.take(data@.len() as int) =~= data@);
    }
    out
}

/// Decode a series snapshot from its encoding.
pub fn decode_time_series(b: &Vec<u8>) -> (r: Option<TimeSeries>)
    ensures
        r is Some <==> spec_decode_series(b@) is Some,
        r is Some ==> r.unwrap()@ == spec_decode_series(b@).unwrap(),
{
    let n: usize = b.len();
    if n < 60 {
        return None;
    }
    let ok: bool = b[0] == 116 && b[1] == 105 && b[2] == 109 && b[3] == 101 && b[4] == 95 && b[5]
        == 114 && b[6] == 97 && b[7] == 110 && b[8] == 103 && b[9] == 101 && b[10] == 95 && b[11]
        == 117 && b[12] == 110 && b[13] == 105 && b[14] == 116 && b[15] == 58 && b[17] == 59
        && b[18] == 115 && b[19] == 116 && b[20] == 97 && b[21] == 114 && b[22] == 116 && b[23]
        == 58 && b[32] == 59 && b[33] == 101 && b[34] == 110 && b[35] == 100 && b[36] == 58
        && b[45] == 59 && b[46] == 100 && b[47] == 97 && b[48] == 116 && b[49] == 97 && b[50]
        == 58 && b[59] == 59;
    if !ok {
        return None;
    }
    let unit: Option<TimeRange> = range_of_tag(b[16]);
    let unit: TimeRange = match unit {
        Some(u) => u,
        None => {
            return None;
        },
    };
    let start_bits: u64 = read_u64_le(b, 24);
    let end_bits: u64 = read_u64_le(b, 37);
    let cnt: u64 = read_u64_le(b, 51);
    let rem: usize = n - 60;
    proof {
        lemma_fundamental_div_mod(rem as int, 56);
    }
    if rem % 56 != 0 || cnt != (rem / 56) as u64 {
        proof {
            assert(cnt as int * 56 + 60 != b@.len());
        }
        return None;
    }
    let m: usize = rem / 56;
    proof {
        assert(series_header_valid(b@));
    }
    let mut data: Vec<Point> = Vec::new();
    let mut j: usize = 0;
    proof {
        if spec_decode_points(b@.skip(60)) is Some {
            assert(Seq::<Point>::empty() + spec_decode_points(b@.skip(60)).unwrap()
                =~= spec_decode_points(b@.skip(60)).unwrap());
        }
    }
    while j < m
        invariant
            j <= m,
            m * 56 + 60 == b@.len(),
            b@.len() <= usize::MAX,
            spec_decode_points(b@.skip(60)) == (match spec_decode_points(
                b@.skip(60 + 56 * j as int),
            ) {
                Some(rest) => Some(data@ + rest),
                None => None::<Seq<Point>>,
            }),
        decreases m - j,
    {
        proof {
            assert(56 * (j as int + 1) <= 56 * m as int) by (nonlinear_arith)
                requires
                    j as int + 1 <= m as int,
            ;
            assert(56 * m as int == m as int * 56) by (nonlinear_arith);
        }
        let off: usize = 60 + 56 * j;
        let chunk: Vec<u8> = copy_range(b, off, 56);
        let p: Option<Point> = decode_point(&chunk);
        let ghost tail = b@.skip(60 + 56 * j as int);
        proof {
            assert(tail.len() >= 56);
            assert(tail.subrange(0, 56) =~= chunk@);
            assert(tail.skip(56) =~= b@.skip(60 + 56 * (j as int + 1)));
        }
        match p {
            Some(pt) => {
                let ghost dold = data@;
                data.push(pt);
                proof {
                    let rest0 = spec_decode_points(b@.skip(60 + 56 * (j as int + 1)));
                    assert(spec_decode_points(tail) == (match rest0 {
                        Some(rest) => Some(seq![pt] + rest),
                        None => None::<Seq<Point>>,
                    }));
                    if rest0 is Some {
                        assert(dold + (seq![pt] + rest0.unwrap()) =~= data@ + rest0.unwrap());
                    }
                }
            },
            None => {
                proof {
                    assert(spec_decode_points(tail) is None);
                }
                return None;
            },
        }
        j = j + 1;
    }
    proof {
        assert(b@.skip(60 + 56 * m as int) =~= Seq::<u8>::empty());
        assert(spec_decode_points(b@.skip(60)) == Some(data@));
    }
    Some(TimeSeries::new(unit, start_bits as i64, end_bits as i64, data))
}

fn copy_range(b: &Vec<u8>, off: usize, len: usize) -> (r: Vec<u8>)
    requires
        off + len <= b@.len(),
    ensures
        r@ == b@.subrange(off as int, off as int + len as int),
{
    let n: usize = b.len();
    let mut r: Vec<u8> = Vec::new();
    let mut i: usize = 0;
    while i < len
        invariant
            i <= len,
            off + len <= n,
            n == b@.len(),
            r@ == b@.subrange(off as int, off as int + i as int),
        decreases len - i,
    {
        r.push(b[off + i]);
        proof {
            assert(b@.subrange(off as int, off as int + i as int).push(b@[off as int + i])
                =~= b@.subrange(off as int, off as int + i as int + 1));
        }
        i = i + 1;
    }
    r
}

/// A sequence of candles with their timestamps cleared, as decoding yields
/// them.
pub open spec fn cleared_all(s: Seq<Point>) -> Seq<Point> {
    s.map_values(|p: Point| cleared(p))
}

#[verifier::rlimit(100)]
proof fn lemma_decode_enc_points(s: Seq<Point>)
    ensures
        spec_decode_points(enc_points(s)) == Some(cleared_all(s)),
    decreases s.len(),
{
    if s.len() == 0 {
        assert(cleared_all(s) =~= Seq::<Point>::empty());
    } else {
        let e = enc_points(s);
        lemma_enc_points_len(s.drop_first());
        assert(e.len() == 56 + 56 * s.drop_first().len());
        assert(e.subrange(0, 56) =~= spec_encode_point(s[0]));
        assert(e.skip(56) =~= enc_points(s.drop_first()));
        lemma_point_round_trip(s[0]);
        lemma_decode_enc_points(s.drop_first());
        assert(seq![cleared(s[0])] + cleared_all(s.drop_first()) =~= cleared_all(s));
    }
}

/// Round trip for a whole series: decoding an encoded series yields the same
/// granularity, start and end, and the same candles in every encoded field
/// (their timestamps, which the encoding does not carry, come back as zero).
pub proof fn lemma_series_round_trip(ts: TimeSeriesV)
    requires
        ts.data.len() <= u64::MAX,
    ensures
        spec_decode_series(spec_encode_series(ts)) == Some(
            TimeSeriesV {
                time_range_unit: ts.time_range_unit,
                start: ts.start,
                end: ts.end,
                data: cleared_all(ts.data),
            },
        ),
{
    let s = spec_encode_series(ts);
    lemma_enc_points_len(ts.data);
    assert(s.len() == 60 + 56 * ts.data.len());
    assert(tag_range(range_tag(ts.time_range_unit)) == Some(ts.time_range_unit));
    lemma_u64_le_round_trip(ts.start as u64);
    lemma_u64_le_round_trip(ts.end as u64);
    lemma_u64_le_round_trip(ts.data.len() as u64);
    let st: i64 = ts.start;
    let en: i64 = ts.end;
    assert((st as u64) as i64 == st) by (bit_vector);
    assert((en as u64) as i64 == en) by (bit_vector);
    assert(series_header_valid(s));
    assert(s.skip(60) =~= enc_points(ts.data));
    lemma_decode_enc_points(ts.data);
}

} // verus!
