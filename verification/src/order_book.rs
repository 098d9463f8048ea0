use vstd::prelude::*;
use vstd::arithmetic::div_mod::{lemma_div_is_ordered, lemma_div_multiples_vanish};
use crate::point::Point;
use crate::time_range::TimeRange;
use crate::time_series::{TimeSeries, TimeSeriesV};
use crate::transaction::{Side, Transaction, TransactionV};

verus! {

/// The models of a sequence of order records, in queue order.
pub open spec fn tx_views(s: Seq<Transaction>) -> Seq<TransactionV> {
    s.map_values(|t: Transaction| t@)
}

/// Resting buys are kept by non-decreasing price: the last record is the top
/// of book (the highest-priced buy).
pub open spec fn sorted_buys(s: Seq<TransactionV>) -> bool {
    forall|i: int, j: int| 0 <= i <= j < s.len() ==> s[i].price <= s[j].price
}

/// Resting sells are kept by non-increasing price: the last record is the top
/// of book (the lowest-priced sell).
pub open spec fn sorted_sells(s: Seq<TransactionV>) -> bool {
    forall|i: int, j: int| 0 <= i <= j < s.len() ==> s[i].price >= s[j].price
}

pub open spec fn all_side(s: Seq<TransactionV>, side: Side) -> bool {
    forall|i: int| 0 <= i < s.len() ==> s[i].side == side
}

/// Total resting quantity of a queue.
pub open spec fn qty_sum(s: Seq<TransactionV>) -> int
    decreases s.len(),
{
    if s.len() == 0 {
        0
    } else {
        qty_sum(s.drop_last()) + s.last().amount
    }
}

pub open spec fn min_u32(a: u32, b: u32) -> u32 {
    if a <= b {
        a
    } else {
        b
    }
}

/// One executed trade folded into the current candle: `close` becomes the
/// volume-weighted average of the old close and the trade price, `volume`
/// grows by the matched quantity, `high` and `low` absorb the trade price,
/// and `open` is untouched. When nothing has ever traded (both weights are
/// zero) the close is left as it is.
pub open spec fn spec_trade_update(c: Point, price: u32, amount: u32) -> Point {
    Point {
        open: c.open,
        high: if price > c.high {
            price
        } else {
            c.high
        },
        low: if price < c.low {
            price
        } else {
            c.low
        },
        close: if amount + c.volume > 0 {
            ((amount * price + c.volume * c.close) / (amount + c.volume)) as u32
        } else {
            c.close
        },
        volume: (c.volume + amount) as u64,
        timestamp: c.timestamp,
    }
}

/// The residual record of a partially filled order: the same side, symbol and
/// price, with the unmatched remainder of its quantity.
pub open spec fn residual(t: TransactionV, amount: u32) -> TransactionV {
    TransactionV { amount: (t.amount - amount) as u32, ..t }
}

/// The complete matching pass over sorted queues: while both queues are
/// non-empty and the top-of-book buy price is at least the top-of-book sell
/// price, both tops are removed, the matched quantity (the smaller of the two)
/// is folded into the candle at the buy price, and the partially filled side
/// (if any) is re-queued with its residual quantity at its own price.
pub open spec fn spec_execute(buys: Seq<TransactionV>, sells: Seq<TransactionV>, c: Point) -> (
    Seq<TransactionV>,
    Seq<TransactionV>,
    Point,
)
    decreases buys.len() + sells.len(),
{
    if buys.len() == 0 || sells.len() == 0 {
        (buys, sells, c)
    } else {
        let b = buys.last();
        let s = sells.last();
        if b.price >= s.price {
            let a = min_u32(b.amount, s.amount);
            let c2 = spec_trade_update(c, b.price, a);
            let buys2 = if a != b.amount {
                buys.drop_last().push(residual(b, a))
            } else {
                buys.drop_last()
            };
            let sells2 = if a != s.amount {
                sells.drop_last().push(residual(s, a))
            } else {
                sells.drop_last()
            };
            spec_execute(buys2, sells2, c2)
        } else {
            (buys, sells, c)
        }
    }
}

/// Where a buy at price `p` comes to rest: after every resting buy whose
/// price is at most `p`, before every one whose price is above it.
pub open spec fn buy_slot(s: Seq<TransactionV>, p: u32) -> int
    decreases s.len(),
{
    if s.len() == 0 {
        0
    } else if s.last().price > p {
        buy_slot(s.drop_last(), p)
    } else {
        s.len() as int
    }
}

/// Where a sell at price `p` comes to rest: after every resting sell whose
/// price is at least `p`, before every one whose price is below it.
pub open spec fn sell_slot(s: Seq<TransactionV>, p: u32) -> int
    decreases s.len(),
{
    if s.len() == 0 {
        0
    } else if s.last().price < p {
        sell_slot(s.drop_last(), p)
    } else {
        s.len() as int
    }
}

/// Mathematical model of the whole book.
#[verifier::ext_equal]
pub struct BookV {
    pub buys: Seq<TransactionV>,
    pub sells: Seq<TransactionV>,
    pub candle: Point,
    pub points: Seq<Point>,
    pub series: TimeSeriesV,
}

/// Well-formedness of the book: each queue is ordered with its top of book
/// last, the buy queue holds only buy-side records and the sell queue only
/// sell-side ones.
pub open spec fn book_wf(b: BookV) -> bool {
    &&& sorted_buys(b.buys)
    &&& sorted_sells(b.sells)
    &&& all_side(b.buys, Side::Buy)
    &&& all_side(b.sells, Side::Sell)
}

/// The matching core. It owns the two priority queues of resting orders, the
/// current candle, the queue of pending candle points, and the latest series
/// snapshot. The book itself is a single exclusively owned value: callers who
/// share it across threads must serialize access to it (one coarse lock
/// around the whole book), which keeps every operation atomic with respect to
/// all three pieces of state it touches.
pub struct OrderBook {
    buy_order: Vec<Transaction>,
    sell_order: Vec<Transaction>,
    points_queue: Vec<Point>,
    cur_point: Point,
    time_series: TimeSeries,
}

impl View for OrderBook {
    type V = BookV;

    closed spec fn view(&self) -> BookV {
        BookV {
            buys: tx_views(self.buy_order@),
            sells: tx_views(self.sell_order@),
            candle: self.cur_point,
            points: self.points_queue@,
            series: self.time_series@,
        }
    }
}

proof fn lemma_tx_views_push(s: Seq<Transaction>, t: Transaction)
    ensures
        tx_views(s.push(t)) == tx_views(s).push(t@),
{
    assert(tx_views(s.push(t)) =~= tx_views(s).push(t@));
}

proof fn lemma_tx_views_insert(s: Seq<Transaction>, i: int, t: Transaction)
    requires
        0 <= i <= s.len(),
    ensures
        tx_views(s.insert(i, t)) == tx_views(s).insert(i, t@),
{
    assert(tx_views(s.insert(i, t)) =~= tx_views(s).insert(i, t@));
}

proof fn lemma_tx_views_drop_last(s: Seq<Transaction>)
    requires
        s.len() > 0,
    ensures
        tx_views(s.subrange(0, s.len() - 1)) == tx_views(s).drop_last(),
{
    assert(tx_views(s.subrange(0, s.len() - 1)) =~= tx_views(s).drop_last());
}

pub proof fn lemma_qty_sum_nonneg(s: Seq<TransactionV>)
    ensures
        qty_sum(s) >= 0,
    decreases s.len(),
{
    if s.len() > 0 {
        lemma_qty_sum_nonneg(s.drop_last());
    }
}

pub proof fn lemma_qty_sum_push(s: Seq<TransactionV>, t: TransactionV)
    ensures
        qty_sum(s.push(t)) == qty_sum(s) + t.amount,
{
    assert(s.push(t).drop_last() =~= s);
}

/// The slot of a buy lies within the queue; everything at or after it is
/// priced strictly above `p`, and (in a sorted queue) everything before it is
/// priced at most `p`.
proof fn lemma_buy_slot(s: Seq<TransactionV>, p: u32)
    ensures
        0 <= buy_slot(s, p) <= s.len(),
        forall|j: int| buy_slot(s, p) <= j < s.len() ==> s[j].price > p,
        sorted_buys(s) ==> forall|j: int| 0 <= j < buy_slot(s, p) ==> s[j].price <= p,
    decreases s.len(),
{
    if s.len() > 0 && s.last().price > p {
        lemma_buy_slot(s.drop_last(), p);
        assert(forall|j: int| 0 <= j < s.len() - 1 ==> s.drop_last()[j] == s[j]);
        if sorted_buys(s) {
            assert(sorted_buys(s.drop_last()));
        }
    }
}

proof fn lemma_sell_slot(s: Seq<TransactionV>, p: u32)
    ensures
        0 <= sell_slot(s, p) <= s.len(),
        forall|j: int| sell_slot(s, p) <= j < s.len() ==> s[j].price < p,
        sorted_sells(s) ==> forall|j: int| 0 <= j < sell_slot(s, p) ==> s[j].price >= p,
    decreases s.len(),
{
    if s.len() > 0 && s.last().price < p {
        lemma_sell_slot(s.drop_last(), p);
        assert(forall|j: int| 0 <= j < s.len() - 1 ==> s.drop_last()[j] == s[j]);
        if sorted_sells(s) {
            assert(sorted_sells(s.drop_last()));
        }
    }
}

/// Executable counterpart of `spec_trade_update`. The weighted average is
/// computed in 128-bit arithmetic, which cannot overflow for 32-bit prices
/// and quantities and a 64-bit volume.
fn apply_trade(c: &mut Point, price: u32, amount: u32)
    requires
        old(c).volume + amount <= u64::MAX,
    ensures
        *final(c) == spec_trade_update(*old(c), price, amount),
{
    let ghost a: int = amount as int;
    let ghost v: int = old(c).volume as int;
    let ghost p: int = price as int;
    let ghost cl: int = old(c).close as int;
    if amount > 0 || c.volume > 0 {
        proof {
            assert(a * p < 0x10000000000000000) by (nonlinear_arith)
                requires
                    0 <= a < 0x100000000,
                    0 <= p < 0x100000000,
            ;
            assert(v * cl < 0x1000000000000000000000000) by (nonlinear_arith)
                requires
                    0 <= v < 0x10000000000000000,
                    0 <= cl < 0x100000000,
            ;
        }
        let num: u128 = (amount as u128) * (price as u128) + (c.volume as u128) * (c.close
            as u128);
        let den: u128 = amount as u128 + c.volume as u128;
        proof {
            let m: int = if p > cl {
                p
            } else {
                cl
            };
            assert(a * p + v * cl <= (a + v) * m) by (nonlinear_arith)
                requires
                    0 <= a,
                    0 <= v,
                    0 <= p,
                    0 <= cl,
                    p <= m,
                    cl <= m,
            ;
            lemma_div_is_ordered(a * p + v * cl, (a + v) * m, a + v);
            assert((a + v) * m == m * (a + v)) by (nonlinear_arith);
            lemma_div_multiples_vanish(m, a + v);
            assert((a * p + v * cl) / (a + v) <= m);
        }
        let q: u128 = num / den;
        c.close = q as u32;
    }
    c.volume = c.volume + amount as u64;
    if price > c.high {
        c.high = price;
    }
    if price < c.low {
        c.low = price;
    }
}

impl OrderBook {
    pub open spec fn wf(&self) -> bool {
        book_wf(self@)
    }

    /// A book over the given initial queues, pending points and current
    /// candle, with a fresh empty daily series snapshot.
    pub fn new(
        buy_order: Vec<Transaction>,
        sell_order: Vec<Transaction>,
        points_queue: Vec<Point>,
        cur_point: Point,
    ) -> (r: Self)
        requires
            sorted_buys(tx_views(buy_order@)),
            sorted_sells(tx_views(sell_order@)),
            all_side(tx_views(buy_order@), Side::Buy),
            all_side(tx_views(sell_order@), Side::Sell),
        ensures
            r.wf(),
            r@.buys == tx_views(buy_order@),
            r@.sells == tx_views(sell_order@),
            r@.points == points_queue@,
            r@.candle == cur_point,
            r@.series.time_range_unit == TimeRange::Day,
            r@.series.data == Seq::<Point>::empty(),
            r@.series.start == r@.series.end,
    {
        OrderBook {
            buy_order,
            sell_order,
            points_queue,
            cur_point,
            time_series: TimeSeries::default(),
        }
    }

    /// An empty book with a zero-valued current candle.
    pub fn default() -> (r: Self)
        ensures
            r.wf(),
            r@.buys == Seq::<TransactionV>::empty(),
            r@.sells == Seq::<TransactionV>::empty(),
            r@.points == Seq::<Point>::empty(),
            r@.candle.open == 0,
            r@.candle.high == 0,
            r@.candle.low == 0,
            r@.candle.close == 0,
            r@.candle.volume == 0,
            r@.series.time_range_unit == TimeRange::Day,
            r@.series.data == Seq::<Point>::empty(),
            r@.series.start == r@.series.end,
    {
        let r = OrderBook {
            buy_order: Vec::new(),
            sell_order: Vec::new(),
            points_queue: Vec::new(),
            cur_point: Point::new(0, 0, 0, 0, 0),
            time_series: TimeSeries::default(),
        };
        proof {
            assert(tx_views(Seq::<Transaction>::empty()) =~= Seq::<TransactionV>::empty());
        }
        r
    }

    /// Admit a buy order: it comes to rest in the buy queue at its price
    /// slot, after every resting buy priced at or below it. Nothing else
    /// changes.
    pub fn add_buy_order(&mut self, buy_order: Transaction)
        requires
            old(self).wf(),
            buy_order@.side == Side::Buy,
        ensures
            final(self).wf(),
            final(self)@.buys == old(self)@.buys.insert(
                buy_slot(old(self)@.buys, buy_order@.price),
                buy_order@,
            ),
            final(self)@.sells == old(self)@.sells,
            final(self)@.candle == old(self)@.candle,
            final(self)@.points == old(self)@.points,
            final(self)@.series == old(self)@.series,
    {
        let ghost s0 = tx_views(self.buy_order@);
        let p: u32 = buy_order.price;
        let mut i: usize = self.buy_order.len();
        proof {
            assert(s0.take(s0.len() as int) =~= s0);
        }
        while i > 0 && self.buy_order[i - 1].price > p
            invariant
                i <= self.buy_order.len(),
                s0 == tx_views(self.buy_order@),
                buy_slot(s0, p) == buy_slot(s0.take(i as int), p),
            decreases i,
        {
            proof {
                assert(s0.take(i as int).last() == s0[i - 1]);
                assert(s0.take(i as int).drop_last() =~= s0.take(i as int - 1));
            }
            i = i - 1;
        }
        proof {
            if i > 0 {
                assert(s0.take(i as int).last() == s0[i - 1]);
            }
            assert(buy_slot(s0, p) == i);
            lemma_buy_slot(s0, p);
            lemma_tx_views_insert(self.buy_order@, i as int, buy_order);
        }
        self.buy_order.insert(i, buy_order);
        proof {
            let s1 = tx_views(self.buy_order@);
            assert(s1 == s0.insert(i as int, buy_order@));
            assert forall|x: int, y: int| 0 <= x <= y < s1.len() implies s1[x].price
                <= s1[y].price by {
                if x < i && y < i {
                    assert(s1[x] == s0[x] && s1[y] == s0[y]);
                } else if x < i && y == i {
                    assert(s1[x] == s0[x]);
                } else if x < i && y > i {
                    assert(s1[x] == s0[x] && s1[y] == s0[y - 1]);
                } else if x == i && y > i {
                    assert(s1[y] == s0[y - 1]);
                } else if x == i && y == i {
                } else {
                    assert(s1[x] == s0[x - 1] && s1[y] == s0[y - 1]);
                }
            }
            assert(all_side(s1, Side::Buy));
        }
    }

    /// Admit a sell order: it comes to rest in the sell queue at its price
    /// slot, after every resting sell priced at or above it. Nothing else
    /// changes.
    pub fn add_sell_order(&mut self, sell_order: Transaction)
        requires
            old(self).wf(),
            sell_order@.side == Side::Sell,
        ensures
            final(self).wf(),
            final(self)@.sells == old(self)@.sells.insert(
                sell_slot(old(self)@.sells, sell_order@.price),
                sell_order@,
            ),
            final(self)@.buys == old(self)@.buys,
            final(self)@.candle == old(self)@.candle,
            final(self)@.points == old(self)@.points,
            final(self)@.series == old(self)@.series,
    {
        let ghost s0 = tx_views(self.sell_order@);
        let p: u32 = sell_order.price;
        let mut i: usize = self.sell_order.len();
        proof {
            assert(s0.take(s0.len() as int) =~= s0);
        }
        while i > 0 && self.sell_order[i - 1].price < p
            invariant
                i <= self.sell_order.len(),
                s0 == tx_views(self.sell_order@),
                sell_slot(s0, p) == sell_slot(s0.take(i as int), p),
            decreases i,
        {
            proof {
                assert(s0.take(i as int).last() == s0[i - 1]);
                assert(s0.take(i as int).drop_last() =~= s0.take(i as int - 1));
            }
            i = i - 1;
        }
        proof {
            if i > 0 {
                assert(s0.take(i as int).last() == s0[i - 1]);
            }
            assert(sell_slot(s0, p) == i);
            lemma_sell_slot(s0, p);
            lemma_tx_views_insert(self.sell_order@, i as int, sell_order);
        }
        self.sell_order.insert(i, sell_order);
        proof {
            let s1 = tx_views(self.sell_order@);
            assert(s1 == s0.insert(i as int, sell_order@));
            assert forall|x: int, y: int| 0 <= x <= y < s1.len() implies s1[x].price
                >= s1[y].price by {
                if x < i && y < i {
                    assert(s1[x] == s0[x] && s1[y] == s0[y]);
                } else if x < i && y == i {
                    assert(s1[x] == s0[x]);
                } else if x < i && y > i {
                    assert(s1[x] == s0[x] && s1[y] == s0[y - 1]);
                } else if x == i && y > i {
                    assert(s1[y] == s0[y - 1]);
                } else if x == i && y == i {
                } else {
                    assert(s1[x] == s0[x - 1] && s1[y] == s0[y - 1]);
                }
            }
            assert(all_side(s1, Side::Sell));
        }
    }

    /// A read-only handle to the resting buy queue, ordered with the top of
    /// book last.
    pub fn buy_orders(&self) -> (r: &Vec<Transaction>)
        ensures
            tx_views(r@) == self@.buys,
    {
        &self.buy_order
    }

    /// A read-only handle to the resting sell queue, ordered with the top of
    /// book last.
    pub fn sell_orders(&self) -> (r: &Vec<Transaction>)
        ensures
            tx_views(r@) == self@.sells,
    {
        &self.sell_order
    }

    /// Append a consumed price point to the pending points queue, where it
    /// waits to be folded into the next series snapshot. The queue is
    /// append-only until a refresh reads it; nothing else about the book
    /// changes.
    pub fn add_point(&mut self, point: Point)
        ensures
            final(self)@.points == old(self)@.points.push(point),
            final(self)@.buys == old(self)@.buys,
            final(self)@.sells == old(self)@.sells,
            final(self)@.candle == old(self)@.candle,
            final(self)@.series == old(self)@.series,
            old(self).wf() ==> final(self).wf(),
    {
        self.points_queue.push(point);
    }

    /// A read-only handle to the pending points queue.
    pub fn points(&self) -> (r: &Vec<Point>)
        ensures
            r@ == self@.points,
    {
        &self.points_queue
    }

    /// A detached copy of the pending points queue as of this call.
    pub fn points_mut(&self) -> (r: Vec<Point>)
        ensures
            r@ == self@.points,
    {
        self.copy_points()
    }

    /// The current candle as of this call.
    pub fn cur_point(&self) -> (r: Point)
        ensures
            r == self@.candle,
    {
        self.cur_point
    }

    /// A read-only handle to the latest published series snapshot.
    pub fn time_series(&self) -> (r: &TimeSeries)
        ensures
            r@ == self@.series,
    {
        &self.time_series
    }

    fn copy_points(&self) -> (r: Vec<Point>)
        ensures
            r@ == self@.points,
    {
        let mut r: Vec<Point> = Vec::new();
        let mut i: usize = 0;
        while i < self.points_queue.len()
            invariant
                i <= self.points_queue.len(),
                r@ == self.points_queue@.take(i as int),
            decreases self.points_queue.len() - i,
        {
            r.push(self.points_queue[i]);
            proof {
                assert(self.points_queue@.take(i as int).push(self.points_queue@[i as int])
                    =~= self.points_queue@.take(i as int + 1));
            }
            i = i + 1;
        }
        proof {
            assert(self.points_queue@.take(self.points_queue@.len() as int)
                =~= self.points_queue@);
        }
        r
    }

    /// Replace the published series snapshot wholesale with a minute-bucketed
    /// series over the pending points as of this call, covering the refresh
    /// instant: one clock read bounds the snapshot on both sides, so the
    /// series starts no later than it ends. The queues, the candle and the
    /// pending points are untouched.
    pub fn update_time_series(&mut self)
        ensures
            final(self)@.series.time_range_unit == TimeRange::Minute,
            final(self)@.series.data == old(self)@.points,
            final(self)@.series.start == final(self)@.series.end,
            final(self)@.buys == old(self)@.buys,
            final(self)@.sells == old(self)@.sells,
            final(self)@.candle == old(self)@.candle,
            final(self)@.points == old(self)@.points,
            old(self).wf() ==> final(self).wf(),
    {
        let pts: Vec<Point> = self.copy_points();
        let now: i64 = crate::clock::now_millis();
        self.time_series = TimeSeries::new(TimeRange::Minute, now, now, pts);
    }

    fn has_cross(&self) -> (r: bool)
        ensures
            r == (self@.buys.len() > 0 && self@.sells.len() > 0 && self@.buys.last().price
                >= self@.sells.last().price),
    {
        if self.buy_order.len() == 0 {
            false
        } else if self.sell_order.len() == 0 {
            false
        } else {
            let bk: usize = self.buy_order.len() - 1;
            let sk: usize = self.sell_order.len() - 1;
            self.buy_order[bk].price >= self.sell_order[sk].price
        }
    }

    /// Drain every currently matchable pair: the result of the call is
    /// exactly `spec_execute` applied to the resting queues and the current
    /// candle, and nothing else about the book changes. The caller bounds the
    /// total resting sell quantity so that the cumulative volume fits its
    /// 64-bit counter.
    pub fn execute(&mut self)
        requires
            old(self).wf(),
            old(self)@.candle.volume + qty_sum(old(self)@.sells) <= u64::MAX,
        ensures
            final(self).wf(),
            (final(self)@.buys, final(self)@.sells, final(self)@.candle) == spec_execute(
                old(self)@.buys,
                old(self)@.sells,
                old(self)@.candle,
            ),
            final(self)@.points == old(self)@.points,
            final(self)@.series == old(self)@.series,
    {
        let ghost orig = self@;
        while self.has_cross()
            invariant
                self.wf(),
                self@.candle.volume + qty_sum(self@.sells) <= u64::MAX,
                spec_execute(self@.buys, self@.sells, self@.candle) == spec_execute(
                    orig.buys,
                    orig.sells,
                    orig.candle,
                ),
                self@.points == orig.points,
                self@.series == orig.series,
            decreases self@.buys.len() + self@.sells.len(),
        {
            let ghost pre_buys = self@.buys;
            let ghost pre_sells = self@.sells;
            let ghost pre_candle = self@.candle;
            let ghost bv0 = self.buy_order@;
            let ghost sv0 = self.sell_order@;
            let buy = self.buy_order.pop().unwrap();
            let sell = self.sell_order.pop().unwrap();
            proof {
                assert(buy@ == pre_buys.last());
                assert(sell@ == pre_sells.last());
                lemma_tx_views_drop_last(bv0);
                lemma_tx_views_drop_last(sv0);
            }
            let a: u32 = if buy.amount <= sell.amount {
                buy.amount
            } else {
                sell.amount
            };
            proof {
                lemma_qty_sum_nonneg(pre_sells.drop_last());
                assert(qty_sum(pre_sells) == qty_sum(pre_sells.drop_last())
                    + pre_sells.last().amount);
            }
            apply_trade(&mut self.cur_point, buy.price, a);
            if a != buy.amount {
                let rb = Transaction {
                    side: buy.side,
                    symbol: buy.symbol,
                    price: buy.price,
                    amount: buy.amount - a,
                };
                proof {
                    lemma_tx_views_push(self.buy_order@, rb);
                }
                self.buy_order.push(rb);
            }
            if a != sell.amount {
                let rs = Transaction {
                    side: sell.side,
                    symbol: sell.symbol,
                    price: sell.price,
                    amount: sell.amount - a,
                };
                proof {
                    lemma_tx_views_push(self.sell_order@, rs);
                }
                self.sell_order.push(rs);
            }
            proof {
                let b = pre_buys.last();
                let s = pre_sells.last();
                let buys2 = if a != b.amount {
                    pre_buys.drop_last().push(residual(b, a))
                } else {
                    pre_buys.drop_last()
                };
                let sells2 = if a != s.amount {
                    pre_sells.drop_last().push(residual(s, a))
                } else {
                    pre_sells.drop_last()
                };
                assert(self@.buys == buys2);
                assert(self@.sells == sells2);
                assert(self@.candle == spec_trade_update(pre_candle, b.price, a));
                assert(spec_execute(pre_buys, pre_sells, pre_candle) == spec_execute(
                    buys2,
                    sells2,
                    spec_trade_update(pre_candle, b.price, a),
                ));
                // volume bound is conserved: the sell side loses exactly `a`.
                if a != s.amount {
                    lemma_qty_sum_push(pre_sells.drop_last(), residual(s, a));
                }
                // sortedness and sides survive the step
                assert(sorted_buys(pre_buys.drop_last()));
                assert(sorted_sells(pre_sells.drop_last()));
                if a != b.amount {
                    assert forall|x: int, y: int| 0 <= x <= y < buys2.len() implies buys2[x].price
                        <= buys2[y].price by {
                        if y < buys2.len() - 1 {
                            assert(buys2[x] == pre_buys[x] && buys2[y] == pre_buys[y]);
                        } else if x < y {
                            assert(buys2[x] == pre_buys[x]);
                            assert(pre_buys[x].price <= b.price);
                        }
                    }
                }
                if a != s.amount {
                    assert forall|x: int, y: int| 0 <= x <= y < sells2.len() implies sells2[x].price
                        >= sells2[y].price by {
                        if y < sells2.len() - 1 {
                            assert(sells2[x] == pre_sells[x] && sells2[y] == pre_sells[y]);
                        } else if x < y {
                            assert(sells2[x] == pre_sells[x]);
                            assert(pre_sells[x].price >= s.price);
                        }
                    }
                }
                assert(all_side(self@.buys, Side::Buy));
                assert(all_side(self@.sells, Side::Sell));
            }
        }
        proof {
            assert(spec_execute(self@.buys, self@.sells, self@.candle) == (
                self@.buys,
                self@.sells,
                self@.candle,
            ));
        }
    }
}

} // verus!
