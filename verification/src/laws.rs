use vstd::prelude::*;
use vstd::arithmetic::div_mod::{lemma_div_is_ordered, lemma_div_multiples_vanish};
use crate::order_book::{
    lemma_qty_sum_nonneg, lemma_qty_sum_push, min_u32, qty_sum, residual, sorted_buys,
    spec_execute, spec_trade_update,
};
use crate::point::Point;
use crate::transaction::TransactionV;

verus! {

/// Full-match law: one buy and one sell of equal quantity whose prices cross
/// leave both queues empty, and the candle volume grows by exactly that
/// quantity.
pub proof fn lemma_full_match(b: TransactionV, s: TransactionV, c: Point)
    requires
        b.amount == s.amount,
        b.price >= s.price,
        c.volume + s.amount <= u64::MAX,
    ensures
        spec_execute(seq![b], seq![s], c).0 == Seq::<TransactionV>::empty(),
        spec_execute(seq![b], seq![s], c).1 == Seq::<TransactionV>::empty(),
        spec_execute(seq![b], seq![s], c).2.volume == c.volume + s.amount,
{
    let c2 = spec_trade_update(c, b.price, b.amount);
    assert(seq![b].drop_last() =~= Seq::<TransactionV>::empty());
    assert(seq![s].drop_last() =~= Seq::<TransactionV>::empty());
    assert(spec_execute(seq![b], seq![s], c) == spec_execute(
        Seq::<TransactionV>::empty(),
        Seq::<TransactionV>::empty(),
        c2,
    ));
}

/// Price-priority law: the matching step always consumes the buy at the top
/// of the sorted queue, and that buy is priced at least as high as every
/// resting buy; no lower-priced buy is ever matched while a higher-priced one
/// rests unmatched.
pub proof fn lemma_price_priority(buys: Seq<TransactionV>)
    requires
        sorted_buys(buys),
        buys.len() > 0,
    ensures
        forall|i: int| 0 <= i < buys.len() ==> buys[i].price <= buys.last().price,
{
}

/// Non-crossing termination law: when the top-of-book buy price is below the
/// top-of-book sell price, the matching pass stops at once and leaves the
/// book exactly as it found it.
pub proof fn lemma_non_crossing(buys: Seq<TransactionV>, sells: Seq<TransactionV>, c: Point)
    requires
        buys.len() > 0,
        sells.len() > 0,
        buys.last().price < sells.last().price,
    ensures
        spec_execute(buys, sells, c) == (buys, sells, c),
{
}

/// Partial-fill conservation law: on each side, the quantity left resting
/// plus the quantity matched (the growth of the candle volume) equals the
/// quantity that was resting before; no quantity is created or destroyed.
pub proof fn lemma_conservation(buys: Seq<TransactionV>, sells: Seq<TransactionV>, c: Point)
    requires
        c.volume + qty_sum(sells) <= u64::MAX,
    ensures
        spec_execute(buys, sells, c).2.volume >= c.volume,
        qty_sum(spec_execute(buys, sells, c).0) == qty_sum(buys) - (spec_execute(
            buys,
            sells,
            c,
        ).2.volume - c.volume),
        qty_sum(spec_execute(buys, sells, c).1) == qty_sum(sells) - (spec_execute(
            buys,
            sells,
            c,
        ).2.volume - c.volume),
    decreases buys.len() + sells.len(),
{
    lemma_qty_sum_nonneg(sells);
    if buys.len() > 0 && sells.len() > 0 && buys.last().price >= sells.last().price {
        let b = buys.last();
        let s = sells.last();
        let a = min_u32(b.amount, s.amount);
        let c2 = spec_trade_update(c, b.price, a);
        let buys2 = if a != b.amount {
            buys.drop_last().push(residual(b, a))
        } else {
            buys.drop_last()
        };
        let sells2 = if a != s.amount {
            sells.drop_last().push(residual(s, a))
        } else {
            sells.drop_last()
        };
        lemma_qty_sum_nonneg(sells.drop_last());
        if a != b.amount {
            lemma_qty_sum_push(buys.drop_last(), residual(b, a));
        }
        if a != s.amount {
            lemma_qty_sum_push(sells.drop_last(), residual(s, a));
        }
        assert(qty_sum(buys2) == qty_sum(buys) - a);
        assert(qty_sum(sells2) == qty_sum(sells) - a);
        assert(c2.volume == c.volume + a);
        lemma_conservation(buys2, sells2, c2);
    }
}

/// Candle monotonicity law: across a whole matching pass the high never
/// falls, the low never rises, the volume never falls, and the open and the
/// timestamp of the candle are untouched.
pub proof fn lemma_candle_monotonic(buys: Seq<TransactionV>, sells: Seq<TransactionV>, c: Point)
    requires
        c.volume + qty_sum(sells) <= u64::MAX,
    ensures
        spec_execute(buys, sells, c).2.high >= c.high,
        spec_execute(buys, sells, c).2.low <= c.low,
        spec_execute(buys, sells, c).2.volume >= c.volume,
        spec_execute(buys, sells, c).2.open == c.open,
        spec_execute(buys, sells, c).2.timestamp == c.timestamp,
    decreases buys.len() + sells.len(),
{
    lemma_qty_sum_nonneg(sells);
    if buys.len() > 0 && sells.len() > 0 && buys.last().price >= sells.last().price {
        let b = buys.last();
        let s = sells.last();
        let a = min_u32(b.amount, s.amount);
        let c2 = spec_trade_update(c, b.price, a);
        let buys2 = if a != b.amount {
            buys.drop_last().push(residual(b, a))
        } else {
            buys.drop_last()
        };
        let sells2 = if a != s.amount {
            sells.drop_last().push(residual(s, a))
        } else {
            sells.drop_last()
        };
        lemma_qty_sum_nonneg(sells.drop_last());
        if a != s.amount {
            lemma_qty_sum_push(sells.drop_last(), residual(s, a));
        }
        assert(qty_sum(sells2) == qty_sum(sells) - a);
        lemma_candle_monotonic(buys2, sells2, c2);
    }
}

/// One matching step updates the candle by exactly the matched amount: the
/// volume grows by precisely that amount, while high and low absorb the trade
/// price.
pub proof fn lemma_trade_step_exact(c: Point, price: u32, amount: u32)
    requires
        c.volume + amount <= u64::MAX,
    ensures
        spec_trade_update(c, price, amount).volume == c.volume + amount,
        spec_trade_update(c, price, amount).high == if price > c.high {
            price
        } else {
            c.high
        },
        spec_trade_update(c, price, amount).low == if price < c.low {
            price
        } else {
            c.low
        },
{
}

/// Candle consistency law: a candle whose close lies between its low and its
/// high keeps that order through a trade — the new close is a weighted
/// average of the old close and the trade price, both of which lie between
/// the new low and the new high.
pub proof fn lemma_candle_bounds(c: Point, price: u32, amount: u32)
    requires
        c.low <= c.close <= c.high,
        c.volume + amount <= u64::MAX,
    ensures
        spec_trade_update(c, price, amount).low <= spec_trade_update(c, price, amount).close,
        spec_trade_update(c, price, amount).close <= spec_trade_update(c, price, amount).high,
{
    let a: int = amount as int;
    let v: int = c.volume as int;
    let p: int = price as int;
    let cl: int = c.close as int;
    if a + v > 0 {
        let mn: int = if p < cl {
            p
        } else {
            cl
        };
        let mx: int = if p > cl {
            p
        } else {
            cl
        };
        assert((a + v) * mn <= a * p + v * cl && a * p + v * cl <= (a + v) * mx)
            by (nonlinear_arith)
            requires
                0 <= a,
                0 <= v,
                mn <= p <= mx,
                mn <= cl <= mx,
        ;
        lemma_div_is_ordered((a + v) * mn, a * p + v * cl, a + v);
        lemma_div_is_ordered(a * p + v * cl, (a + v) * mx, a + v);
        assert((a + v) * mn == mn * (a + v) && (a + v) * mx == mx * (a + v)) by (nonlinear_arith);
        lemma_div_multiples_vanish(mn, a + v);
        lemma_div_multiples_vanish(mx, a + v);
        assert(mn <= (a * p + v * cl) / (a + v) <= mx);
    }
}

/// Exhaustiveness law: a matching pass never stops while a match is still
/// possible; afterwards either a queue is empty or the book is non-crossing.
pub proof fn lemma_exhaustive(buys: Seq<TransactionV>, sells: Seq<TransactionV>, c: Point)
    ensures
        spec_execute(buys, sells, c).0.len() == 0 || spec_execute(buys, sells, c).1.len() == 0
            || spec_execute(buys, sells, c).0.last().price < spec_execute(
            buys,
            sells,
            c,
        ).1.last().price,
    decreases buys.len() + sells.len(),
{
    if buys.len() > 0 && sells.len() > 0 && buys.last().price >= sells.last().price {
        let b = buys.last();
        let s = sells.last();
        let a = min_u32(b.amount, s.amount);
        let c2 = spec_trade_update(c, b.price, a);
        let buys2 = if a != b.amount {
            buys.drop_last().push(residual(b, a))
        } else {
            buys.drop_last()
        };
        let sells2 = if a != s.amount {
            sells.drop_last().push(residual(s, a))
        } else {
            sells.drop_last()
        };
        lemma_exhaustive(buys2, sells2, c2);
    }
}

} // verus!
