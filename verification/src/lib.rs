//! A minimal continuous double-auction matching core: resting buy and sell
//! orders for a single instrument are admitted into two price-ordered queues,
//! matched under price priority, and each executed trade is folded into a
//! running OHLCV candle that can be snapshotted into a time-windowed series.

pub mod clock;
pub mod codec;
pub mod laws;
pub mod order_book;
pub mod point;
pub mod time_range;
pub mod time_series;
pub mod transaction;
