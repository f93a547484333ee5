//! Normalized market data: candles, trades, order-book deltas, and the
//! exchange-independent live event that carries them. Instants are
//! milliseconds since the Unix epoch (UTC); money fields are exact decimals.
use vstd::prelude::*;

use crate::decimal::DecimalValue;
use crate::interval::Interval;
use crate::symbol::Symbol;

verus! {

/// OHLCV candle.
#[derive(Debug, Clone)]
pub struct Kline {
    pub open_time: i64,
    pub close_time: i64,
    pub symbol: Symbol,
    pub exchange: String,
    pub interval: Interval,
    pub open: DecimalValue,
    pub high: DecimalValue,
    pub low: DecimalValue,
    pub close: DecimalValue,
    /// Base-asset volume.
    pub volume: DecimalValue,
    /// Quote-asset volume.
    pub quote_volume: DecimalValue,
    pub trades_count: i32,
    pub taker_buy_base: Option<DecimalValue>,
    pub is_closed: bool,
}

/// Single trade.
#[derive(Debug, Clone)]
pub struct Trade {
    pub ts: i64,
    pub symbol: Symbol,
    pub exchange: String,
    pub trade_id: i64,
    pub price: DecimalValue,
    pub qty: DecimalValue,
    /// `true` when the aggressor (taker) was the seller.
    pub is_buyer_maker: bool,
}

/// Order book delta.
#[derive(Debug, Clone)]
pub struct DepthUpdate {
    pub ts: i64,
    pub symbol: Symbol,
    pub exchange: String,
    pub first_update_id: i64,
    pub final_update_id: i64,
    pub bids: Vec<(DecimalValue, DecimalValue)>,
    pub asks: Vec<(DecimalValue, DecimalValue)>,
}

/// Normalized live-stream event.
#[derive(Debug, Clone)]
pub enum MarketEvent {
    Trade(Trade),
    Kline(Kline),
    DepthUpdate(DepthUpdate),
}

/// The instant an event stands for: a trade's time, a candle's close, a
/// depth update's event time.
pub open spec fn event_instant(event: MarketEvent) -> i64 {
    match event {
        MarketEvent::Trade(t) => t.ts,
        MarketEvent::Kline(k) => k.close_time,
        MarketEvent::DepthUpdate(d) => d.ts,
    }
}

/// The instant an event stands for (see `event_instant`).
pub fn event_time(event: &MarketEvent) -> (r: i64)
    ensures
        r == event_instant(*event),
{
    match event {
        MarketEvent::Trade(t) => t.ts,
        MarketEvent::Kline(k) => k.close_time,
        MarketEvent::DepthUpdate(d) => d.ts,
    }
}

/// A closed time range, in milliseconds.
#[derive(Debug, Clone, Copy, PartialEq, Eq)]
pub struct TimeRange {
    pub from: i64,
    pub to: i64,
}

/// A tradable instrument listed by an exchange.
#[derive(Debug, Clone)]
pub struct Instrument {
    pub symbol: Symbol,
    pub base_asset: String,
    pub quote_asset: String,
    pub status: String,
}

/// A live stream kind to subscribe to.
#[derive(Debug, Clone, Copy, PartialEq, Eq, Structural)]
pub enum StreamKind {
    Trade,
    Kline(Interval),
    Depth,
}

} // verus!
