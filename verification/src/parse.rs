//! Normalization of the exchange's REST kline rows and live stream events
//! into the model types. Money fields are brought to 8 fractional digits;
//! a field that cannot be read fails the whole record with a message that
//! names the first bad field.
use vstd::prelude::*;

use crate::decimal::{
    decimal_parse, decimal_render, rescale_checked, rescale_up, DecimalValue,
};
use crate::error::{
    decimal_scale_message, exchange_error_message, invalid_interval_message,
    invalid_symbol_message, parse_error_message, CoreError, ExchangeError,
};
use crate::interval::{interval_of_text, Interval};
use crate::model::{DepthUpdate, Kline, MarketEvent, Trade};
use crate::symbol::{is_valid_symbol, Symbol};
use crate::text::{decimal_text, owned, push_decimal_i64, push_decimal_u64, signed_decimal_text};
use crate::time::{millis_representable, utc_millis_representable};

verus! {

/// Fractional digits every stored price and quantity carries.
pub const MONEY_SCALE: u32 = 8;

/// What the normalization reads of one JSON value: an integer that fits
/// `i64`, a string, or anything else.
#[derive(Debug, Clone)]
pub enum JsonField {
    Int(i64),
    Str(String),
    Other,
}

/// The error message of a failed step, if it failed.
pub open spec fn err_of<T>(r: Result<T, Seq<char>>) -> Option<Seq<char>> {
    match r {
        Ok(_) => None,
        Err(m) => Some(m),
    }
}

/// `r` is the outcome `o`: the same value, or an error with message `m`.
pub open spec fn agrees<T>(r: Result<T, ExchangeError>, o: Result<T, Seq<char>>) -> bool {
    match (r, o) {
        (Ok(a), Ok(b)) => a == b,
        (Err(e), Err(m)) => exchange_error_message(e) == m,
        _ => false,
    }
}

/// `r` is the decimal outcome `o`.
pub open spec fn agrees_decimal(r: Result<DecimalValue, ExchangeError>, o: Result<(int, nat), Seq<char>>) -> bool {
    match (r, o) {
        (Ok(d), Ok(p)) => d.wf() && (d.mantissa as int, d.scale as nat) == p,
        (Err(e), Err(m)) => exchange_error_message(e) == m,
        _ => false,
    }
}

/// `d` holds the decimal value `p`.
pub open spec fn holds(d: DecimalValue, p: (int, nat)) -> bool {
    d.wf() && (d.mantissa as int, d.scale as nat) == p
}

/// An instant in milliseconds, accepted when the calendar can hold it.
pub open spec fn millis_outcome(ms: i64) -> Result<i64, Seq<char>> {
    if utc_millis_representable(ms as int) {
        Ok(ms)
    } else {
        Err(parse_error_message("timestamp "@ + signed_decimal_text(ms as int) + " out of range"@))
    }
}

/// A decimal text, read by the decimal parser.
pub open spec fn decimal_outcome(s: Seq<char>) -> Result<(int, nat), Seq<char>> {
    match decimal_parse(s) {
        Ok(p) => Ok(p),
        Err(e) => Err(parse_error_message("invalid decimal '"@ + s + "': "@ + e)),
    }
}

/// A money text: a decimal with at most 8 fractional digits, brought to 8.
pub open spec fn money_outcome(s: Seq<char>) -> Result<(int, nat), Seq<char>> {
    match decimal_outcome(s) {
        Err(m) => Err(m),
        Ok(p) => if p.1 > 8 {
            Err(decimal_scale_message(decimal_render(p.0, p.1), p.1, 8))
        } else {
            Ok(rescale_up(p.0, p.1, 8))
        },
    }
}

/// A JSON timestamp field: an integer instant in milliseconds.
pub open spec fn timestamp_field_outcome(f: JsonField) -> Result<i64, Seq<char>> {
    match f {
        JsonField::Int(ms) => millis_outcome(ms),
        _ => Err(parse_error_message("timestamp field is not an integer"@)),
    }
}

/// A JSON money field: a string-encoded decimal.
pub open spec fn money_field_outcome(f: JsonField) -> Result<(int, nat), Seq<char>> {
    match f {
        JsonField::Str(s) => money_outcome(s@),
        _ => Err(parse_error_message("expected a string-encoded decimal"@)),
    }
}

/// The JSON trades-count field: an integer that fits `i32`.
pub open spec fn count_field_outcome(f: JsonField) -> Result<i32, Seq<char>> {
    match f {
        JsonField::Int(v) => if i32::MIN <= v <= i32::MAX {
            Ok(v as i32)
        } else {
            Err(parse_error_message("trades_count "@ + signed_decimal_text(v as int) + " does not fit in i32"@))
        },
        _ => Err(parse_error_message("trades_count is not an integer"@)),
    }
}

/// The first failure in reading a REST kline row, if any: too few fields,
/// then fields 0 to 9 in order.
pub open spec fn kline_row_error(row: Seq<JsonField>) -> Option<Seq<char>> {
    if row.len() < 11 {
        Some(parse_error_message("kline row has "@ + decimal_text(row.len()) + " fields, expected at least 11"@))
    } else if err_of(timestamp_field_outcome(row[0])) is Some {
        err_of(timestamp_field_outcome(row[0]))
    } else if err_of(money_field_outcome(row[1])) is Some {
        err_of(money_field_outcome(row[1]))
    } else if err_of(money_field_outcome(row[2])) is Some {
        err_of(money_field_outcome(row[2]))
    } else if err_of(money_field_outcome(row[3])) is Some {
        err_of(money_field_outcome(row[3]))
    } else if err_of(money_field_outcome(row[4])) is Some {
        err_of(money_field_outcome(row[4]))
    } else if err_of(money_field_outcome(row[5])) is Some {
        err_of(money_field_outcome(row[5]))
    } else if err_of(timestamp_field_outcome(row[6])) is Some {
        err_of(timestamp_field_outcome(row[6]))
    } else if err_of(money_field_outcome(row[7])) is Some {
        err_of(money_field_outcome(row[7]))
    } else if err_of(count_field_outcome(row[8])) is Some {
        err_of(count_field_outcome(row[8]))
    } else {
        err_of(money_field_outcome(row[9]))
    }
}

fn parse_failure(prefix: &str, body: &str, suffix: &str) -> (e: ExchangeError)
    ensures
        exchange_error_message(e) == parse_error_message(prefix@ + body@ + suffix@),
{
    let mut s = owned(prefix);
    s.append(body);
    s.append(suffix);
    ExchangeError::Parse(s)
}

fn parse_failure_int(prefix: &str, v: i64, suffix: &str) -> (e: ExchangeError)
    ensures
        exchange_error_message(e) == parse_error_message(prefix@ + signed_decimal_text(v as int) + suffix@),
{
    let mut s = owned(prefix);
    push_decimal_i64(&mut s, v);
    s.append(suffix);
    ExchangeError::Parse(s)
}

/// An instant in milliseconds, checked against the calendar's range.
pub fn ts_millis(ms: i64) -> (r: Result<i64, ExchangeError>)
    ensures
        agrees(r, millis_outcome(ms)),
{
    if millis_representable(ms) {
        Ok(ms)
    } else {
        Err(parse_failure_int("timestamp ", ms, " out of range"))
    }
}

/// Reads a decimal text.
pub fn dec(s: &str) -> (r: Result<DecimalValue, ExchangeError>)
    ensures
        agrees_decimal(r, decimal_outcome(s@)),
{
    match DecimalValue::from_str(s) {
        Ok(d) => Ok(d),
        Err(e) => {
            let mut m = owned("invalid decimal '");
            m.append(s);
            m.append("': ");
            m.append(e.as_str());
            proof {
                assert(m@ == "invalid decimal '"@ + s@ + "': "@ + e@);
            }
            Err(ExchangeError::Parse(m))
        },
    }
}

/// Reads a money text, brought to 8 fractional digits.
pub fn money(s: &str) -> (r: Result<DecimalValue, ExchangeError>)
    ensures
        agrees_decimal(r, money_outcome(s@)),
{
    let d = match dec(s) {
        Ok(d) => d,
        Err(e) => {
            return Err(e);
        },
    };
    proof {
        if d.scale <= MONEY_SCALE {
            crate::decimal::lemma_rescale_up_bounds(d.mantissa as int, d.scale as nat, MONEY_SCALE as nat);
        }
    }
    match rescale_checked(d, MONEY_SCALE) {
        Ok(v) => Ok(v),
        Err(c) => Err(ExchangeError::Domain(c)),
    }
}

fn timestamp_field(f: &JsonField) -> (r: Result<i64, ExchangeError>)
    ensures
        agrees(r, timestamp_field_outcome(*f)),
{
    match f {
        JsonField::Int(ms) => ts_millis(*ms),
        _ => Err(ExchangeError::Parse(owned("timestamp field is not an integer"))),
    }
}

fn money_field(f: &JsonField) -> (r: Result<DecimalValue, ExchangeError>)
    ensures
        agrees_decimal(r, money_field_outcome(*f)),
{
    match f {
        JsonField::Str(s) => money(s.as_str()),
        _ => Err(ExchangeError::Parse(owned("expected a string-encoded decimal"))),
    }
}

fn count_field(f: &JsonField) -> (r: Result<i32, ExchangeError>)
    ensures
        agrees(r, count_field_outcome(*f)),
{
    match f {
        JsonField::Int(v) => {
            if i32::MIN as i64 <= *v && *v <= i32::MAX as i64 {
                Ok(*v as i32)
            } else {
                Err(parse_failure_int("trades_count ", *v, " does not fit in i32"))
            }
        },
        _ => Err(ExchangeError::Parse(owned("trades_count is not an integer"))),
    }
}

/// Normalizes one REST kline row `[open_time, open, high, low, close,
/// volume, close_time, quote_volume, trades, taker_buy_base, ...]`.
/// Fails exactly when `kline_row_error` names a failure, with that message;
/// otherwise every field is read as stated, and the candle counts as closed
/// when its close time is not after `now` (milliseconds).
pub fn parse_kline_row(
    row: &Vec<JsonField>,
    symbol: &Symbol,
    interval: Interval,
    exchange: &str,
    now: i64,
) -> (r: Result<Kline, ExchangeError>)
    ensures
        r is Err <==> kline_row_error(row@) is Some,
        r matches Err(e) ==> kline_row_error(row@) == Some(exchange_error_message(e)),
        r matches Ok(k) ==> {
            &&& row@.len() >= 11
            &&& timestamp_field_outcome(row@[0]) == Ok::<i64, Seq<char>>(k.open_time)
            &&& timestamp_field_outcome(row@[6]) == Ok::<i64, Seq<char>>(k.close_time)
            &&& money_field_outcome(row@[1]) is Ok && holds(k.open, money_field_outcome(row@[1])->Ok_0)
            &&& money_field_outcome(row@[2]) is Ok && holds(k.high, money_field_outcome(row@[2])->Ok_0)
            &&& money_field_outcome(row@[3]) is Ok && holds(k.low, money_field_outcome(row@[3])->Ok_0)
            &&& money_field_outcome(row@[4]) is Ok && holds(k.close, money_field_outcome(row@[4])->Ok_0)
            &&& money_field_outcome(row@[5]) is Ok && holds(k.volume, money_field_outcome(row@[5])->Ok_0)
            &&& money_field_outcome(row@[7]) is Ok && holds(
                k.quote_volume,
                money_field_outcome(row@[7])->Ok_0,
            )
            &&& count_field_outcome(row@[8]) == Ok::<i32, Seq<char>>(k.trades_count)
            &&& money_field_outcome(row@[9]) is Ok && k.taker_buy_base is Some && holds(
                k.taker_buy_base->Some_0,
                money_field_outcome(row@[9])->Ok_0,
            )
            &&& k.symbol@ == symbol@
            &&& k.exchange@ == exchange@
            &&& k.interval == interval
            &&& k.is_closed == (k.close_time <= now)
        },
{
    if row.len() < 11 {
        let mut m = owned("kline row has ");
        push_decimal_u64(&mut m, row.len() as u64);
        m.append(" fields, expected at least 11");
        return Err(ExchangeError::Parse(m));
    }
    let open_time = match timestamp_field(&row[0]) {
        Ok(v) => v,
        Err(e) => return Err(e),
    };
    let open = match money_field(&row[1]) {
        Ok(v) => v,
        Err(e) => return Err(e),
    };
    let high = match money_field(&row[2]) {
        Ok(v) => v,
        Err(e) => return Err(e),
    };
    let low = match money_field(&row[3]) {
        Ok(v) => v,
        Err(e) => return Err(e),
    };
    let close = match money_field(&row[4]) {
        Ok(v) => v,
        Err(e) => return Err(e),
    };
    let volume = match money_field(&row[5]) {
        Ok(v) => v,
        Err(e) => return Err(e),
    };
    let close_time = match timestamp_field(&row[6]) {
        Ok(v) => v,
        Err(e) => return Err(e),
    };
    let quote_volume = match money_field(&row[7]) {
        Ok(v) => v,
        Err(e) => return Err(e),
    };
    let trades_count = match count_field(&row[8]) {
        Ok(v) => v,
        Err(e) => return Err(e),
    };
    let taker_buy_base = match money_field(&row[9]) {
        Ok(v) => v,
        Err(e) => return Err(e),
    };
    Ok(
        Kline {
            open_time,
            close_time,
            symbol: symbol.duplicate(),
            exchange: owned(exchange),
            interval,
            open,
            high,
            low,
            close,
            volume,
            quote_volume,
            trades_count,
            taker_buy_base: Some(taker_buy_base),
            is_closed: close_time <= now,
        },
    )
}

/// A symbol text, validated.
pub open spec fn symbol_outcome(s: Seq<char>) -> Option<Seq<char>> {
    if is_valid_symbol(s) {
        None
    } else {
        Some(invalid_symbol_message(s))
    }
}

fn symbol_of(s: &str) -> (r: Result<Symbol, ExchangeError>)
    ensures
        r is Err <==> symbol_outcome(s@) is Some,
        r matches Err(e) ==> symbol_outcome(s@) == Some(exchange_error_message(e)),
        r matches Ok(sym) ==> sym@ == s@,
{
    match Symbol::new(s) {
        Ok(sym) => Ok(sym),
        Err(c) => Err(ExchangeError::Domain(c)),
    }
}

/// A raw `trade` stream event.
#[derive(Debug, Clone)]
pub struct RawTradeEvent {
    pub symbol: String,
    pub trade_id: i64,
    pub price: String,
    pub qty: String,
    pub trade_time_ms: i64,
    pub is_buyer_maker: bool,
}

/// The first failure in normalizing a trade event, if any.
pub open spec fn trade_event_error(raw: RawTradeEvent) -> Option<Seq<char>> {
    if err_of(millis_outcome(raw.trade_time_ms)) is Some {
        err_of(millis_outcome(raw.trade_time_ms))
    } else if symbol_outcome(raw.symbol@) is Some {
        symbol_outcome(raw.symbol@)
    } else if err_of(money_outcome(raw.price@)) is Some {
        err_of(money_outcome(raw.price@))
    } else {
        err_of(money_outcome(raw.qty@))
    }
}

/// Whether `t` is the trade a raw trade event describes, on `exchange`:
/// its time, symbol, id and side as sent, price and quantity as parsed.
pub open spec fn trade_of(t: Trade, raw: RawTradeEvent, exchange: Seq<char>) -> bool {
    &&& t.ts == raw.trade_time_ms
    &&& t.symbol@ == raw.symbol@
    &&& t.exchange@ == exchange
    &&& t.trade_id == raw.trade_id
    &&& money_outcome(raw.price@) is Ok && holds(t.price, money_outcome(raw.price@)->Ok_0)
    &&& money_outcome(raw.qty@) is Ok && holds(t.qty, money_outcome(raw.qty@)->Ok_0)
    &&& t.is_buyer_maker == raw.is_buyer_maker
}

/// A normalized trade's price is the decimal read from the event's price
/// text and its quantity the decimal read from its quantity text, at eight
/// fractional digits; its time, id, symbol and side are the event's.
pub proof fn lemma_trade_fields(t: Trade, raw: RawTradeEvent, exchange: Seq<char>)
    requires
        trade_of(t, raw, exchange),
    ensures
        money_outcome(raw.price@) == Ok::<(int, nat), Seq<char>>((t.price.mantissa as int, t.price.scale as nat)),
        money_outcome(raw.qty@) == Ok::<(int, nat), Seq<char>>((t.qty.mantissa as int, t.qty.scale as nat)),
        t.ts == raw.trade_time_ms,
        t.trade_id == raw.trade_id,
        t.symbol@ == raw.symbol@,
        t.exchange@ == exchange,
        t.is_buyer_maker == raw.is_buyer_maker,
{
}

impl RawTradeEvent {
    /// Normalizes the event; fails exactly as `trade_event_error` says.
    pub fn into_trade(self, exchange: &str) -> (r: Result<Trade, ExchangeError>)
        ensures
            r is Err <==> trade_event_error(self) is Some,
            r matches Err(e) ==> trade_event_error(self) == Some(exchange_error_message(e)),
            r matches Ok(t) ==> trade_of(t, self, exchange@),
            r matches Ok(t) ==> t.ts == self.trade_time_ms && t.trade_id == self.trade_id && t.symbol@ == self.symbol@
                && t.exchange@ == exchange@ && t.is_buyer_maker == self.is_buyer_maker && money_outcome(self.price@)
                == Ok::<(int, nat), Seq<char>>((t.price.mantissa as int, t.price.scale as nat)) && money_outcome(
                self.qty@,
            ) == Ok::<(int, nat), Seq<char>>((t.qty.mantissa as int, t.qty.scale as nat)),
    {
        let ts = match ts_millis(self.trade_time_ms) {
            Ok(v) => v,
            Err(e) => return Err(e),
        };
        let symbol = match symbol_of(self.symbol.as_str()) {
            Ok(v) => v,
            Err(e) => return Err(e),
        };
        let price = match money(self.price.as_str()) {
            Ok(v) => v,
            Err(e) => return Err(e),
        };
        let qty = match money(self.qty.as_str()) {
            Ok(v) => v,
            Err(e) => return Err(e),
        };
        Ok(
            Trade {
                ts,
                symbol,
                exchange: owned(exchange),
                trade_id: self.trade_id,
                price,
                qty,
                is_buyer_maker: self.is_buyer_maker,
            },
        )
    }
}

/// The candle payload of a raw `kline` stream event.
#[derive(Debug, Clone)]
pub struct RawKlinePayload {
    pub open_time_ms: i64,
    pub close_time_ms: i64,
    pub symbol: String,
    pub interval: String,
    pub open: String,
    pub high: String,
    pub low: String,
    pub close: String,
    pub volume: String,
    pub quote_volume: String,
    pub trades_count: i32,
    pub is_closed: bool,
    pub taker_buy_base: String,
}

/// An interval text, validated.
pub open spec fn interval_outcome(s: Seq<char>) -> Option<Seq<char>> {
    if interval_of_text(s) is Some {
        None
    } else {
        Some(invalid_interval_message(s))
    }
}

/// The first failure in normalizing a candle payload, if any.
pub open spec fn kline_payload_error(raw: RawKlinePayload) -> Option<Seq<char>> {
    if err_of(millis_outcome(raw.open_time_ms)) is Some {
        err_of(millis_outcome(raw.open_time_ms))
    } else if err_of(millis_outcome(raw.close_time_ms)) is Some {
        err_of(millis_outcome(raw.close_time_ms))
    } else if symbol_outcome(raw.symbol@) is Some {
        symbol_outcome(raw.symbol@)
    } else if interval_outcome(raw.interval@) is Some {
        interval_outcome(raw.interval@)
    } else if err_of(money_outcome(raw.open@)) is Some {
        err_of(money_outcome(raw.open@))
    } else if err_of(money_outcome(raw.high@)) is Some {
        err_of(money_outcome(raw.high@))
    } else if err_of(money_outcome(raw.low@)) is Some {
        err_of(money_outcome(raw.low@))
    } else if err_of(money_outcome(raw.close@)) is Some {
        err_of(money_outcome(raw.close@))
    } else if err_of(money_outcome(raw.volume@)) is Some {
        err_of(money_outcome(raw.volume@))
    } else if err_of(money_outcome(raw.quote_volume@)) is Some {
        err_of(money_outcome(raw.quote_volume@))
    } else {
        err_of(money_outcome(raw.taker_buy_base@))
    }
}

/// Whether `k` is the candle a raw kline payload describes, on
/// `exchange`: its times, symbol, trade count and closed flag as sent, its
/// interval, prices and volumes as parsed.
pub open spec fn kline_of(k: Kline, raw: RawKlinePayload, exchange: Seq<char>) -> bool {
    &&& k.open_time == raw.open_time_ms
    &&& k.close_time == raw.close_time_ms
    &&& k.symbol@ == raw.symbol@
    &&& k.exchange@ == exchange
    &&& interval_of_text(raw.interval@) == Some(k.interval)
    &&& money_outcome(raw.open@) is Ok && holds(k.open, money_outcome(raw.open@)->Ok_0)
    &&& money_outcome(raw.high@) is Ok && holds(k.high, money_outcome(raw.high@)->Ok_0)
    &&& money_outcome(raw.low@) is Ok && holds(k.low, money_outcome(raw.low@)->Ok_0)
    &&& money_outcome(raw.close@) is Ok && holds(k.close, money_outcome(raw.close@)->Ok_0)
    &&& money_outcome(raw.volume@) is Ok && holds(k.volume, money_outcome(raw.volume@)->Ok_0)
    &&& money_outcome(raw.quote_volume@) is Ok && holds(k.quote_volume, money_outcome(raw.quote_volume@)->Ok_0)
    &&& k.trades_count == raw.trades_count
    &&& money_outcome(raw.taker_buy_base@) is Ok && k.taker_buy_base is Some && holds(
        k.taker_buy_base->Some_0,
        money_outcome(raw.taker_buy_base@)->Ok_0,
    )
    &&& k.is_closed == raw.is_closed
}

/// A normalized candle keeps the payload's interval, and each of its
/// prices and volumes is the decimal read from the matching text of the
/// payload (open from open, high from high, and so on).
pub proof fn lemma_kline_fields(k: Kline, raw: RawKlinePayload, exchange: Seq<char>)
    requires
        kline_of(k, raw, exchange),
    ensures
        interval_of_text(raw.interval@) == Some(k.interval),
        money_outcome(raw.open@) == Ok::<(int, nat), Seq<char>>((k.open.mantissa as int, k.open.scale as nat)),
        money_outcome(raw.high@) == Ok::<(int, nat), Seq<char>>((k.high.mantissa as int, k.high.scale as nat)),
        money_outcome(raw.low@) == Ok::<(int, nat), Seq<char>>((k.low.mantissa as int, k.low.scale as nat)),
        money_outcome(raw.close@) == Ok::<(int, nat), Seq<char>>((k.close.mantissa as int, k.close.scale as nat)),
        money_outcome(raw.volume@) == Ok::<(int, nat), Seq<char>>((k.volume.mantissa as int, k.volume.scale as nat)),
        money_outcome(raw.quote_volume@) == Ok::<(int, nat), Seq<char>>(
            (k.quote_volume.mantissa as int, k.quote_volume.scale as nat),
        ),
        k.taker_buy_base is Some && money_outcome(raw.taker_buy_base@) == Ok::<(int, nat), Seq<char>>(
            (k.taker_buy_base->Some_0.mantissa as int, k.taker_buy_base->Some_0.scale as nat),
        ),
        k.open_time == raw.open_time_ms && k.close_time == raw.close_time_ms,
        k.symbol@ == raw.symbol@ && k.exchange@ == exchange,
        k.trades_count == raw.trades_count && k.is_closed == raw.is_closed,
{
}

impl RawKlinePayload {
    /// Normalizes the candle; fails exactly as `kline_payload_error` says.
    /// The candle is closed exactly when the payload says so.
    pub fn into_kline(self, exchange: &str) -> (r: Result<Kline, ExchangeError>)
        ensures
            r is Err <==> kline_payload_error(self) is Some,
            r matches Err(e) ==> kline_payload_error(self) == Some(exchange_error_message(e)),
            r matches Ok(k) ==> kline_of(k, self, exchange@),
            r matches Ok(k) ==> k.open_time == self.open_time_ms && k.close_time == self.close_time_ms && k.symbol@
                == self.symbol@ && k.exchange@ == exchange@ && interval_of_text(self.interval@) == Some(k.interval)
                && money_outcome(self.open@) == Ok::<(int, nat), Seq<char>>((k.open.mantissa as int, k.open.scale as nat))
                && money_outcome(self.high@) == Ok::<(int, nat), Seq<char>>((k.high.mantissa as int, k.high.scale as nat))
                && money_outcome(self.low@) == Ok::<(int, nat), Seq<char>>((k.low.mantissa as int, k.low.scale as nat))
                && money_outcome(self.close@) == Ok::<(int, nat), Seq<char>>(
                (k.close.mantissa as int, k.close.scale as nat),
            ) && money_outcome(self.volume@) == Ok::<(int, nat), Seq<char>>(
                (k.volume.mantissa as int, k.volume.scale as nat),
            ) && money_outcome(self.quote_volume@) == Ok::<(int, nat), Seq<char>>(
                (k.quote_volume.mantissa as int, k.quote_volume.scale as nat),
            ) && k.trades_count == self.trades_count && k.is_closed == self.is_closed && k.taker_buy_base is Some
                && money_outcome(self.taker_buy_base@) == Ok::<(int, nat), Seq<char>>(
                (k.taker_buy_base->Some_0.mantissa as int, k.taker_buy_base->Some_0.scale as nat),
            ),
    {
        let open_time = match ts_millis(self.open_time_ms) {
            Ok(v) => v,
            Err(e) => return Err(e),
        };
        let close_time = match ts_millis(self.close_time_ms) {
            Ok(v) => v,
            Err(e) => return Err(e),
        };
        let symbol = match symbol_of(self.symbol.as_str()) {
            Ok(v) => v,
            Err(e) => return Err(e),
        };
        let interval = match Interval::from_str(self.interval.as_str()) {
            Ok(v) => v,
            Err(c) => return Err(ExchangeError::Domain(c)),
        };
        let open = match money(self.open.as_str()) {
            Ok(v) => v,
            Err(e) => return Err(e),
        };
        let high = match money(self.high.as_str()) {
            Ok(v) => v,
            Err(e) => return Err(e),
        };
        let low = match money(self.low.as_str()) {
            Ok(v) => v,
            Err(e) => return Err(e),
        };
        let close = match money(self.close.as_str()) {
            Ok(v) => v,
            Err(e) => return Err(e),
        };
        let volume = match money(self.volume.as_str()) {
            Ok(v) => v,
            Err(e) => return Err(e),
        };
        let quote_volume = match money(self.quote_volume.as_str()) {
            Ok(v) => v,
            Err(e) => return Err(e),
        };
        let taker_buy_base = match money(self.taker_buy_base.as_str()) {
            Ok(v) => v,
            Err(e) => return Err(e),
        };
        Ok(
            Kline {
                open_time,
                close_time,
                symbol,
                exchange: owned(exchange),
                interval,
                open,
                high,
                low,
                close,
                volume,
                quote_volume,
                trades_count: self.trades_count,
                taker_buy_base: Some(taker_buy_base),
                is_closed: self.is_closed,
            },
        )
    }
}

/// A raw `depthUpdate` stream event; levels are `(price, quantity)` texts.
#[derive(Debug, Clone)]
pub struct RawDepthEvent {
    pub symbol: String,
    pub event_time_ms: i64,
    pub first_update_id: i64,
    pub final_update_id: i64,
    pub bids: Vec<(String, String)>,
    pub asks: Vec<(String, String)>,
}

/// The first failure in reading one price level, if any.
pub open spec fn level_error(l: (String, String)) -> Option<Seq<char>> {
    if err_of(decimal_outcome(l.0@)) is Some {
        err_of(decimal_outcome(l.0@))
    } else {
        err_of(decimal_outcome(l.1@))
    }
}

/// The first failure in reading a list of price levels, if any.
pub open spec fn levels_error(v: Seq<(String, String)>) -> Option<Seq<char>>
    decreases v.len(),
{
    if v.len() == 0 {
        None
    } else if level_error(v[0]) is Some {
        level_error(v[0])
    } else {
        levels_error(v.drop_first())
    }
}

proof fn lemma_levels_error_skip(v: Seq<(String, String)>, i: int)
    requires
        0 <= i <= v.len(),
        forall|j: int| 0 <= j < i ==> level_error(#[trigger] v[j]) is None,
    ensures
        levels_error(v) == levels_error(v.subrange(i, v.len() as int)),
    decreases i,
{
    if i == 0 {
        assert(v.subrange(0, v.len() as int) == v);
    } else {
        lemma_levels_error_skip(v, i - 1);
        let w = v.subrange(i - 1, v.len() as int);
        assert(w[0] == v[i - 1]);
        assert(w.drop_first() == v.subrange(i, v.len() as int));
    }
}

/// Whether `out` holds, level by level, the prices and quantities that
/// `raw` sends.
pub open spec fn levels_read(out: Seq<(DecimalValue, DecimalValue)>, raw: Seq<(String, String)>) -> bool {
    &&& out.len() == raw.len()
    &&& forall|j: int|
        0 <= j < raw.len() ==> {
            &&& decimal_outcome((#[trigger] raw[j]).0@) is Ok
            &&& decimal_outcome(raw[j].1@) is Ok
            &&& holds(out[j].0, decimal_outcome(raw[j].0@)->Ok_0)
            &&& holds(out[j].1, decimal_outcome(raw[j].1@)->Ok_0)
        }
}

/// Reads every price level, failing at the first bad one (decimals are kept
/// at the precision they were sent with).
pub fn levels(raw: &Vec<(String, String)>) -> (r: Result<Vec<(DecimalValue, DecimalValue)>, ExchangeError>)
    ensures
        r is Err <==> levels_error(raw@) is Some,
        r matches Err(e) ==> levels_error(raw@) == Some(exchange_error_message(e)),
        r matches Ok(out) ==> levels_read(out@, raw@),
{
    let mut out: Vec<(DecimalValue, DecimalValue)> = Vec::new();
    for i in 0..raw.len()
        invariant
            out@.len() == i,
            forall|j: int| 0 <= j < i ==> level_error(#[trigger] raw@[j]) is None,
            forall|j: int|
                0 <= j < i ==> {
                    &&& decimal_outcome((#[trigger] raw@[j]).0@) is Ok
                    &&& decimal_outcome(raw@[j].1@) is Ok
                    &&& holds(out@[j].0, decimal_outcome(raw@[j].0@)->Ok_0)
                    &&& holds(out@[j].1, decimal_outcome(raw@[j].1@)->Ok_0)
                },
    {
        let p = match dec(raw[i].0.as_str()) {
            Ok(v) => v,
            Err(e) => {
                proof {
                    lemma_levels_error_skip(raw@, i as int);
                    let w = raw@.subrange(i as int, raw@.len() as int);
                    assert(w[0] == raw@[i as int]);
                }
                return Err(e);
            },
        };
        let q = match dec(raw[i].1.as_str()) {
            Ok(v) => v,
            Err(e) => {
                proof {
                    lemma_levels_error_skip(raw@, i as int);
                    let w = raw@.subrange(i as int, raw@.len() as int);
                    assert(w[0] == raw@[i as int]);
                }
                return Err(e);
            },
        };
        out.push((p, q));
    }
    proof {
        lemma_levels_error_skip(raw@, raw@.len() as int);
        assert(raw@.subrange(raw@.len() as int, raw@.len() as int).len() == 0);
    }
    Ok(out)
}

/// The first failure in normalizing a depth event, if any.
pub open spec fn depth_event_error(raw: RawDepthEvent) -> Option<Seq<char>> {
    if err_of(millis_outcome(raw.event_time_ms)) is Some {
        err_of(millis_outcome(raw.event_time_ms))
    } else if symbol_outcome(raw.symbol@) is Some {
        symbol_outcome(raw.symbol@)
    } else if levels_error(raw.bids@) is Some {
        levels_error(raw.bids@)
    } else {
        levels_error(raw.asks@)
    }
}

/// Whether `d` is the depth update a raw depth event describes, on
/// `exchange`: its time, symbol and update ids as sent, its levels as read.
pub open spec fn depth_of(d: DepthUpdate, raw: RawDepthEvent, exchange: Seq<char>) -> bool {
    &&& d.ts == raw.event_time_ms
    &&& d.symbol@ == raw.symbol@
    &&& d.exchange@ == exchange
    &&& d.first_update_id == raw.first_update_id
    &&& d.final_update_id == raw.final_update_id
    &&& levels_read(d.bids@, raw.bids@)
    &&& levels_read(d.asks@, raw.asks@)
}

impl RawDepthEvent {
    /// Normalizes the depth update; fails exactly as `depth_event_error`
    /// says.
    pub fn into_depth_update(self, exchange: &str) -> (r: Result<DepthUpdate, ExchangeError>)
        ensures
            r is Err <==> depth_event_error(self) is Some,
            r matches Err(e) ==> depth_event_error(self) == Some(exchange_error_message(e)),
            r matches Ok(d) ==> depth_of(d, self, exchange@),
    {
        let ts = match ts_millis(self.event_time_ms) {
            Ok(v) => v,
            Err(e) => return Err(e),
        };
        let symbol = match symbol_of(self.symbol.as_str()) {
            Ok(v) => v,
            Err(e) => return Err(e),
        };
        let bids = match levels(&self.bids) {
            Ok(v) => v,
            Err(e) => return Err(e),
        };
        let asks = match levels(&self.asks) {
            Ok(v) => v,
            Err(e) => return Err(e),
        };
        Ok(
            DepthUpdate {
                ts,
                symbol,
                exchange: owned(exchange),
                first_update_id: self.first_update_id,
                final_update_id: self.final_update_id,
                bids,
                asks,
            },
        )
    }
}

/// A historical aggregated trade from the REST API.
#[derive(Debug, Clone)]
pub struct RawAggTrade {
    pub agg_trade_id: i64,
    pub price: String,
    pub qty: String,
    pub trade_time_ms: i64,
    pub is_buyer_maker: bool,
}

/// The first failure in normalizing an aggregated trade, if any.
pub open spec fn agg_trade_error(raw: RawAggTrade) -> Option<Seq<char>> {
    if err_of(millis_outcome(raw.trade_time_ms)) is Some {
        err_of(millis_outcome(raw.trade_time_ms))
    } else if err_of(money_outcome(raw.price@)) is Some {
        err_of(money_outcome(raw.price@))
    } else {
        err_of(money_outcome(raw.qty@))
    }
}

impl RawAggTrade {
    /// Normalizes the aggregated trade for `symbol`; its aggregate id stands
    /// as the trade id. Fails exactly as `agg_trade_error` says.
    pub fn into_trade(self, symbol: &Symbol, exchange: &str) -> (r: Result<Trade, ExchangeError>)
        ensures
            r is Err <==> agg_trade_error(self) is Some,
            r matches Err(e) ==> agg_trade_error(self) == Some(exchange_error_message(e)),
            r matches Ok(t) ==> {
                &&& t.ts == self.trade_time_ms
                &&& t.symbol@ == symbol@
                &&& t.exchange@ == exchange@
                &&& t.trade_id == self.agg_trade_id
                &&& money_outcome(self.price@) is Ok && holds(t.price, money_outcome(self.price@)->Ok_0)
                &&& money_outcome(self.qty@) is Ok && holds(t.qty, money_outcome(self.qty@)->Ok_0)
                &&& t.is_buyer_maker == self.is_buyer_maker
            },
    {
        let ts = match ts_millis(self.trade_time_ms) {
            Ok(v) => v,
            Err(e) => return Err(e),
        };
        let price = match money(self.price.as_str()) {
            Ok(v) => v,
            Err(e) => return Err(e),
        };
        let qty = match money(self.qty.as_str()) {
            Ok(v) => v,
            Err(e) => return Err(e),
        };
        Ok(
            Trade {
                ts,
                symbol: symbol.duplicate(),
                exchange: owned(exchange),
                trade_id: self.agg_trade_id,
                price,
                qty,
                is_buyer_maker: self.is_buyer_maker,
            },
        )
    }
}

/// The kinds of stream event the collector understands.
#[derive(Debug, Clone, Copy, PartialEq, Eq, Structural)]
pub enum EventKind {
    Trade,
    Kline,
    DepthUpdate,
    Unrecognized,
}

/// The kind named by an event's `e` field.
pub open spec fn event_kind_of(s: Seq<char>) -> EventKind {
    if s == "trade"@ {
        EventKind::Trade
    } else if s == "kline"@ {
        EventKind::Kline
    } else if s == "depthUpdate"@ {
        EventKind::DepthUpdate
    } else {
        EventKind::Unrecognized
    }
}

/// The kind named by an event's `e` field (an absent field reads as empty).
pub fn event_kind(event_type: &str) -> (r: EventKind)
    ensures
        r == event_kind_of(event_type@),
{
    if crate::interval::text_eq(event_type, "trade") {
        EventKind::Trade
    } else if crate::interval::text_eq(event_type, "kline") {
        EventKind::Kline
    } else if crate::interval::text_eq(event_type, "depthUpdate") {
        EventKind::DepthUpdate
    } else {
        EventKind::Unrecognized
    }
}

/// A stream event, decoded according to its kind; `Undecodable` carries
/// the JSON decoder's message for a payload that did not fit its kind.
#[derive(Debug, Clone)]
pub enum DecodedEvent {
    Trade(RawTradeEvent),
    Kline(RawKlinePayload),
    DepthUpdate(RawDepthEvent),
    Unrecognized,
    Undecodable(String),
}

/// Normalizes a decoded stream event: an unrecognized kind is skipped
/// (`Ok(None)`), an undecodable payload is a JSON error, and the three known
/// kinds are normalized as their own functions say.
pub fn parse_market_event(event: DecodedEvent, exchange: &str) -> (r: Result<Option<MarketEvent>, ExchangeError>)
    ensures
        match event {
            DecodedEvent::Unrecognized => r matches Ok(None),
            DecodedEvent::Undecodable(m) => r matches Err(ExchangeError::Json(t)) && t@ == m@,
            DecodedEvent::Trade(raw) => match trade_event_error(raw) {
                Some(msg) => r matches Err(e) && exchange_error_message(e) == msg,
                None => r matches Ok(Some(MarketEvent::Trade(t))) && trade_of(t, raw, exchange@) && t.ts
                    == raw.trade_time_ms && t.trade_id == raw.trade_id && t.symbol@ == raw.symbol@
                    && t.exchange@ == exchange@ && t.is_buyer_maker == raw.is_buyer_maker
                    && money_outcome(raw.price@) == Ok::<(int, nat), Seq<char>>((t.price.mantissa as int, t.price.scale as nat))
                    && money_outcome(raw.qty@) == Ok::<(int, nat), Seq<char>>((t.qty.mantissa as int, t.qty.scale as nat)),
            },
            DecodedEvent::Kline(raw) => match kline_payload_error(raw) {
                Some(msg) => r matches Err(e) && exchange_error_message(e) == msg,
                None => r matches Ok(Some(MarketEvent::Kline(k))) && kline_of(k, raw, exchange@)
                    && k.open_time == raw.open_time_ms && k.close_time == raw.close_time_ms && k.symbol@
                    == raw.symbol@ && k.exchange@ == exchange@ && interval_of_text(raw.interval@) == Some(k.interval)
                    && money_outcome(raw.open@) == Ok::<(int, nat), Seq<char>>((k.open.mantissa as int, k.open.scale as nat))
                    && money_outcome(raw.high@) == Ok::<(int, nat), Seq<char>>((k.high.mantissa as int, k.high.scale as nat))
                    && money_outcome(raw.low@) == Ok::<(int, nat), Seq<char>>((k.low.mantissa as int, k.low.scale as nat))
                    && money_outcome(raw.close@) == Ok::<(int, nat), Seq<char>>((k.close.mantissa as int, k.close.scale as nat))
                    && money_outcome(raw.volume@) == Ok::<(int, nat), Seq<char>>(
                    (k.volume.mantissa as int, k.volume.scale as nat),
                ) && money_outcome(raw.quote_volume@) == Ok::<(int, nat), Seq<char>>(
                    (k.quote_volume.mantissa as int, k.quote_volume.scale as nat),
                ) && k.trades_count == raw.trades_count && k.is_closed == raw.is_closed && k.taker_buy_base is Some
                    && money_outcome(raw.taker_buy_base@) == Ok::<(int, nat), Seq<char>>(
                    (k.taker_buy_base->Some_0.mantissa as int, k.taker_buy_base->Some_0.scale as nat),
                ),
            },
            DecodedEvent::DepthUpdate(raw) => match depth_event_error(raw) {
                Some(msg) => r matches Err(e) && exchange_error_message(e) == msg,
                None => r matches Ok(Some(MarketEvent::DepthUpdate(d))) && depth_of(d, raw, exchange@) && d.ts
                    == raw.event_time_ms && d.symbol@ == raw.symbol@ && d.exchange@ == exchange@
                    && d.first_update_id == raw.first_update_id && d.final_update_id == raw.final_update_id
                    && d.bids@.len() == raw.bids@.len() && d.asks@.len() == raw.asks@.len() && (forall|j: int|
                    0 <= j < raw.bids@.len() ==> decimal_outcome((#[trigger] raw.bids@[j]).0@) == Ok::<(int, nat), Seq<char>>(
                        (d.bids@[j].0.mantissa as int, d.bids@[j].0.scale as nat),
                    ) && decimal_outcome(raw.bids@[j].1@) == Ok::<(int, nat), Seq<char>>(
                        (d.bids@[j].1.mantissa as int, d.bids@[j].1.scale as nat),
                    ))
                    && (forall|j: int|
                    0 <= j < raw.asks@.len() ==> decimal_outcome((#[trigger] raw.asks@[j]).0@) == Ok::<(int, nat), Seq<char>>(
                        (d.asks@[j].0.mantissa as int, d.asks@[j].0.scale as nat),
                    ) && decimal_outcome(raw.asks@[j].1@) == Ok::<(int, nat), Seq<char>>(
                        (d.asks@[j].1.mantissa as int, d.asks@[j].1.scale as nat),
                    )),
            },
        },
{
    match event {
        DecodedEvent::Trade(raw) => match raw.into_trade(exchange) {
            Ok(t) => Ok(Some(MarketEvent::Trade(t))),
            Err(e) => Err(e),
        },
        DecodedEvent::Kline(raw) => match raw.into_kline(exchange) {
            Ok(k) => Ok(Some(MarketEvent::Kline(k))),
            Err(e) => Err(e),
        },
        DecodedEvent::DepthUpdate(raw) => match raw.into_depth_update(exchange) {
            Ok(d) => Ok(Some(MarketEvent::DepthUpdate(d))),
            Err(e) => Err(e),
        },
        DecodedEvent::Unrecognized => Ok(None),
        DecodedEvent::Undecodable(m) => Err(ExchangeError::Json(m)),
    }
}

} // verus!
