use market_analyzer::exchange::{
    backoff_delay, limiter_quota, next_page_cursor, parse_retry_after, retry_decision, stream_names,
    BackoffConfig, Delay, GapFill, LiveState, RetryDecision,
};
use market_analyzer::interval::Interval;
use market_analyzer::model::{MarketEvent, StreamKind};
use market_analyzer::parse::{
    parse_kline_row, parse_market_event, DecodedEvent, JsonField, RawAggTrade, RawDepthEvent,
    RawKlinePayload, RawTradeEvent,
};
use market_analyzer::symbol::Symbol;

#[test]
fn backoff_grows_geometrically_and_caps_at_max() {
    let cfg = BackoffConfig::default();
    assert_eq!(backoff_delay(&cfg, 1), 1_000);
    assert_eq!(backoff_delay(&cfg, 2), 2_000);
    assert_eq!(backoff_delay(&cfg, 3), 4_000);
    assert_eq!(backoff_delay(&cfg, 4), 8_000);
    assert_eq!(backoff_delay(&cfg, 5), 16_000);
    assert_eq!(backoff_delay(&cfg, 10), 60_000);
}

#[test]
fn backoff_of_attempt_zero_is_the_base() {
    let cfg = BackoffConfig::default();
    assert_eq!(backoff_delay(&cfg, 0), 1_000);
    assert_eq!(backoff_delay(&cfg, u32::MAX), 60_000);
}

#[test]
fn build_limiter_rejects_zero_rps() {
    assert!(limiter_quota(0).is_err());
    assert_eq!(limiter_quota(5).unwrap(), 5);
}

#[test]
fn rate_limit_status_waits_then_gives_up() {
    let cfg = BackoffConfig::default();
    assert_eq!(retry_decision(&cfg, 1, 200, None), RetryDecision::Accept);
    assert_eq!(retry_decision(&cfg, 1, 429, None), RetryDecision::Retry(Delay::Millis(1_000)));
    assert_eq!(retry_decision(&cfg, 2, 429, Some(7)), RetryDecision::Retry(Delay::Secs(7)));
    assert_eq!(retry_decision(&cfg, 5, 429, None), RetryDecision::RateLimited { attempts: 5 });
    assert_eq!(retry_decision(&cfg, 5, 418, Some(120)), RetryDecision::Banned { retry_after_secs: 120 });
    assert_eq!(retry_decision(&cfg, 1, 500, None), RetryDecision::Unexpected { status: 500 });
}

#[test]
fn retry_after_header_is_seconds() {
    assert_eq!(parse_retry_after(Some("30")), Some(30));
    assert_eq!(parse_retry_after(Some("soon")), None);
    assert_eq!(parse_retry_after(None), None);
}

#[test]
fn pagination_cursor_advances_past_the_last_candle() {
    assert_eq!(next_page_cursor(1000, 5_000), Some(5_001));
    assert_eq!(next_page_cursor(0, 5_000), None);
}

#[test]
fn combined_stream_names_are_lowercase() {
    let symbols = vec![Symbol::new("BTCUSDT").unwrap()];
    let streams = vec![StreamKind::Trade, StreamKind::Kline(Interval::OneMinute), StreamKind::Depth];
    let names = stream_names(&symbols, &streams);
    assert_eq!(names, vec!["btcusdt@trade", "btcusdt@kline_1m", "btcusdt@depth"]);
}

#[test]
fn reconnect_after_events_backfills_the_gap() {
    let mut state = LiveState::new();
    state.on_connected();
    let symbols = vec![Symbol::new("BTCUSDT").unwrap()];
    let streams = vec![StreamKind::Kline(Interval::OneMinute), StreamKind::Depth];
    let plan = state.on_disconnect(1_000, &symbols, &streams, &BackoffConfig::default());
    assert!(plan.gap_fills.is_empty());
    assert_eq!(plan.delay_ms, 1_000);

    let trade = trade_event(1_690_000_000_100);
    let event = parse_market_event(DecodedEvent::Trade(trade), "binance").unwrap().unwrap();
    state.on_event(&event);
    let plan = state.on_disconnect(1_690_000_360_000, &symbols, &streams, &BackoffConfig::default());
    assert_eq!(plan.gap_fills.len(), 1);
    match &plan.gap_fills[0] {
        GapFill::Klines { symbol, interval, from, to } => {
            assert_eq!(symbol.as_str(), "BTCUSDT");
            assert_eq!(*interval, Interval::OneMinute);
            assert_eq!(*from, 1_690_000_000_100);
            assert_eq!(*to, 1_690_000_360_000);
        }
        other => panic!("expected a kline backfill, got {other:?}"),
    }
    assert_eq!(plan.delay_ms, 2_000);
}

fn trade_event(ts: i64) -> RawTradeEvent {
    RawTradeEvent {
        symbol: "BTCUSDT".to_string(),
        trade_id: 12345,
        price: "50000.12345678".to_string(),
        qty: "0.50000000".to_string(),
        trade_time_ms: ts,
        is_buyer_maker: true,
    }
}

fn kline_payload(is_closed: bool) -> RawKlinePayload {
    RawKlinePayload {
        open_time_ms: 1_690_000_000_000,
        close_time_ms: 1_690_000_059_999,
        symbol: "BTCUSDT".to_string(),
        interval: "1m".to_string(),
        open: "100.00000000".to_string(),
        high: "102.00000000".to_string(),
        low: "99.00000000".to_string(),
        close: "101.00000000".to_string(),
        volume: "10.00000000".to_string(),
        quote_volume: "1000.00000000".to_string(),
        trades_count: 5,
        is_closed,
        taker_buy_base: "5.00000000".to_string(),
    }
}

#[test]
fn parses_trade_event() {
    let event = parse_market_event(DecodedEvent::Trade(trade_event(1_690_000_000_100)), "binance")
        .unwrap()
        .unwrap();
    match event {
        MarketEvent::Trade(t) => {
            assert_eq!(t.symbol.as_str(), "BTCUSDT");
            assert_eq!(t.trade_id, 12345);
            assert!(t.is_buyer_maker);
        }
        other => panic!("expected Trade, got {other:?}"),
    }
}

#[test]
fn parses_kline_event_open_and_closed() {
    let event = parse_market_event(DecodedEvent::Kline(kline_payload(false)), "binance")
        .unwrap()
        .unwrap();
    match event {
        MarketEvent::Kline(k) => assert!(!k.is_closed, "x=false must map to is_closed=false"),
        other => panic!("expected Kline, got {other:?}"),
    }
    let event = parse_market_event(DecodedEvent::Kline(kline_payload(true)), "binance")
        .unwrap()
        .unwrap();
    match event {
        MarketEvent::Kline(k) => assert!(k.is_closed, "x=true must map to is_closed=true"),
        other => panic!("expected Kline, got {other:?}"),
    }
}

#[test]
fn parses_depth_event() {
    let raw = RawDepthEvent {
        symbol: "BTCUSDT".to_string(),
        event_time_ms: 1_690_000_000_000,
        first_update_id: 157,
        final_update_id: 160,
        bids: vec![("100.00000000".to_string(), "1.00000000".to_string())],
        asks: vec![("101.00000000".to_string(), "2.00000000".to_string())],
    };
    let event = parse_market_event(DecodedEvent::DepthUpdate(raw), "binance").unwrap().unwrap();
    match event {
        MarketEvent::DepthUpdate(d) => {
            assert_eq!(d.first_update_id, 157);
            assert_eq!(d.final_update_id, 160);
            assert_eq!(d.bids.len(), 1);
            assert_eq!(d.asks.len(), 1);
        }
        other => panic!("expected DepthUpdate, got {other:?}"),
    }
}

#[test]
fn unknown_event_type_is_skipped_not_an_error() {
    let result = parse_market_event(DecodedEvent::Unrecognized, "binance").unwrap();
    assert!(result.is_none());
}

#[test]
fn undecodable_event_is_a_json_error() {
    let result = parse_market_event(DecodedEvent::Undecodable("missing field `p`".to_string()), "binance");
    match result {
        Err(e) => assert_eq!(e.message(), "failed to parse exchange JSON payload: missing field `p`"),
        Ok(_) => panic!("an undecodable payload is an error"),
    }
}

#[test]
fn agg_trade_maps_aggregate_id_as_trade_id() {
    let raw = RawAggTrade {
        agg_trade_id: 26129,
        price: "0.01633102".to_string(),
        qty: "4.70443515".to_string(),
        trade_time_ms: 1_498_793_709_153,
        is_buyer_maker: true,
    };
    let symbol = Symbol::new("BTCUSDT").unwrap();
    let trade = raw.into_trade(&symbol, "binance").unwrap();
    assert_eq!(trade.trade_id, 26129);
    assert_eq!(trade.price.to_string(), "0.01633102");
}

fn sample_row() -> Vec<JsonField> {
    vec![
        JsonField::Int(1_690_000_000_000),
        JsonField::Str("50000.12345678".to_string()),
        JsonField::Str("50100.00000000".to_string()),
        JsonField::Str("49900.00000000".to_string()),
        JsonField::Str("50050.00000000".to_string()),
        JsonField::Str("12.50000000".to_string()),
        JsonField::Int(1_690_000_059_999),
        JsonField::Str("625625.00000000".to_string()),
        JsonField::Int(308),
        JsonField::Str("6.25000000".to_string()),
        JsonField::Str("312812.50000000".to_string()),
        JsonField::Str("0".to_string()),
    ]
}

#[test]
fn parses_valid_row() {
    let symbol = Symbol::new("BTCUSDT").unwrap();
    let now = 1_700_000_000_000;
    let k = parse_kline_row(&sample_row(), &symbol, Interval::OneMinute, "binance", now).unwrap();
    assert_eq!(k.symbol.as_str(), "BTCUSDT");
    assert_eq!(k.exchange, "binance");
    assert_eq!(k.trades_count, 308);
    assert_eq!(k.open.to_string(), "50000.12345678");
    assert_eq!(k.taker_buy_base.unwrap().to_string(), "6.25000000");
    assert!(k.is_closed);
}

#[test]
fn open_kline_is_not_closed() {
    let symbol = Symbol::new("BTCUSDT").unwrap();
    let mut row = sample_row();
    row[6] = JsonField::Int(9_999_999_999_999);
    let k = parse_kline_row(&row, &symbol, Interval::OneMinute, "binance", 1_700_000_000_000).unwrap();
    assert!(!k.is_closed);
}

#[test]
fn rejects_short_row() {
    let symbol = Symbol::new("BTCUSDT").unwrap();
    let row = vec![JsonField::Int(1), JsonField::Str("1".to_string())];
    assert!(parse_kline_row(&row, &symbol, Interval::OneMinute, "binance", 1_700_000_000_000).is_err());
}

#[test]
fn rejects_non_numeric_decimal() {
    let symbol = Symbol::new("BTCUSDT").unwrap();
    let mut row = sample_row();
    row[1] = JsonField::Str("not-a-number".to_string());
    assert!(parse_kline_row(&row, &symbol, Interval::OneMinute, "binance", 1_700_000_000_000).is_err());
}
