use market_analyzer::cli::{
    api_limits, backfill_summary, date_range_param, date_range_param_at, day_bounds_at, day_range_utc,
    day_range_utc_exclusive_end, event_action, exchange_param, interval_param,
    max_timestamp_per_symbol, param, param_i64_or, param_u32_or, parse_int, parse_key_val,
    records_from_instruments, split_closed, stream_kind_for, with_env_overrides, AppConfig,
    CompactionTotals, Dataset, EnvOverrides, EventAction, IntErrorKind,
};
use market_analyzer::compact::CompactionResult;
use market_analyzer::decimal::DecimalValue;
use market_analyzer::interval::Interval;
use market_analyzer::model::{Instrument, Kline, MarketEvent, StreamKind};
use market_analyzer::query::{plan_query, plan_query_at, query_symbol, QueryPlan};
use market_analyzer::symbol::Symbol;

fn params(v: &[(&str, &str)]) -> Vec<(String, String)> {
    v.iter().map(|(k, v)| (k.to_string(), v.to_string())).collect()
}

fn no_env() -> EnvOverrides {
    EnvOverrides {
        data_dir: None,
        meta_db_path: None,
        binance_base_url: None,
        requests_per_second: None,
        api_max_date_range_days: None,
        api_db_pool_size: None,
        api_cors_origin: None,
        api_max_ws_connections: None,
    }
}

#[test]
fn key_value_params_split_at_the_first_equals() {
    assert_eq!(parse_key_val("from=2026-08-01").unwrap(), ("from".to_string(), "2026-08-01".to_string()));
    assert_eq!(parse_key_val("a=b=c").unwrap(), ("a".to_string(), "b=c".to_string()));
    assert_eq!(parse_key_val("novalue").unwrap_err(), "expected key=value, got 'novalue'");
}

#[test]
fn the_last_value_of_a_repeated_param_wins() {
    let p = params(&[("window", "10"), ("window", "30")]);
    assert_eq!(param(&p, "window").as_deref(), Some("30"));
    assert_eq!(param_u32_or(&p, "window", 20).unwrap(), 30);
    assert_eq!(param_u32_or(&p, "other", 20).unwrap(), 20);
}

#[test]
fn numeric_params_report_std_parse_errors() {
    let p = params(&[("window", "abc"), ("bucket_seconds", ""), ("big", "99999999999")]);
    assert_eq!(param_u32_or(&p, "window", 20).unwrap_err(), "--param window: invalid digit found in string");
    assert_eq!(
        param_i64_or(&p, "bucket_seconds", 60).unwrap_err(),
        "--param bucket_seconds: cannot parse integer from empty string"
    );
    assert_eq!(param_u32_or(&p, "big", 1).unwrap_err(), "--param big: number too large to fit in target type");
    assert_eq!(param_i64_or(&params(&[("b", "-42")]), "b", 0).unwrap(), -42);
}

#[test]
fn integer_parsing_follows_std() {
    assert_eq!(parse_int("+7", false, 0, 100), Ok(7));
    assert_eq!(parse_int("-7", false, 0, 100), Err(IntErrorKind::InvalidDigit));
    assert_eq!(parse_int("-", true, -100, 100), Err(IntErrorKind::InvalidDigit));
    assert_eq!(parse_int("-101", true, -100, 100), Err(IntErrorKind::NegOverflow));
    assert_eq!(parse_int("1x9999", false, 0, 100), Err(IntErrorKind::InvalidDigit));
    assert_eq!(parse_int("9999x", false, 0, 100), Err(IntErrorKind::PosOverflow));
}

#[test]
fn exchange_and_interval_params_have_defaults() {
    assert_eq!(exchange_param(&Vec::new()), "binance");
    assert_eq!(exchange_param(&params(&[("exchange", "kraken")])), "kraken");
    assert_eq!(interval_param(&Vec::new()).unwrap(), Interval::OneMinute);
    assert_eq!(interval_param(&params(&[("interval", "2m")])).unwrap_err(), "--param interval: invalid interval '2m'");
}

#[test]
fn day_ranges_cover_whole_days() {
    assert_eq!(day_bounds_at(20_666, 20_666).unwrap(), (1_785_542_400_000, 1_785_628_800_000));
    assert_eq!(day_range_utc(20_666, Some(20_667)).unwrap(), (1_785_542_400_000, 1_785_715_199_999));
    assert_eq!(day_range_utc_exclusive_end(20_666, Some(20_667)).unwrap(), (1_785_542_400_000, 1_785_715_200_000));
    assert_eq!(day_range_utc(20_667, Some(20_666)).unwrap_err(), "--from must be strictly before --to");
}

#[test]
fn date_range_params_need_a_from_day() {
    assert_eq!(date_range_param(&Vec::new()).unwrap_err(), "this query needs --param from=<YYYY-MM-DD>");
    assert_eq!(
        date_range_param(&params(&[("from", "2026-08-01"), ("to", "2026-08-01")])).unwrap(),
        (1_785_542_400_000, 1_785_628_800_000)
    );
    assert!(date_range_param(&params(&[("from", "01/08/2026")])).unwrap_err().starts_with("--param from: "));
}

#[test]
fn config_defaults_and_env_overrides() {
    let cfg = AppConfig::default();
    assert_eq!(cfg.data_dir, "data");
    assert_eq!(cfg.requests_per_second, 5);
    let mut env = no_env();
    env.data_dir = Some("/srv/data".to_string());
    env.requests_per_second = Some("20".to_string());
    let cfg = with_env_overrides(AppConfig::default(), &env).unwrap();
    assert_eq!(cfg.data_dir, "/srv/data");
    assert_eq!(cfg.requests_per_second, 20);
    assert_eq!(cfg.api_max_date_range_days, 366);
    env.api_db_pool_size = Some("four".to_string());
    let e = with_env_overrides(AppConfig::default(), &env).unwrap_err();
    assert_eq!(e.message, "MA_API_DB_POOL_SIZE must be a positive integer");
    assert_eq!(e.cause, "invalid digit found in string");
}

#[test]
fn serve_limits_come_from_the_config() {
    let limits = api_limits(&AppConfig::default());
    assert_eq!(limits.max_date_range_days, 366);
    assert_eq!(limits.max_pagination_limit, 10_000);
    assert_eq!(limits.max_ws_connections, 64);
}

fn dec(s: &str) -> DecimalValue {
    DecimalValue::from_str(s).unwrap()
}

fn kline(open_time: i64, is_closed: bool) -> Kline {
    Kline {
        open_time,
        close_time: open_time + 59_999,
        symbol: Symbol::new("BTCUSDT").unwrap(),
        exchange: "binance".to_string(),
        interval: Interval::OneMinute,
        open: dec("1"),
        high: dec("1"),
        low: dec("1"),
        close: dec("1"),
        volume: dec("1"),
        quote_volume: dec("1"),
        trades_count: 1,
        taker_buy_base: None,
        is_closed,
    }
}

#[test]
fn backfill_keeps_closed_candles_and_counts_the_rest() {
    let (closed, incomplete) = split_closed(vec![kline(0, true), kline(60_000, false), kline(120_000, true)]);
    assert_eq!(closed.len(), 2);
    assert_eq!(incomplete, 1);
    assert_eq!(market_analyzer::cli::max_open_time(&closed), Some(120_000));
    let s = backfill_summary(3, 1, 1);
    assert_eq!(s.skipped_duplicates, 1);
    assert_eq!(backfill_summary(1, 3, 0).skipped_duplicates, 0);
}

#[test]
fn stream_stores_closed_candles_and_trades_only() {
    assert_eq!(stream_kind_for(Dataset::Klines), StreamKind::Kline(Interval::OneMinute));
    assert_eq!(stream_kind_for(Dataset::Trades), StreamKind::Trade);
    assert_eq!(event_action(&MarketEvent::Kline(kline(0, false))), EventAction::Skip);
    assert_eq!(event_action(&MarketEvent::Kline(kline(0, true))), EventAction::BufferKline);
}

#[test]
fn collector_state_takes_the_latest_instant_per_symbol() {
    let rows = vec![("BTCUSDT".to_string(), 5), ("ETHUSDT".to_string(), 3), ("BTCUSDT".to_string(), 9), ("BTCUSDT".to_string(), 7)];
    let mut out = max_timestamp_per_symbol(&rows);
    out.sort();
    assert_eq!(out, vec![("BTCUSDT".to_string(), 9), ("ETHUSDT".to_string(), 3)]);
}

#[test]
fn compaction_totals_add_up() {
    let mut t = CompactionTotals::new();
    t.add(&CompactionResult { files_before: 5, files_after: 1, rows: 5, bytes_before: 500, bytes_after: 120 });
    t.add(&CompactionResult { files_before: 1, files_after: 1, rows: 2, bytes_before: 80, bytes_after: 80 });
    assert_eq!(t.partitions_touched, 1);
    assert_eq!(t.files_before, 6);
    assert_eq!(t.files_after, 2);
    assert_eq!(t.bytes_before, 580);
    assert_eq!(t.bytes_after, 200);
}

#[test]
fn refreshed_instruments_become_registry_records() {
    let ins = vec![Instrument {
        symbol: Symbol::new("BTCUSDT").unwrap(),
        base_asset: "BTC".to_string(),
        quote_asset: "USDT".to_string(),
        status: "TRADING".to_string(),
    }];
    let records = records_from_instruments("binance", ins);
    assert_eq!(records[0].exchange, "binance");
    assert_eq!(records[0].symbol, "BTCUSDT");
}

#[test]
fn query_plans_read_their_params() {
    assert_eq!(query_symbol("btc").unwrap_err(), "--symbol: invalid symbol 'btc': must be 1-32 uppercase ASCII alphanumeric characters");
    match plan_query("vwap", "BTCUSDT", &params(&[("window", "3")])).unwrap() {
        QueryPlan::Vwap { exchange, interval, window } => {
            assert_eq!(exchange, "binance");
            assert_eq!(interval, Interval::OneMinute);
            assert_eq!(window, 3);
        }
        other => panic!("unexpected {other:?}"),
    }
    match plan_query("anomalies", "BTCUSDT", &Vec::new()).unwrap() {
        QueryPlan::Anomalies { window, threshold, .. } => {
            assert_eq!(window, 100);
            assert!(threshold.is_none());
        }
        other => panic!("unexpected {other:?}"),
    }
    match plan_query("resample", "BTCUSDT", &params(&[("from", "2026-08-01"), ("to", "2026-08-01")])).unwrap() {
        QueryPlan::Resample { bucket_seconds, from_ms, to_ms, .. } => {
            assert_eq!(bucket_seconds, 300);
            assert_eq!((from_ms, to_ms), (1_785_542_400_000, 1_785_628_800_000));
        }
        other => panic!("unexpected {other:?}"),
    }
    match plan_query("correlation", "BTCUSDT", &params(&[("symbols", "BTCUSDT, ETHUSDT")])).unwrap() {
        QueryPlan::Correlation { symbols, .. } => assert_eq!(symbols.len(), 2),
        other => panic!("unexpected {other:?}"),
    }
    assert_eq!(
        plan_query("spread", "BTCUSDT", &Vec::new()).unwrap_err(),
        "query --name spread needs --param other_symbol=<SYM>"
    );
    assert_eq!(
        plan_query("median", "BTCUSDT", &Vec::new()).unwrap_err(),
        "unknown --name 'median': expected one of resample, vwap, volatility, anomalies, ofi, correlation, spread"
    );
}

#[test]
fn an_absent_to_day_is_the_given_today() {
    assert_eq!(
        date_range_param_at(&params(&[("from", "2026-08-01")]), 20_667).unwrap(),
        (1_785_542_400_000, 1_785_715_200_000)
    );
    assert_eq!(
        date_range_param_at(&params(&[("from", "2026-08-01"), ("to", "2026-08-01")]), 0).unwrap(),
        (1_785_542_400_000, 1_785_628_800_000)
    );
    assert_eq!(
        date_range_param_at(&params(&[("from", "2026-08-03")]), 20_667).unwrap_err(),
        "--from must be strictly before --to"
    );
}

#[test]
fn range_queries_plan_the_parsed_day_range() {
    match plan_query_at("ofi", "BTCUSDT", &params(&[("from", "2026-08-01")]), 20_667).unwrap() {
        QueryPlan::Ofi { exchange, bucket_seconds, from_ms, to_ms } => {
            assert_eq!(exchange, "binance");
            assert_eq!(bucket_seconds, 60);
            assert_eq!((from_ms, to_ms), (1_785_542_400_000, 1_785_715_200_000));
        }
        other => panic!("unexpected {other:?}"),
    }
    assert_eq!(
        plan_query_at("resample", "BTCUSDT", &params(&[("bucket_seconds", "60")]), 20_667).unwrap_err(),
        "this query needs --param from=<YYYY-MM-DD>"
    );
    assert!(plan_query_at("ofi", "BTCUSDT", &params(&[("bucket_seconds", "x"), ("from", "2026-08-01")]), 20_667)
        .unwrap_err()
        .starts_with("--param bucket_seconds: "));
}
