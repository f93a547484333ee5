use market_analyzer::analytics::{
    check_bucket_seconds, check_correlation_symbols, decimal_cell, decimal_cell_opt, placeholders,
    window_frame,
};
use market_analyzer::api::{
    check_origin, correlation_symbols, error_envelope, error_response, is_error_status,
    normalize_method, paginate, parse_bucket_seconds, parse_date_range, parse_date_range_at,
    parse_interval, parse_pagination, parse_window, socket_step, symbol_dtos, symbol_param,
    unknown_symbol, wants_arrow, ApiError, ApiLimits, ErrorDetails, SocketAction, SocketEvent,
};
use market_analyzer::error::AnalyticsError;
use market_analyzer::interval::Interval;
use market_analyzer::meta::SymbolRecord;

fn limits() -> ApiLimits {
    ApiLimits {
        max_date_range_days: 30,
        default_pagination_limit: 1000,
        max_pagination_limit: 10_000,
        max_correlation_symbols: 10,
        max_ws_connections: 64,
    }
}

#[test]
fn date_range_rejects_inverted_range() {
    let result = parse_date_range(Some("2026-08-10"), Some("2026-08-01"), &limits());
    assert!(result.is_err());
}

#[test]
fn date_range_rejects_too_wide() {
    let result = parse_date_range(Some("2026-01-01"), Some("2026-12-31"), &limits());
    assert!(result.is_err());
}

#[test]
fn date_range_accepts_valid_range() {
    let (from, to) = parse_date_range(Some("2026-08-01"), Some("2026-08-10"), &limits()).unwrap();
    assert!(from < to);
    assert_eq!(from, 1_785_542_400_000_000_000);
    assert_eq!(to, 1_786_320_000_000_000_000);
}

#[test]
fn date_range_reads_rfc3339_and_defaults_to_now() {
    let now: i128 = 1_785_600_000_000_000_000;
    let (from, to) = parse_date_range_at(Some("2026-08-01T00:00:00Z"), None, &limits(), now).unwrap();
    assert_eq!(from, 1_785_542_400_000_000_000);
    assert_eq!(to, now);
    let (from, to) = parse_date_range_at(None, None, &limits(), now).unwrap();
    assert_eq!(to - from, 30 * 86_400_000_000_000);
}

#[test]
fn date_range_keeps_nanosecond_precision() {
    let (from, to) = parse_date_range(
        Some("2026-08-01T00:00:00.000000100Z"),
        Some("2026-08-01T00:00:00.000000200Z"),
        &limits(),
    )
    .unwrap();
    assert_eq!(from, 1_785_542_400_000_000_100);
    assert_eq!(to, 1_785_542_400_000_000_200);
    let offset = parse_date_range(Some("2026-08-01T02:00:00+02:00"), Some("2026-08-02"), &limits()).unwrap();
    assert_eq!(offset.0, 1_785_542_400_000_000_000);
}

#[test]
fn date_range_accepts_a_day_limit_beyond_a_million_days() {
    let wide = ApiLimits { max_date_range_days: 50_000_000, ..limits() };
    let (from, to) = parse_date_range(Some("1900-01-01"), Some("2026-08-01"), &wide).unwrap();
    assert!(from < to);
}

#[test]
fn date_range_errors_name_the_parameter() {
    match parse_date_range(Some("2026-08-01"), Some("yesterday"), &limits()) {
        Err(ApiError::BadRequest { message, details: ErrorDetails::Parameter(p) }) => {
            assert_eq!(p, "to");
            assert_eq!(message, "'to' must be RFC3339 or YYYY-MM-DD, got 'yesterday'");
        }
        other => panic!("unexpected {other:?}"),
    }
    match parse_date_range(Some("2026-01-01"), Some("2026-12-31"), &limits()) {
        Err(ApiError::BadRequest { message, details: ErrorDetails::MaxDays(n) }) => {
            assert_eq!(n, 30);
            assert_eq!(message, "date range exceeds the maximum of 30 days");
        }
        other => panic!("unexpected {other:?}"),
    }
    match parse_date_range(Some("2026-08-10"), Some("2026-08-01"), &limits()) {
        Err(e) => assert_eq!(e.message(), "'from' must be strictly before 'to'"),
        Ok(_) => panic!("an inverted range is refused"),
    }
}

#[test]
fn pagination_defaults_and_caps() {
    let limits = limits();
    assert_eq!(parse_pagination(None, None, &limits).unwrap(), (1000, 0));
    assert!(parse_pagination(Some(10_001), None, &limits).is_err());
    assert!(parse_pagination(Some(0), None, &limits).is_err());
    assert!(parse_pagination(None, Some(-1), &limits).is_err());
}

#[test]
fn paginate_skips_then_takes() {
    let rows: Vec<i32> = (0..10).collect();
    assert_eq!(paginate(rows.clone(), 3, 2), vec![2, 3, 4]);
    assert_eq!(paginate(rows.clone(), 5, 8), vec![8, 9]);
    assert_eq!(paginate(rows.clone(), 5, 20), Vec::<i32>::new());
    assert_eq!(paginate(rows, -1, -5), Vec::<i32>::new());
}

#[test]
fn window_rejects_zero_and_absurdly_large() {
    assert!(parse_window(Some(0), 20).is_err());
    assert!(parse_window(Some(1_000_000), 20).is_err());
    assert_eq!(parse_window(None, 20).unwrap(), 20);
}

#[test]
fn window_error_message() {
    match parse_window(Some(0), 20) {
        Err(e) => assert_eq!(e.message(), "window must be between 1 and 100000, got 0"),
        Ok(_) => panic!("zero is refused"),
    }
}

#[test]
fn bucket_is_positive_and_at_most_a_week() {
    assert_eq!(parse_bucket_seconds(None, 60).unwrap(), 60);
    assert!(parse_bucket_seconds(Some(0), 60).is_err());
    assert!(parse_bucket_seconds(Some(604_801), 60).is_err());
    assert_eq!(parse_bucket_seconds(Some(604_800), 60).unwrap(), 604_800);
}

#[test]
fn interval_param_defaults_to_one_minute() {
    assert_eq!(parse_interval(None).unwrap(), Interval::OneMinute);
    assert_eq!(parse_interval(Some("1h")).unwrap(), Interval::OneHour);
    match parse_interval(Some("7m")) {
        Err(ApiError::BadRequest { message, details: ErrorDetails::Parameter(p) }) => {
            assert_eq!(p, "interval");
            assert_eq!(message, "invalid interval '7m'");
        }
        other => panic!("unexpected {other:?}"),
    }
}

#[test]
fn internal_errors_do_not_leak_their_detail_to_the_client() {
    let secret = "IO Error: No files found that match the pattern \
                  \"/srv/market-analyzer/data/klines/**/*.parquet\"";
    let (status, body) = error_response(&ApiError::Internal(secret.to_string()));
    assert_eq!(status, 500);
    assert_eq!(body.code, "internal_error");
    assert_eq!(body.message, "internal error");
    assert!(!body.message.contains("/srv/market-analyzer"));
    assert!(matches!(body.details, ErrorDetails::Empty));
}

#[test]
fn client_errors_keep_their_actionable_message() {
    let (status, body) = error_response(&ApiError::bad_request("window", "window must be between 1 and 100000".to_string()));
    assert_eq!(status, 400);
    assert_eq!(body.code, "invalid_parameter");
    assert_eq!(body.message, "window must be between 1 and 100000");
    match body.details {
        ErrorDetails::Parameter(p) => assert_eq!(p, "window"),
        other => panic!("unexpected {other:?}"),
    }
}

#[test]
fn error_classes_have_their_status_and_code() {
    assert_eq!(ApiError::RateLimited.status(), 429);
    assert_eq!(ApiError::RateLimited.code(), "rate_limited");
    let unknown = unknown_symbol("DOGEUSDT");
    assert_eq!(unknown.status(), 404);
    assert_eq!(unknown.message(), "unknown symbol 'DOGEUSDT'");
    let env = error_envelope("internal_error", "internal error".to_string());
    assert_eq!(env.code, "internal_error");
    assert!(matches!(env.details, ErrorDetails::Empty));
}

#[test]
fn analytics_errors_map_to_api_errors() {
    let e = ApiError::from_analytics(AnalyticsError::InvalidParam {
        name: "window".to_string(),
        reason: "must be at least 1".to_string(),
    });
    assert_eq!(e.status(), 400);
    assert_eq!(e.message(), "invalid parameter 'window': must be at least 1");
    let e = ApiError::from_analytics(AnalyticsError::Db("boom".to_string()));
    assert_eq!(e.status(), 500);
    assert_eq!(e.message(), "internal error: duckdb error: boom");
}

#[test]
fn accept_header_arrow_is_detected() {
    assert!(wants_arrow(Some("application/vnd.apache.arrow.stream")));
    assert!(wants_arrow(Some("application/json, application/vnd.apache.arrow.stream;q=0.9")));
}

#[test]
fn accept_header_json_or_absent_is_not_arrow() {
    assert!(!wants_arrow(Some("application/json")));
    assert!(!wants_arrow(None));
}

#[test]
fn refuses_a_ws_client_from_a_foreign_browser_origin() {
    match check_origin(Some("https://evil.example"), "http://localhost:5173") {
        Err(e) => {
            assert_eq!(e.status(), 400);
            assert_eq!(e.message(), "websocket connections from this origin are not allowed");
        }
        Ok(()) => panic!("a foreign origin is refused"),
    }
    assert!(check_origin(Some("http://localhost:5173"), "http://localhost:5173").is_ok());
}

#[test]
fn a_request_without_an_origin_header_passes_the_origin_check() {
    assert!(check_origin(None, "http://localhost:5173").is_ok());
}

#[test]
fn correlation_symbol_list_is_trimmed_and_bounded() {
    assert_eq!(correlation_symbols(" BTCUSDT , ETHUSDT,,", 10).unwrap(), vec!["BTCUSDT", "ETHUSDT"]);
    match correlation_symbols("BTCUSDT", 10) {
        Err(e) => assert_eq!(e.message(), "need at least 2 comma-separated symbols"),
        Ok(_) => panic!("one symbol is refused"),
    }
    match correlation_symbols("A,B,C", 2) {
        Err(e) => assert_eq!(e.message(), "at most 2 symbols allowed, got 3"),
        Ok(_) => panic!("three symbols exceed the cap"),
    }
}

#[test]
fn symbol_parameter_is_checked_for_form() {
    assert_eq!(symbol_param("BTCUSDT").unwrap().as_str(), "BTCUSDT");
    match symbol_param("btc") {
        Err(ApiError::BadRequest { details: ErrorDetails::Parameter(p), .. }) => assert_eq!(p, "symbol"),
        other => panic!("unexpected {other:?}"),
    }
}

#[test]
fn methods_are_labelled_for_metrics() {
    assert_eq!(normalize_method("GET"), "GET");
    assert_eq!(normalize_method("OPTIONS"), "OPTIONS");
    assert_eq!(normalize_method("BREW"), "other");
    assert!(is_error_status(404));
    assert!(is_error_status(500));
    assert!(!is_error_status(200));
    assert!(!is_error_status(302));
}

#[test]
fn socket_proxy_decisions() {
    assert_eq!(socket_step(SocketEvent::ClientFrame), SocketAction::Continue);
    assert_eq!(socket_step(SocketEvent::ClientGone), SocketAction::Close);
    assert_eq!(socket_step(SocketEvent::UpstreamEvent), SocketAction::Forward);
    assert_eq!(socket_step(SocketEvent::UpstreamError), SocketAction::LogAndContinue);
    assert_eq!(socket_step(SocketEvent::UpstreamEnded), SocketAction::Close);
    assert_eq!(socket_step(SocketEvent::HeartbeatDue), SocketAction::SendHeartbeat);
}

#[test]
fn symbols_are_listed_with_their_data_flag() {
    let records = vec![
        SymbolRecord {
            exchange: "binance".to_string(),
            symbol: "BTCUSDT".to_string(),
            base_asset: "BTC".to_string(),
            quote_asset: "USDT".to_string(),
            status: "TRADING".to_string(),
        },
        SymbolRecord {
            exchange: "binance".to_string(),
            symbol: "ETHUSDT".to_string(),
            base_asset: "ETH".to_string(),
            quote_asset: "USDT".to_string(),
            status: "TRADING".to_string(),
        },
    ];
    let dtos = symbol_dtos(records, &vec!["ETHUSDT".to_string()]);
    assert_eq!(dtos.len(), 2);
    assert!(!dtos[0].has_data);
    assert!(dtos[1].has_data);
    assert_eq!(dtos[1].base_asset, "ETH");
}

#[test]
fn placeholders_join_correctly() {
    assert_eq!(placeholders(0), "");
    assert_eq!(placeholders(1), "?");
    assert_eq!(placeholders(3), "?, ?, ?");
}

#[test]
fn vwap_rejects_zero_window() {
    assert!(window_frame(0).is_err());
    assert_eq!(window_frame(3).unwrap(), 2);
}

#[test]
fn volatility_rejects_zero_window() {
    match window_frame(0) {
        Err(e) => assert_eq!(e.message(), "invalid parameter 'window': must be at least 1"),
        Ok(_) => panic!("a zero window is refused"),
    }
}

#[test]
fn anomaly_rejects_zero_window() {
    assert!(window_frame(0).is_err());
}

#[test]
fn ofi_rejects_non_positive_bucket() {
    assert!(check_bucket_seconds(0).is_err());
    assert!(check_bucket_seconds(-60).is_err());
    assert!(check_bucket_seconds(60).is_ok());
}

#[test]
fn resample_rejects_non_positive_bucket() {
    match check_bucket_seconds(0) {
        Err(e) => assert_eq!(e.message(), "invalid parameter 'bucket_seconds': must be positive"),
        Ok(_) => panic!("a zero bucket is refused"),
    }
}

#[test]
fn rejects_fewer_than_two_symbols() {
    assert!(check_correlation_symbols(1).is_err());
    assert!(check_correlation_symbols(2).is_ok());
}

#[test]
fn decimal_cells_are_read_exactly() {
    let d = decimal_cell("50000.12345678".to_string()).unwrap();
    assert_eq!(d.mantissa, 5_000_012_345_678);
    assert_eq!(d.scale, 8);
    match decimal_cell("x".to_string()) {
        Err(AnalyticsError::Decimal { value, .. }) => assert_eq!(value, "x"),
        other => panic!("unexpected {other:?}"),
    }
    assert!(decimal_cell_opt(None).unwrap().is_none());
}
