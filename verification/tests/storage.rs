use market_analyzer::batch::{flush_due_at, BatchBuffer, BatchConfig};
use market_analyzer::compact::{
    check_merge, manifest_entries, manifest_file_name, manifest_text, merged_result, needs_merge, next_compaction_step,
    recovery_deletions, CompactionStep,
    tmp_manifest_file_name, unchanged_result, CompactionResult,
};
use market_analyzer::decimal::DecimalValue;
use market_analyzer::interval::Interval;
use market_analyzer::meta::{check_schema_version, collector_last_ts, glob_view_sql, is_missing_files_failure};
use market_analyzer::model::{Kline, Trade};
use market_analyzer::paths::{
    date_dir_matches, discover_partitions, has_existing_parts, is_incomplete_write,
    list_part_files, next_part_index, parse_part_index, part_file_name, partition_dir,
    sql_quote_path, symbol_dir_matches, tmp_part_file_name, SymbolListing,
};
use market_analyzer::store::{
    fresh_klines, fresh_trades, kline_partition_keys, partition_groups, remembered_keys,
    trade_partition_keys, KlineKeys, TradeKeys,
};
use market_analyzer::symbol::Symbol;

fn names(v: &[&str]) -> Vec<String> {
    v.iter().map(|s| s.to_string()).collect()
}

#[test]
fn flushes_on_row_count_threshold() {
    let mut buf = BatchBuffer::new(BatchConfig { max_rows: 3, max_age_ms: 3_600_000 });
    buf.push(1);
    buf.push(2);
    assert!(!buf.should_flush());
    buf.push(3);
    assert!(buf.should_flush());
    assert_eq!(buf.drain(), vec![1, 2, 3]);
    assert!(!buf.should_flush());
    assert!(buf.is_empty());
}

#[test]
fn empty_buffer_never_flushes() {
    let buf: BatchBuffer<i32> = BatchBuffer::new(BatchConfig { max_rows: 0, max_age_ms: 0 });
    assert!(!buf.should_flush());
}

#[test]
fn partition_dir_matches_fr_2_1_layout() {
    let day = 20_666; // 2026-08-01
    let dir = partition_dir("data", "klines", "BTCUSDT", day).unwrap();
    assert_eq!(dir, "data/klines/symbol=BTCUSDT/dt=2026-08-01");
}

#[test]
fn partition_dir_joins_like_a_path() {
    let day = 20_666;
    assert_eq!(partition_dir("data/", "trades", "ETHUSDT", day).unwrap(), "data/trades/symbol=ETHUSDT/dt=2026-08-01");
    assert_eq!(partition_dir("", "trades", "ETHUSDT", day).unwrap(), "trades/symbol=ETHUSDT/dt=2026-08-01");
}

#[test]
fn next_part_index_starts_at_zero_and_increments() {
    assert_eq!(next_part_index(&Vec::new()), 0);
    let listing = names(&["part-0000.parquet", "part-0003.parquet", "not-a-part.parquet"]);
    assert_eq!(next_part_index(&listing), 4);
}

#[test]
fn part_names_read_back() {
    assert_eq!(part_file_name(7), "part-0007.parquet");
    assert_eq!(part_file_name(12_345), "part-12345.parquet");
    assert_eq!(tmp_part_file_name(7), "part-0007.parquet.tmp");
    assert_eq!(parse_part_index("part-0007.parquet"), Some(7));
    assert_eq!(parse_part_index("part-0007.parquet.tmp"), None);
    assert_eq!(parse_part_index("part-.parquet"), None);
    assert_eq!(parse_part_index("part-+12.parquet"), Some(12));
    assert_eq!(parse_part_index("part-4294967296.parquet"), None);
}

#[test]
fn existing_parts_are_detected() {
    assert!(!has_existing_parts(&names(&["a.txt", "part-1.parquet.tmp"])));
    assert!(has_existing_parts(&names(&["a.txt", "part-1.parquet"])));
}

#[test]
fn part_files_are_listed_in_index_order() {
    let listing = names(&["part-0010.parquet", "x", "part-0002.parquet", "part-1.parquet", "part-0001.parquet"]);
    assert_eq!(
        list_part_files(&listing),
        names(&["part-1.parquet", "part-0001.parquet", "part-0002.parquet", "part-0010.parquet"])
    );
}

#[test]
fn cleanup_removes_only_tmp_files() {
    assert!(!is_incomplete_write("part-0000.parquet"));
    assert!(is_incomplete_write("part-0001.parquet.tmp"));
    assert!(!is_incomplete_write(".tmp"));
    assert!(is_incomplete_write("a.tmp"));
}

#[test]
fn sql_quoting_doubles_single_quotes() {
    assert_eq!(sql_quote_path("/data/o'brien/x"), "/data/o''brien/x");
    assert_eq!(sql_quote_path("plain"), "plain");
}

fn listing() -> Vec<SymbolListing> {
    vec![
        SymbolListing { symbol_dir: "symbol=ETHUSDT".to_string(), day_dirs: names(&["dt=2026-08-01"]) },
        SymbolListing {
            symbol_dir: "symbol=BTCUSDT".to_string(),
            day_dirs: names(&["dt=2026-08-02", "dt=2026-08-01", "notes"]),
        },
        SymbolListing { symbol_dir: "other".to_string(), day_dirs: names(&["dt=2026-08-01"]) },
    ]
}

#[test]
fn discover_partitions_filters_by_symbol_and_date() {
    let all = discover_partitions("root", "klines", &listing(), None, None);
    assert_eq!(all.len(), 3);
    assert_eq!(
        all,
        names(&[
            "root/klines/symbol=BTCUSDT/dt=2026-08-01",
            "root/klines/symbol=BTCUSDT/dt=2026-08-02",
            "root/klines/symbol=ETHUSDT/dt=2026-08-01",
        ])
    );

    let btc_only = discover_partitions("root", "klines", &listing(), Some("BTCUSDT"), None);
    assert_eq!(btc_only.len(), 2);

    let one_day = discover_partitions("root", "klines", &listing(), None, Some(20_666));
    assert_eq!(one_day.len(), 2);

    let both_filters = discover_partitions("root", "klines", &listing(), Some("BTCUSDT"), Some(20_667));
    assert_eq!(both_filters.len(), 1);
    assert!(both_filters[0].ends_with("dt=2026-08-02"));
}

#[test]
fn discover_partitions_missing_dataset_dir_returns_empty() {
    let result = discover_partitions("root", "klines", &Vec::new(), None, None);
    assert!(result.is_empty());
}

#[test]
fn partition_directory_names_are_matched() {
    assert!(symbol_dir_matches("symbol=BTCUSDT", None));
    assert!(symbol_dir_matches("symbol=BTCUSDT", Some("BTCUSDT")));
    assert!(!symbol_dir_matches("symbol=BTCUSDT", Some("ETHUSDT")));
    assert!(!symbol_dir_matches("BTCUSDT", None));
    assert!(date_dir_matches("dt=2026-08-01", Some(20_666)));
    assert!(!date_dir_matches("dt=2026-08-01", Some(20_667)));
    assert!(!date_dir_matches("2026-08-01", None));
}

#[test]
fn single_file_partition_outcome_is_unchanged() {
    assert!(!needs_merge(1));
    assert!(!needs_merge(0));
    assert!(needs_merge(2));
    let r = unchanged_result(1, 1, 900);
    assert_eq!(r, CompactionResult { files_before: 1, files_after: 1, rows: 1, bytes_before: 900, bytes_after: 900 });
    let r = merged_result(5, 5, 5_000, 1_200);
    assert_eq!(r, CompactionResult { files_before: 5, files_after: 1, rows: 5, bytes_before: 5_000, bytes_after: 1_200 });
}

#[test]
fn empty_partition_is_a_no_op() {
    let r = unchanged_result(0, 0, 0);
    assert_eq!(r.files_before, 0);
    assert_eq!(r.files_after, 0);
    assert_eq!(r.rows, 0);
}

#[test]
fn merge_check_refuses_a_changed_checksum() {
    assert!(check_merge("d".to_string(), 5, "123".to_string(), 5, "123".to_string()).is_ok());
    let e = check_merge("d".to_string(), 5, "123".to_string(), 4, "99".to_string()).unwrap_err();
    assert_eq!(
        e.message(),
        "compaction checksum mismatch in d: before(count=5, checksum=123) != after(count=4, checksum=99); original files left untouched"
    );
}

#[test]
fn manifest_lists_the_replaced_files() {
    let files = names(&["part-0000.parquet", "part-0001.parquet", "part-0002.parquet"]);
    let text = manifest_text(&files);
    assert_eq!(text, "part-0000.parquet\npart-0001.parquet\npart-0002.parquet");
    assert_eq!(manifest_entries(&text), files);
    assert_eq!(manifest_entries("a\r\n\nb\n"), names(&["a", "b"]));
    assert_eq!(manifest_file_name(3), "part-0003.compacted-manifest");
    assert_eq!(tmp_manifest_file_name(3), "part-0003.compacted-manifest.tmp");
    assert_eq!(parse_part_index("part-0003.compacted-manifest"), None);
}

#[test]
fn schema_version_and_views() {
    assert!(check_schema_version(1).is_ok());
    assert!(check_schema_version(2).is_err());
    assert_eq!(
        glob_view_sql("klines", "/d/klines"),
        "CREATE OR REPLACE TEMP VIEW klines AS SELECT * FROM read_parquet('/d/klines/**/*.parquet', hive_partitioning = true)"
    );
    assert!(is_missing_files_failure("IO Error: No files found that match the pattern \"x\""));
    assert!(!is_missing_files_failure("Catalog Error"));
}

fn dec(s: &str) -> DecimalValue {
    DecimalValue::from_str(s).unwrap()
}

fn kline_at(open_time: i64, symbol: &str) -> Kline {
    Kline {
        open_time,
        close_time: open_time + 59_999,
        symbol: Symbol::new(symbol).unwrap(),
        exchange: "binance".to_string(),
        interval: Interval::OneMinute,
        open: dec("50000.00000000"),
        high: dec("50100.00000000"),
        low: dec("49900.00000000"),
        close: dec("50050.00000000"),
        volume: dec("12.50000000"),
        quote_volume: dec("625625.00000000"),
        trades_count: 100,
        taker_buy_base: Some(dec("6.25000000")),
        is_closed: true,
    }
}

fn trade(trade_id: i64, ts: i64, price: &str) -> Trade {
    Trade {
        ts,
        symbol: Symbol::new("BTCUSDT").unwrap(),
        exchange: "binance".to_string(),
        trade_id,
        price: dec(price),
        qty: dec("1.00000000"),
        is_buyer_maker: false,
    }
}

const AUG_1: i64 = 1_785_542_400_000; // 2026-08-01T00:00:00Z

#[test]
fn writes_klines_and_dedups_on_rerun() {
    let klines = vec![kline_at(AUG_1, "BTCUSDT"), kline_at(AUG_1 + 60_000, "BTCUSDT")];
    let keys = kline_partition_keys(&klines);
    let groups = partition_groups(&keys);
    assert_eq!(groups.len(), 1);
    assert_eq!(groups[0].day, 20_666);
    let mut held = KlineKeys::new();
    assert_eq!(fresh_klines(&mut held, &klines, &groups[0].members), vec![0, 1]);
    assert!(fresh_klines(&mut held, &klines, &groups[0].members).is_empty());
}

#[test]
fn batch_is_grouped_by_symbol_and_day_in_order() {
    let klines = vec![
        kline_at(AUG_1 + 86_400_000, "ETHUSDT"),
        kline_at(AUG_1, "ETHUSDT"),
        kline_at(AUG_1, "BTCUSDT"),
        kline_at(AUG_1 + 60_000, "ETHUSDT"),
    ];
    let groups = partition_groups(&kline_partition_keys(&klines));
    let summary: Vec<(String, i64, Vec<usize>)> =
        groups.iter().map(|g| (g.symbol.clone(), g.day, g.members.clone())).collect();
    assert_eq!(
        summary,
        vec![
            ("BTCUSDT".to_string(), 20_666, vec![2]),
            ("ETHUSDT".to_string(), 20_666, vec![1, 3]),
            ("ETHUSDT".to_string(), 20_667, vec![0]),
        ]
    );
}

#[test]
fn duplicate_candles_within_one_batch_are_written_once() {
    let klines = vec![kline_at(AUG_1, "BTCUSDT"), kline_at(AUG_1, "BTCUSDT")];
    let mut held = KlineKeys::new();
    assert_eq!(fresh_klines(&mut held, &klines, &vec![0, 1]), vec![0]);
    assert!(held.contains("binance", "1m", AUG_1 as i128 * 1000));
}

#[test]
fn dedup_key_is_exchange_and_trade_id_not_price_or_time() {
    let trades = vec![trade(1, AUG_1, "100.00000000"), trade(1, AUG_1 + 5, "101.00000000"), trade(2, AUG_1, "100.00000000")];
    let groups = partition_groups(&trade_partition_keys(&trades));
    assert_eq!(groups.len(), 1);
    let mut held = TradeKeys::new();
    assert_eq!(fresh_trades(&mut held, &trades, &groups[0].members), vec![0, 2]);
    assert!(held.contains("binance", 1));
    assert!(!held.contains("other", 1));
}

#[test]
fn klines_empty_input_writes_nothing() {
    let klines: Vec<Kline> = Vec::new();
    assert!(partition_groups(&kline_partition_keys(&klines)).is_empty());
}

#[test]
fn trades_empty_input_writes_nothing() {
    let trades: Vec<Trade> = Vec::new();
    assert!(partition_groups(&trade_partition_keys(&trades)).is_empty());
}

#[test]
fn collector_state_upsert_keeps_max_timestamp() {
    let t1: i64 = 1_785_542_400_000;
    let t2: i64 = 1_785_628_800_000;
    let first = collector_last_ts(None, t1);
    assert_eq!(first, t1);
    let second = collector_last_ts(Some(first), t2);
    assert_eq!(second, t2);
    let third = collector_last_ts(Some(second), t1);
    assert_eq!(third, t2);
}

#[test]
fn single_file_partition_is_a_no_op() {
    assert!(!needs_merge(1));
    let result = unchanged_result(1, 1, 4_096);
    assert_eq!(result.files_before, 1);
    assert_eq!(result.files_after, 1);
    assert_eq!(result.rows, 1);
}

#[test]
fn writes_trades_and_dedups_on_rerun() {
    let trades: Vec<Trade> = (0..5).map(|i| trade(i, AUG_1 + i, "100.00000000")).collect();
    let groups = partition_groups(&trade_partition_keys(&trades));
    assert_eq!(groups.len(), 1);
    let mut held = TradeKeys::new();
    assert_eq!(fresh_trades(&mut held, &trades, &groups[0].members).len(), 5);
    assert_eq!(fresh_trades(&mut held, &trades, &groups[0].members).len(), 0);
}

#[test]
fn appends_new_rows_alongside_existing_partition() {
    let mut held = KlineKeys::new();
    let first = vec![kline_at(AUG_1, "BTCUSDT")];
    assert_eq!(fresh_klines(&mut held, &first, &vec![0]).len(), 1);
    let second = vec![kline_at(AUG_1, "BTCUSDT"), kline_at(AUG_1 + 60_000, "BTCUSDT")];
    let groups = partition_groups(&kline_partition_keys(&second));
    assert_eq!(groups.len(), 1);
    let written = fresh_klines(&mut held, &second, &groups[0].members);
    assert_eq!(written, vec![1], "only the genuinely new minute should be written");
}

#[test]
fn many_sequential_flushes_into_same_partition_dedup_correctly() {
    let mut held = KlineKeys::new();
    let mut total = 0usize;
    for minute in 0..20i64 {
        let batch = vec![
            kline_at(AUG_1 + minute * 60_000, "BTCUSDT"),
            kline_at(AUG_1 + (minute + 1) * 60_000, "BTCUSDT"),
        ];
        let groups = partition_groups(&kline_partition_keys(&batch));
        assert_eq!(groups.len(), 1);
        let written = fresh_klines(&mut held, &batch, &groups[0].members).len();
        let expected = if minute == 0 { 2 } else { 1 };
        assert_eq!(written, expected, "flush {minute} wrote unexpected row count");
        total += written;
    }
    assert_eq!(total, 21);
}

#[test]
fn flushes_on_age_threshold() {
    let mut buf: BatchBuffer<i32> = BatchBuffer::new(BatchConfig { max_rows: 50_000, max_age_ms: 1 });
    buf.push(1);
    let start = std::time::Instant::now();
    while start.elapsed() < std::time::Duration::from_millis(5) {}
    assert!(buf.should_flush());
}

#[test]
fn recovery_deletes_the_originals_only_once_the_merged_file_is_in_place() {
    let manifest = manifest_file_name(3);
    let text = manifest_text(&names(&["part-0000.parquet", "part-0001.parquet", "part-0002.parquet"]));
    let merged = names(&["part-0000.parquet", "part-0001.parquet", "part-0002.parquet", "part-0003.parquet", manifest.as_str()]);
    assert_eq!(
        recovery_deletions(&manifest, &merged, &text),
        names(&["part-0000.parquet", "part-0001.parquet", "part-0002.parquet"])
    );
    let unmerged = names(&["part-0000.parquet", "part-0001.parquet", "part-0002.parquet", "part-0003.parquet.tmp", manifest.as_str()]);
    assert!(recovery_deletions(&manifest, &unmerged, &text).is_empty());
}

#[test]
fn the_age_threshold_counts_from_the_first_row() {
    assert!(!flush_due_at(0, 0, 1_000_000, 0));
    assert!(!flush_due_at(3, 50_000, 29_999, 30_000));
    assert!(flush_due_at(3, 50_000, 30_000, 30_000));
    assert!(flush_due_at(50_000, 50_000, 0, 30_000));
    let mut buf: BatchBuffer<i32> = BatchBuffer::new(BatchConfig { max_rows: 50_000, max_age_ms: 30_000 });
    assert!(!buf.should_flush_after(1_000_000));
    buf.push_at(1, std::time::Instant::now());
    buf.push_at(2, std::time::Instant::now());
    assert!(!buf.should_flush_after(29_999));
    assert!(buf.should_flush_after(30_000));
}

#[test]
fn a_merge_deletes_the_originals_only_after_a_checked_rename() {
    let mut step = CompactionStep::WriteManifest;
    let mut seen = Vec::new();
    while step != CompactionStep::Done && step != CompactionStep::Abandon {
        seen.push(step);
        step = next_compaction_step(step, true);
    }
    assert_eq!(
        seen,
        vec![
            CompactionStep::WriteManifest,
            CompactionStep::CopyMerged,
            CompactionStep::CheckMerged,
            CompactionStep::RenameMerged,
            CompactionStep::DeleteOriginals,
        ]
    );
    assert_eq!(next_compaction_step(CompactionStep::CheckMerged, false), CompactionStep::Abandon);
    assert_eq!(next_compaction_step(CompactionStep::RenameMerged, false), CompactionStep::Abandon);
}

#[test]
fn a_failed_write_forgets_the_partition_keys() {
    let klines = vec![kline_at(AUG_1, "BTCUSDT")];
    let mut held = KlineKeys::new();
    assert_eq!(fresh_klines(&mut held, &klines, &vec![0]), vec![0]);
    assert!(remembered_keys(held, false).is_none());
    let mut again = KlineKeys::new();
    assert_eq!(fresh_klines(&mut again, &klines, &vec![0]), vec![0]);
    let kept = remembered_keys(again, true).unwrap();
    assert!(kept.contains("binance", "1m", AUG_1 as i128 * 1000));
}
