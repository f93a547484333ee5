//! The metadata database's rules: its schema version, the datasets it
//! publishes as views over the Parquet files, and the symbol registry's
//! record. The database itself is the caller's.
use vstd::prelude::*;

use crate::error::StorageError;
use crate::paths::{sql_quote_path, sql_quoted};
use crate::text::{contains_str, contains_text, owned};

verus! {

/// The schema version this build reads and writes.
pub const SCHEMA_VERSION: i64 = 1;

/// The datasets published as views.
pub const DATASETS: [&'static str; 2] = ["klines", "trades"];

/// One instrument of the symbol registry.
#[derive(Debug, Clone, PartialEq, Eq)]
pub struct SymbolRecord {
    pub exchange: String,
    pub symbol: String,
    pub base_asset: String,
    pub quote_asset: String,
    pub status: String,
}

/// A database of another schema version is refused.
pub fn check_schema_version(found: i64) -> (r: Result<(), StorageError>)
    ensures
        r is Ok <==> found == SCHEMA_VERSION,
        r matches Err(e) ==> e == (StorageError::SchemaVersion { found, expected: SCHEMA_VERSION }),
{
    if found != SCHEMA_VERSION {
        return Err(StorageError::SchemaVersion { found, expected: SCHEMA_VERSION });
    }
    Ok(())
}

/// The glob, quoted for SQL, of every Parquet file under a dataset
/// directory.
pub open spec fn dataset_glob(dataset_dir: Seq<char>) -> Seq<char> {
    sql_quoted(dataset_dir) + "/**/*.parquet"@
}

/// The statement that (re)creates the view `view_name` over every Parquet
/// file under `dataset_dir`, reading the partition directories' `key=value`
/// names as columns.
pub fn glob_view_sql(view_name: &str, dataset_dir: &str) -> (r: String)
    ensures
        r@ == "CREATE OR REPLACE TEMP VIEW "@ + view_name@ + " AS SELECT * FROM read_parquet('"@
            + dataset_glob(dataset_dir@) + "', hive_partitioning = true)"@,
{
    let mut s = owned("CREATE OR REPLACE TEMP VIEW ");
    s.append(view_name);
    s.append(" AS SELECT * FROM read_parquet('");
    let q = sql_quote_path(dataset_dir);
    s.append(q.as_str());
    s.append("/**/*.parquet");
    s.append("', hive_partitioning = true)");
    s
}

/// The instant a collector state records once an instant `seen` has been
/// collected: the latest of what was stored and `seen`, so that the state
/// never moves backwards.
pub open spec fn collector_last_ts_spec(stored: Option<i64>, seen: i64) -> i64 {
    match stored {
        Some(s) => if s >= seen {
            s
        } else {
            seen
        },
        None => seen,
    }
}

/// The instant to store for a collector (exchange, symbol, dataset,
/// interval) after it has collected up to `seen`, given what it stored
/// before, if anything.
pub fn collector_last_ts(stored: Option<i64>, seen: i64) -> (r: i64)
    ensures
        r == collector_last_ts_spec(stored, seen),
        r >= seen,
        stored matches Some(s) ==> r >= s,
        r == seen || stored == Some(r),
{
    match stored {
        Some(s) => if s >= seen {
            s
        } else {
            seen
        },
        None => seen,
    }
}

/// Recording instants one after the other keeps the latest of them, in
/// whatever order they arrive.
pub proof fn lemma_collector_state_order_free(stored: Option<i64>, a: i64, b: i64)
    ensures
        collector_last_ts_spec(Some(collector_last_ts_spec(stored, a)), b) == collector_last_ts_spec(
            Some(collector_last_ts_spec(stored, b)),
            a,
        ),
{
}

/// The database engine's message when a glob matches no file yet.
pub const NO_FILES_MESSAGE: &'static str = "No files found that match the pattern";

/// Whether a failure to create a view only means that the dataset has no
/// file yet (the view is then simply not created).
pub fn is_missing_files_failure(message: &str) -> (r: bool)
    ensures
        r == contains_text(message@, NO_FILES_MESSAGE@),
{
    contains_str(message, NO_FILES_MESSAGE)
}

} // verus!
