//! Error types of the domain, the collector, the storage layer and the
//! analytics queries, with their human-readable messages.
use vstd::prelude::*;

use crate::text::{decimal_text, push_decimal_i64, push_decimal_u64, signed_decimal_text};

verus! {

/// Errors produced by domain-level validation.
#[derive(Debug)]
pub enum CoreError {
    InvalidSymbol(String),
    InvalidInterval(String),
    DecimalScale { value: String, actual: u32, target: u32 },
}

pub open spec fn invalid_symbol_message(s: Seq<char>) -> Seq<char> {
    "invalid symbol '"@ + s + "': must be 1-32 uppercase ASCII alphanumeric characters"@
}

pub open spec fn invalid_interval_message(s: Seq<char>) -> Seq<char> {
    "invalid interval '"@ + s + "'"@
}

pub open spec fn decimal_scale_message(value: Seq<char>, actual: nat, target: nat) -> Seq<char> {
    "decimal value '"@ + value + "' has scale "@ + decimal_text(actual)
        + " which exceeds target scale "@ + decimal_text(target)
}

/// The message of a `CoreError`.
pub open spec fn core_error_message(e: CoreError) -> Seq<char> {
    match e {
        CoreError::InvalidSymbol(s) => invalid_symbol_message(s@),
        CoreError::InvalidInterval(s) => invalid_interval_message(s@),
        CoreError::DecimalScale { value, actual, target } => decimal_scale_message(
            value@,
            actual as nat,
            target as nat,
        ),
    }
}

impl CoreError {
    /// The human-readable message.
    pub fn message(&self) -> (r: String)
        ensures
            r@ == core_error_message(*self),
    {
        let mut s = String::new();
        match self {
            CoreError::InvalidSymbol(v) => {
                s.append("invalid symbol '");
                s.append(v.as_str());
                s.append("': must be 1-32 uppercase ASCII alphanumeric characters");
            },
            CoreError::InvalidInterval(v) => {
                s.append("invalid interval '");
                s.append(v.as_str());
                s.append("'");
            },
            CoreError::DecimalScale { value, actual, target } => {
                s.append("decimal value '");
                s.append(value.as_str());
                s.append("' has scale ");
                push_decimal_u64(&mut s, *actual as u64);
                s.append(" which exceeds target scale ");
                push_decimal_u64(&mut s, *target as u64);
            },
        }
        s
    }
}

/// Errors of the exchange client. Transport and JSON failures carry the
/// underlying library's message.
#[derive(Debug)]
pub enum ExchangeError {
    Http(String),
    RateLimited { attempts: u32 },
    Banned { retry_after_secs: u64 },
    UnexpectedStatus { status: u16, body: String },
    Parse(String),
    Json(String),
    Domain(CoreError),
    NotImplemented(String),
    Config(String),
}

pub open spec fn parse_error_message(m: Seq<char>) -> Seq<char> {
    "failed to parse exchange response: "@ + m
}

/// The message of an `ExchangeError`.
pub open spec fn exchange_error_message(e: ExchangeError) -> Seq<char> {
    match e {
        ExchangeError::Http(m) => "http transport error: "@ + m@,
        ExchangeError::RateLimited { attempts } => "rate limited after "@ + decimal_text(
            attempts as nat,
        ) + " attempt(s)"@,
        ExchangeError::Banned { retry_after_secs } => "banned by exchange (HTTP 418), retry after "@
            + decimal_text(retry_after_secs as nat) + "s"@,
        ExchangeError::UnexpectedStatus { status, body } => "unexpected HTTP status "@
            + decimal_text(status as nat) + ": "@ + body@,
        ExchangeError::Parse(m) => parse_error_message(m@),
        ExchangeError::Json(m) => "failed to parse exchange JSON payload: "@ + m@,
        ExchangeError::Domain(c) => core_error_message(c),
        ExchangeError::NotImplemented(m) => "not implemented: "@ + m@,
        ExchangeError::Config(m) => "invalid configuration: "@ + m@,
    }
}

impl ExchangeError {
    /// The human-readable message.
    pub fn message(&self) -> (r: String)
        ensures
            r@ == exchange_error_message(*self),
    {
        let mut s = String::new();
        match self {
            ExchangeError::Http(m) => {
                s.append("http transport error: ");
                s.append(m.as_str());
            },
            ExchangeError::RateLimited { attempts } => {
                s.append("rate limited after ");
                push_decimal_u64(&mut s, *attempts as u64);
                s.append(" attempt(s)");
            },
            ExchangeError::Banned { retry_after_secs } => {
                s.append("banned by exchange (HTTP 418), retry after ");
                push_decimal_u64(&mut s, *retry_after_secs);
                s.append("s");
            },
            ExchangeError::UnexpectedStatus { status, body } => {
                s.append("unexpected HTTP status ");
                push_decimal_u64(&mut s, *status as u64);
                s.append(": ");
                s.append(body.as_str());
            },
            ExchangeError::Parse(m) => {
                s.append("failed to parse exchange response: ");
                s.append(m.as_str());
            },
            ExchangeError::Json(m) => {
                s.append("failed to parse exchange JSON payload: ");
                s.append(m.as_str());
            },
            ExchangeError::Domain(c) => {
                return c.message();
            },
            ExchangeError::NotImplemented(m) => {
                s.append("not implemented: ");
                s.append(m.as_str());
            },
            ExchangeError::Config(m) => {
                s.append("invalid configuration: ");
                s.append(m.as_str());
            },
        }
        s
    }
}

/// Errors of the storage layer. I/O and database failures carry the
/// underlying library's message.
#[derive(Debug)]
pub enum StorageError {
    Io(String),
    Db(String),
    Domain(CoreError),
    SchemaVersion { found: i64, expected: i64 },
    CompactionMismatch {
        path: String,
        count_before: i64,
        count_after: i64,
        checksum_before: String,
        checksum_after: String,
    },
}

/// The message of a `StorageError`.
pub open spec fn storage_error_message(e: StorageError) -> Seq<char> {
    match e {
        StorageError::Io(m) => "io error: "@ + m@,
        StorageError::Db(m) => "duckdb error: "@ + m@,
        StorageError::Domain(c) => core_error_message(c),
        StorageError::SchemaVersion { found, expected } => "meta.duckdb schema version "@
            + signed_decimal_text(found as int) + " is not supported (expected "@
            + signed_decimal_text(expected as int)
            + "); run a compatible build or migrate manually"@,
        StorageError::CompactionMismatch {
            path,
            count_before,
            count_after,
            checksum_before,
            checksum_after,
        } => "compaction checksum mismatch in "@ + path@ + ": before(count="@
            + signed_decimal_text(count_before as int) + ", checksum="@ + checksum_before@
            + ") != after(count="@ + signed_decimal_text(count_after as int) + ", checksum="@
            + checksum_after@ + "); original files left untouched"@,
    }
}

impl StorageError {
    /// The human-readable message.
    pub fn message(&self) -> (r: String)
        ensures
            r@ == storage_error_message(*self),
    {
        let mut s = String::new();
        match self {
            StorageError::Io(m) => {
                s.append("io error: ");
                s.append(m.as_str());
            },
            StorageError::Db(m) => {
                s.append("duckdb error: ");
                s.append(m.as_str());
            },
            StorageError::Domain(c) => {
                return c.message();
            },
            StorageError::SchemaVersion { found, expected } => {
                s.append("meta.duckdb schema version ");
                push_decimal_i64(&mut s, *found);
                s.append(" is not supported (expected ");
                push_decimal_i64(&mut s, *expected);
                s.append("); run a compatible build or migrate manually");
            },
            StorageError::CompactionMismatch {
                path,
                count_before,
                count_after,
                checksum_before,
                checksum_after,
            } => {
                s.append("compaction checksum mismatch in ");
                s.append(path.as_str());
                s.append(": before(count=");
                push_decimal_i64(&mut s, *count_before);
                s.append(", checksum=");
                s.append(checksum_before.as_str());
                s.append(") != after(count=");
                push_decimal_i64(&mut s, *count_after);
                s.append(", checksum=");
                s.append(checksum_after.as_str());
                s.append("); original files left untouched");
            },
        }
        s
    }
}

/// Errors of the analytics queries. Database and decimal failures carry the
/// underlying library's message.
#[derive(Debug)]
pub enum AnalyticsError {
    Db(String),
    Domain(CoreError),
    InvalidParam { name: String, reason: String },
    Decimal { value: String, source: String },
}

/// The message of an `AnalyticsError`.
pub open spec fn analytics_error_message(e: AnalyticsError) -> Seq<char> {
    match e {
        AnalyticsError::Db(m) => "duckdb error: "@ + m@,
        AnalyticsError::Domain(c) => core_error_message(c),
        AnalyticsError::InvalidParam { name, reason } => "invalid parameter '"@ + name@ + "': "@
            + reason@,
        AnalyticsError::Decimal { value, source } => "failed to parse decimal '"@ + value@
            + "': "@ + source@,
    }
}

impl AnalyticsError {
    /// The human-readable message.
    pub fn message(&self) -> (r: String)
        ensures
            r@ == analytics_error_message(*self),
    {
        let mut s = String::new();
        match self {
            AnalyticsError::Db(m) => {
                s.append("duckdb error: ");
                s.append(m.as_str());
            },
            AnalyticsError::Domain(c) => {
                return c.message();
            },
            AnalyticsError::InvalidParam { name, reason } => {
                s.append("invalid parameter '");
                s.append(name.as_str());
                s.append("': ");
                s.append(reason.as_str());
            },
            AnalyticsError::Decimal { value, source } => {
                s.append("failed to parse decimal '");
                s.append(value.as_str());
                s.append("': ");
                s.append(source.as_str());
            },
        }
        s
    }
}

} // verus!
