//! The HTTP API's rules: its limits, the errors it answers with (status,
//! code, message and details of the `{ "error": { code, message, details } }`
//! envelope), and the validation of query parameters. Routing, the database
//! pool and serialisation are the server's.
use vstd::prelude::*;

use crate::error::{
    analytics_error_message, invalid_interval_message, storage_error_message, AnalyticsError,
    StorageError,
};
use crate::interval::{interval_of_text, Interval};
use crate::text::{decimal_text, owned, push_decimal_i64, push_decimal_u64, signed_decimal_text};
use crate::time::{now_parts, parse_rfc3339_instant, parse_ymd, rfc3339_instant, ymd_date_parse};

verus! {

/// Runtime limits of the API: the widest date range, the pagination
/// bounds, the most symbols a correlation may name, and the most live
/// stream clients at once.
#[derive(Debug, Clone, Copy)]
pub struct ApiLimits {
    pub max_date_range_days: i64,
    pub default_pagination_limit: i64,
    pub max_pagination_limit: i64,
    pub max_correlation_symbols: usize,
    pub max_ws_connections: usize,
}

/// The `details` of an error envelope.
#[derive(Debug)]
pub enum ErrorDetails {
    /// `{}`
    Empty,
    /// `{ "parameter": name }`
    Parameter(String),
    /// `{ "max_days": n }`
    MaxDays(i64),
}

impl ErrorDetails {
    /// A copy of these details.
    pub fn duplicate(&self) -> (r: ErrorDetails)
        ensures
            r == *self,
    {
        match self {
            ErrorDetails::Empty => ErrorDetails::Empty,
            ErrorDetails::Parameter(p) => ErrorDetails::Parameter(p.clone()),
            ErrorDetails::MaxDays(n) => ErrorDetails::MaxDays(*n),
        }
    }
}

/// The errors the API answers with.
#[derive(Debug)]
pub enum ApiError {
    BadRequest { message: String, details: ErrorDetails },
    UnknownSymbol { symbol: String },
    RateLimited,
    Internal(String),
}

/// `e` is a `400` about `parameter` with `message`.
pub open spec fn is_bad_request(e: ApiError, parameter: Seq<char>, message: Seq<char>) -> bool {
    &&& e matches ApiError::BadRequest { message: m, details: ErrorDetails::Parameter(p) }
    &&& e->message@ == message
    &&& e->details->Parameter_0@ == parameter
}

/// The HTTP status of each class of error.
pub open spec fn api_error_status(e: ApiError) -> u16 {
    match e {
        ApiError::BadRequest { .. } => 400,
        ApiError::UnknownSymbol { .. } => 404,
        ApiError::RateLimited => 429,
        ApiError::Internal(_) => 500,
    }
}

/// The envelope's `code` of each class of error.
pub open spec fn api_error_code(e: ApiError) -> Seq<char> {
    match e {
        ApiError::BadRequest { .. } => "invalid_parameter"@,
        ApiError::UnknownSymbol { .. } => "unknown_symbol"@,
        ApiError::RateLimited => "rate_limited"@,
        ApiError::Internal(_) => "internal_error"@,
    }
}

/// The full message of an error (what the server logs).
pub open spec fn api_error_message(e: ApiError) -> Seq<char> {
    match e {
        ApiError::BadRequest { message, .. } => message@,
        ApiError::UnknownSymbol { symbol } => "unknown symbol '"@ + symbol@ + "'"@,
        ApiError::RateLimited => "rate limit exceeded"@,
        ApiError::Internal(m) => "internal error: "@ + m@,
    }
}

/// The message a client is shown: a `500` says only `internal error`,
/// since its detail (paths, SQL, schema) belongs in the server log.
pub open spec fn api_client_message(e: ApiError) -> Seq<char> {
    if api_error_status(e) == 500 {
        "internal error"@
    } else {
        api_error_message(e)
    }
}

/// The details of an error's envelope.
pub open spec fn api_error_details(e: ApiError) -> ErrorDetails {
    match e {
        ApiError::BadRequest { details, .. } => details,
        _ => ErrorDetails::Empty,
    }
}

impl ApiError {
    /// A `400` for `parameter`, recorded in the details.
    pub fn bad_request(parameter: &str, message: String) -> (r: ApiError)
        ensures
            is_bad_request(r, parameter@, message@),
    {
        ApiError::BadRequest { message, details: ErrorDetails::Parameter(owned(parameter)) }
    }

    /// The envelope's `code`.
    pub fn code(&self) -> (r: &'static str)
        ensures
            r@ == api_error_code(*self),
    {
        proof {
            reveal_strlit("invalid_parameter");
            reveal_strlit("unknown_symbol");
            reveal_strlit("rate_limited");
            reveal_strlit("internal_error");
        }
        match self {
            ApiError::BadRequest { .. } => "invalid_parameter",
            ApiError::UnknownSymbol { .. } => "unknown_symbol",
            ApiError::RateLimited => "rate_limited",
            ApiError::Internal(_) => "internal_error",
        }
    }

    /// The HTTP status of this error's class.
    pub fn status(&self) -> (r: u16)
        ensures
            r == api_error_status(*self),
    {
        match self {
            ApiError::BadRequest { .. } => 400,
            ApiError::UnknownSymbol { .. } => 404,
            ApiError::RateLimited => 429,
            ApiError::Internal(_) => 500,
        }
    }

    /// The envelope's `details`.
    pub fn details(&self) -> (r: ErrorDetails)
        ensures
            r == api_error_details(*self),
    {
        match self {
            ApiError::BadRequest { details, .. } => details.duplicate(),
            _ => ErrorDetails::Empty,
        }
    }

    /// The full message.
    pub fn message(&self) -> (r: String)
        ensures
            r@ == api_error_message(*self),
    {
        match self {
            ApiError::BadRequest { message, .. } => message.clone(),
            ApiError::UnknownSymbol { symbol } => {
                let mut s = owned("unknown symbol '");
                s.append(symbol.as_str());
                s.append("'");
                s
            },
            ApiError::RateLimited => owned("rate limit exceeded"),
            ApiError::Internal(m) => {
                let mut s = owned("internal error: ");
                s.append(m.as_str());
                s
            },
        }
    }

    /// The message a client is shown.
    pub fn client_message(&self) -> (r: String)
        ensures
            r@ == api_client_message(*self),
    {
        if self.status() == 500 {
            owned("internal error")
        } else {
            self.message()
        }
    }

    /// An analytics failure as the API reports it: an invalid parameter is
    /// the client's `400`, anything else is internal.
    pub fn from_analytics(e: AnalyticsError) -> (r: ApiError)
        ensures
            match e {
                AnalyticsError::InvalidParam { name, reason } => is_bad_request(
                    r,
                    name@,
                    "invalid parameter '"@ + name@ + "': "@ + reason@,
                ),
                _ => r matches ApiError::Internal(m) && m@ == analytics_error_message(e),
            },
    {
        match e {
            AnalyticsError::InvalidParam { name, reason } => {
                let mut m = owned("invalid parameter '");
                m.append(name.as_str());
                m.append("': ");
                m.append(reason.as_str());
                ApiError::bad_request(name.as_str(), m)
            },
            other => ApiError::Internal(other.message()),
        }
    }

    /// A storage failure is internal.
    pub fn from_storage(e: StorageError) -> (r: ApiError)
        ensures
            r matches ApiError::Internal(m) && m@ == storage_error_message(e),
    {
        ApiError::Internal(e.message())
    }
}

/// The body of an error answer: `{ "error": { code, message, details } }`.
#[derive(Debug)]
pub struct ErrorEnvelope {
    pub code: String,
    pub message: String,
    pub details: ErrorDetails,
}

/// An envelope with empty details, for errors reported over a live stream.
pub fn error_envelope(code: &str, message: String) -> (r: ErrorEnvelope)
    ensures
        r.code@ == code@,
        r.message == message,
        r.details is Empty,
{
    ErrorEnvelope { code: owned(code), message, details: ErrorDetails::Empty }
}

/// The status and body an error is answered with.
pub fn error_response(e: &ApiError) -> (r: (u16, ErrorEnvelope))
    ensures
        r.0 == api_error_status(*e),
        r.1.code@ == api_error_code(*e),
        r.1.message@ == api_client_message(*e),
        r.1.details == api_error_details(*e),
{
    let code = owned(e.code());
    (e.status(), ErrorEnvelope { code, message: e.client_message(), details: e.details() })
}

/// An internal error's answer names no detail of the failure: its message
/// is the same whatever went wrong.
pub proof fn lemma_internal_errors_do_not_leak(a: ApiError, b: ApiError)
    requires
        a is Internal,
        b is Internal,
    ensures
        api_client_message(a) == "internal error"@,
        api_client_message(a) == api_client_message(b),
        api_error_code(a) == "internal_error"@,
        api_error_status(a) == 500,
{
}

/// The interval text a request names, `1m` when it names none.
pub open spec fn interval_param_text(raw: Option<Seq<char>>) -> Seq<char> {
    match raw {
        Some(s) => s,
        None => "1m"@,
    }
}

/// The view of an optional text.
pub open spec fn opt_view(raw: Option<&str>) -> Option<Seq<char>> {
    match raw {
        Some(s) => Some(s@),
        None => None,
    }
}

/// The interval a request asks for (`1m` by default).
pub fn parse_interval(raw: Option<&str>) -> (r: Result<Interval, ApiError>)
    ensures
        r is Ok <==> interval_of_text(interval_param_text(opt_view(raw))) is Some,
        r matches Ok(i) ==> interval_of_text(interval_param_text(opt_view(raw))) == Some(i),
        r matches Err(e) ==> is_bad_request(
            e,
            "interval"@,
            invalid_interval_message(interval_param_text(opt_view(raw))),
        ),
{
    proof {
        reveal_strlit("1m");
    }
    let text = match raw {
        Some(s) => s,
        None => "1m",
    };
    match Interval::from_str(text) {
        Ok(i) => Ok(i),
        Err(e) => Err(ApiError::bad_request("interval", e.message())),
    }
}

/// The largest window a query may ask for.
pub const MAX_WINDOW: u32 = 100_000;

/// The window a request asks for (`default` when it names none): between 1
/// and 100000.
pub fn parse_window(raw: Option<u32>, default: u32) -> (r: Result<u32, ApiError>)
    ensures
        ({
            let w = match raw {
                Some(v) => v,
                None => default,
            };
            &&& r is Ok <==> 1 <= w <= 100_000
            &&& r matches Ok(v) ==> v == w
            &&& r matches Err(e) ==> is_bad_request(
                e,
                "window"@,
                "window must be between 1 and 100000, got "@ + decimal_text(w as nat),
            )
        }),
{
    let window = match raw {
        Some(v) => v,
        None => default,
    };
    if window == 0 || window > MAX_WINDOW {
        let mut m = owned("window must be between 1 and 100000, got ");
        push_decimal_u64(&mut m, window as u64);
        return Err(ApiError::bad_request("window", m));
    }
    Ok(window)
}

/// The widest bucket a query may ask for: a week, in seconds.
pub const MAX_BUCKET_SECONDS: i64 = 604_800;

/// The bucket width in seconds a request asks for (`default` when it names
/// none): positive, at most a week.
pub fn parse_bucket_seconds(raw: Option<i64>, default: i64) -> (r: Result<i64, ApiError>)
    ensures
        ({
            let b = match raw {
                Some(v) => v,
                None => default,
            };
            &&& r is Ok <==> 0 < b <= 604_800
            &&& r matches Ok(v) ==> v == b
            &&& r matches Err(e) ==> is_bad_request(
                e,
                "bucket"@,
                "bucket must be a positive number of seconds up to 604800, got "@
                    + signed_decimal_text(b as int),
            )
        }),
{
    let bucket = match raw {
        Some(v) => v,
        None => default,
    };
    if bucket <= 0 || bucket > MAX_BUCKET_SECONDS {
        let mut m = owned("bucket must be a positive number of seconds up to 604800, got ");
        push_decimal_i64(&mut m, bucket);
        return Err(ApiError::bad_request("bucket", m));
    }
    Ok(bucket)
}

/// The `(limit, offset)` a request asks for: the limit defaults to the
/// configured default and must lie in `1..=max`; the offset defaults to 0
/// and must not be negative.
pub fn parse_pagination(limit: Option<i64>, offset: Option<i64>, limits: &ApiLimits) -> (r: Result<(i64, i64), ApiError>)
    ensures
        ({
            let l = match limit {
                Some(v) => v,
                None => limits.default_pagination_limit,
            };
            let o = match offset {
                Some(v) => v,
                None => 0,
            };
            &&& r is Ok <==> 1 <= l <= limits.max_pagination_limit && o >= 0
            &&& r matches Ok(p) ==> p == (l, o)
            &&& (l < 1 || l > limits.max_pagination_limit) ==> (r matches Err(e) && is_bad_request(
                e,
                "limit"@,
                "limit must be between 1 and "@ + signed_decimal_text(limits.max_pagination_limit as int)
                    + ", got "@ + signed_decimal_text(l as int),
            ))
            &&& (1 <= l <= limits.max_pagination_limit && o < 0) ==> (r matches Err(e) && is_bad_request(
                e,
                "offset"@,
                "offset must be >= 0"@,
            ))
        }),
{
    let l = match limit {
        Some(v) => v,
        None => limits.default_pagination_limit,
    };
    if l < 1 || l > limits.max_pagination_limit {
        let mut m = owned("limit must be between 1 and ");
        push_decimal_i64(&mut m, limits.max_pagination_limit);
        m.append(", got ");
        push_decimal_i64(&mut m, l);
        return Err(ApiError::bad_request("limit", m));
    }
    let o = match offset {
        Some(v) => v,
        None => 0,
    };
    if o < 0 {
        return Err(ApiError::bad_request("offset", owned("offset must be >= 0")));
    }
    Ok((l, o))
}

/// Where a page starts in `len` rows.
pub open spec fn page_start(len: int, offset: int) -> int {
    let o = if offset < 0 {
        0
    } else {
        offset
    };
    if o < len {
        o
    } else {
        len
    }
}

/// Where a page ends in `len` rows.
pub open spec fn page_end(len: int, limit: int, offset: int) -> int {
    let l = if limit < 0 {
        0
    } else {
        limit
    };
    let e = page_start(len, offset) + l;
    if e < len {
        e
    } else {
        len
    }
}

/// The rows of one page: at most `limit` rows after skipping `offset` rows
/// (negative values count as 0).
pub fn paginate<T>(rows: Vec<T>, limit: i64, offset: i64) -> (r: Vec<T>)
    ensures
        r@ == rows@.subrange(
            page_start(rows@.len() as int, offset as int),
            page_end(rows@.len() as int, limit as int, offset as int),
        ),
{
    let mut rows = rows;
    let len = rows.len();
    let start: usize = if offset <= 0 {
        0
    } else if (offset as u64) < (len as u64) {
        offset as usize
    } else {
        len
    };
    let take: u64 = if limit <= 0 {
        0
    } else {
        limit as u64
    };
    let rest = (len - start) as u64;
    let count: usize = if take < rest {
        take as usize
    } else {
        len - start
    };
    let mut page = rows.split_off(start);
    page.truncate(count);
    page
}

/// The error message for a date parameter that is neither RFC 3339 nor
/// `YYYY-MM-DD`.
pub open spec fn date_param_message(field: Seq<char>, s: Seq<char>) -> Seq<char> {
    "'"@ + field + "' must be RFC3339 or YYYY-MM-DD, got '"@ + s + "'"@
}

/// Nanoseconds in a second.
pub open spec fn second_nanos() -> int {
    1_000_000_000
}

/// Nanoseconds in a day.
pub open spec fn day_nanos() -> int {
    86_400_000_000_000
}

/// The bound on instants read from requests, in nanoseconds either side of
/// the epoch (beyond the calendar's own).
pub open spec fn instant_bound() -> int {
    10_000_000_000_000_000_000_000
}

/// The widest date range, in days, that a duration can hold (`chrono`'s
/// `TimeDelta::days` panics beyond it).
pub open spec fn max_range_days_bound() -> int {
    106_751_991_167
}

/// The instant (nanoseconds since the epoch) a date parameter names: an
/// RFC 3339 instant, else midnight UTC of a `YYYY-MM-DD` day.
pub open spec fn flexible_instant(s: Seq<char>) -> Option<int> {
    match rfc3339_instant(s) {
        Some(p) => Some(p.0 * second_nanos() + p.1),
        None => match ymd_date_parse(s) {
            Some(d) => Some(d * day_nanos()),
            None => None,
        },
    }
}

/// Reads a date parameter.
fn parse_flexible_datetime(s: &str, field: &str) -> (r: Result<i128, ApiError>)
    ensures
        r matches Ok(ns) ==> flexible_instant(s@) == Some(ns as int) && -instant_bound() <= ns <= instant_bound(),
        r is Err ==> flexible_instant(s@) is None,
        r matches Err(e) ==> is_bad_request(e, field@, date_param_message(field@, s@)),
{
    if let Some(p) = parse_rfc3339_instant(s) {
        let secs = p.0 as i128;
        let nanos = p.1 as i128;
        assert(-8_640_000_000_000_000_000_000 <= secs * 1_000_000_000 <= 8_640_000_000_000_000_000_000) by (nonlinear_arith)
            requires
                -8_640_000_000_000 <= secs <= 8_640_000_000_000,
        ;
        return Ok(secs * 1_000_000_000 + nanos);
    }
    if let Some(day) = parse_ymd(s) {
        let d = day as i128;
        assert(-8_640_000_000_000_000_000_000 <= d * 86_400_000_000_000 <= 8_640_000_000_000_000_000_000) by (nonlinear_arith)
            requires
                -100_000_000 <= d <= 100_000_000,
        ;
        return Ok(d * 86_400_000_000_000);
    }
    let mut m = owned("'");
    m.append(field);
    m.append("' must be RFC3339 or YYYY-MM-DD, got '");
    m.append(s);
    m.append("'");
    Err(ApiError::bad_request(field, m))
}

/// The outcome of reading a date range, at the instant `now`: the `to`
/// instant (now by default), then the `from` instant (`max_days` before
/// `to` by default), then the checks that `from` is before `to` and that
/// the range is no wider than `max_days` days.
pub open spec fn date_range_ok(from: Option<Seq<char>>, to: Option<Seq<char>>, max_days: int, now: int) -> Option<(int, int)> {
    let t = match to {
        Some(s) => flexible_instant(s),
        None => Some(now),
    };
    match t {
        Some(t) => {
            let f = match from {
                Some(s) => flexible_instant(s),
                None => Some(t - max_days * day_nanos()),
            };
            match f {
                Some(f) => if f < t && t - f <= max_days * day_nanos() {
                    Some((f, t))
                } else {
                    None
                },
                None => None,
            }
        },
        None => None,
    }
}

/// The `from`/`to` instants (nanoseconds since the epoch) a request asks
/// for, read at the instant `now_ns`.
pub fn parse_date_range_at(from: Option<&str>, to: Option<&str>, limits: &ApiLimits, now_ns: i128) -> (r: Result<(i128, i128), ApiError>)
    requires
        -max_range_days_bound() <= limits.max_date_range_days <= max_range_days_bound(),
        -instant_bound() <= now_ns <= instant_bound(),
    ensures
        ({
            let max = limits.max_date_range_days as int;
            let ok = date_range_ok(opt_view(from), opt_view(to), max, now_ns as int);
            let t = match opt_view(to) {
                Some(s) => flexible_instant(s),
                None => Some(now_ns as int),
            };
            let f = match opt_view(from) {
                Some(s) => flexible_instant(s),
                None => Some(t->0 - max * day_nanos()),
            };
            &&& r is Ok <==> ok is Some
            &&& r matches Ok(p) ==> ok == Some((p.0 as int, p.1 as int))
            &&& (opt_view(to) is Some && t is None) ==> (r matches Err(e) && is_bad_request(
                e,
                "to"@,
                date_param_message("to"@, opt_view(to)->0),
            ))
            &&& (t is Some && opt_view(from) is Some && f is None) ==> (r matches Err(e)
                && is_bad_request(e, "from"@, date_param_message("from"@, opt_view(from)->0)))
            &&& (t is Some && f is Some && f->0 >= t->0) ==> (r matches Err(e) && is_bad_request(
                e,
                "from"@,
                "'from' must be strictly before 'to'"@,
            ))
            &&& (t is Some && f is Some && f->0 < t->0 && t->0 - f->0 > max * day_nanos()) ==> (r matches Err(
                e,
            ) && e matches ApiError::BadRequest { message, details: ErrorDetails::MaxDays(m) }
                && e->message@ == "date range exceeds the maximum of "@ + signed_decimal_text(max)
                + " days"@ && e->details->MaxDays_0 == limits.max_date_range_days)
        }),
{
    let max = limits.max_date_range_days;
    let m = max as i128;
    assert(-10_000_000_000_000_000_000_000_000 <= m * 86_400_000_000_000 <= 10_000_000_000_000_000_000_000_000) by (nonlinear_arith)
        requires
            -106_751_991_167 <= m <= 106_751_991_167,
    ;
    let span: i128 = m * 86_400_000_000_000;
    let to_ns = match to {
        Some(s) => parse_flexible_datetime(s, "to")?,
        None => now_ns,
    };
    let from_ns = match from {
        Some(s) => parse_flexible_datetime(s, "from")?,
        None => to_ns - span,
    };
    if from_ns >= to_ns {
        return Err(ApiError::bad_request("from", owned("'from' must be strictly before 'to'")));
    }
    if to_ns - from_ns > span {
        let mut m = owned("date range exceeds the maximum of ");
        push_decimal_i64(&mut m, max);
        m.append(" days");
        return Err(ApiError::BadRequest { message: m, details: ErrorDetails::MaxDays(max) });
    }
    Ok((from_ns, to_ns))
}

/// The instants (nanoseconds since the epoch) a request's date range
/// names, with `now` as the clock. Only a request without `to` reads the
/// clock; when the clock reads an instant outside the calendar the request
/// fails as internal.
pub fn parse_date_range(from: Option<&str>, to: Option<&str>, limits: &ApiLimits) -> (r: Result<(i128, i128), ApiError>)
    requires
        -max_range_days_bound() <= limits.max_date_range_days <= max_range_days_bound(),
    ensures
        to is Some ==> (r is Ok <==> date_range_ok(
            opt_view(from),
            opt_view(to),
            limits.max_date_range_days as int,
            0,
        ) is Some),
        to is Some ==> (r matches Ok(p) ==> date_range_ok(
            opt_view(from),
            opt_view(to),
            limits.max_date_range_days as int,
            0,
        ) == Some((p.0 as int, p.1 as int))),
        r matches Ok(p) ==> p.0 < p.1 && p.1 - p.0 <= limits.max_date_range_days * day_nanos(),
{
    let (secs, nanos) = match to {
        Some(_) => (0i64, 0u32),
        None => now_parts(),
    };
    if secs < -8_640_000_000_000 || secs > 8_640_000_000_000 || nanos >= 2_000_000_000 {
        return Err(ApiError::Internal(owned("clock reads an instant outside the calendar")));
    }
    let s = secs as i128;
    assert(-8_640_000_000_000_000_000_000 <= s * 1_000_000_000 <= 8_640_000_000_000_000_000_000) by (nonlinear_arith)
        requires
            -8_640_000_000_000 <= s <= 8_640_000_000_000,
    ;
    let now: i128 = s * 1_000_000_000 + nanos as i128;
    let r = parse_date_range_at(from, to, limits, now);
    proof {
        if let Ok(p) = r {
            lemma_date_range_bounds(opt_view(from), opt_view(to), limits.max_date_range_days as int, now as int);
        }
    }
    r
}

/// An accepted date range starts strictly before it ends and is no wider
/// than the limit.
pub proof fn lemma_date_range_bounds(from: Option<Seq<char>>, to: Option<Seq<char>>, max_days: int, now: int)
    requires
        date_range_ok(from, to, max_days, now) is Some,
    ensures
        ({
            let (f, t) = date_range_ok(from, to, max_days, now)->0;
            f < t && t - f <= max_days * day_nanos()
        }),
{
}

/// A live-stream client from another origin than the one the API serves is
/// refused; a client that sends no `Origin` is let through.
pub fn check_origin(origin: Option<&str>, allowed: &str) -> (r: Result<(), ApiError>)
    ensures
        r is Ok <==> (origin matches Some(o) ==> o@ == allowed@),
        r matches Err(e) ==> is_bad_request(
            e,
            "origin"@,
            "websocket connections from this origin are not allowed"@,
        ),
{
    match origin {
        None => Ok(()),
        Some(o) => {
            if crate::interval::text_eq(o, allowed) {
                Ok(())
            } else {
                Err(
                    ApiError::bad_request(
                        "origin",
                        owned("websocket connections from this origin are not allowed"),
                    ),
                )
            }
        },
    }
}

/// Whether a text holds anything.
pub open spec fn non_blank() -> spec_fn(Seq<char>) -> bool {
    |t: Seq<char>| t.len() > 0
}

/// Trims a text.
pub open spec fn trim_fn() -> spec_fn(Seq<char>) -> Seq<char> {
    |t: Seq<char>| crate::text::trimmed(t)
}

/// The symbols a comma-separated list names: its pieces, trimmed, without
/// the empty ones.
pub open spec fn listed_symbols(raw: Seq<char>) -> Seq<Seq<char>> {
    crate::text::split_on(raw, ',').map_values(trim_fn()).filter(non_blank())
}

/// The symbols a correlation request names: at least 2, at most `max`.
pub fn correlation_symbols(raw: &str, max: usize) -> (r: Result<Vec<String>, ApiError>)
    ensures
        ({
            let n = listed_symbols(raw@).len();
            &&& r is Ok <==> 2 <= n <= max
            &&& r matches Ok(v) ==> crate::paths::names_view(v@) == listed_symbols(raw@)
            &&& n < 2 ==> (r matches Err(e) && is_bad_request(
                e,
                "symbols"@,
                "need at least 2 comma-separated symbols"@,
            ))
            &&& (n >= 2 && n > max) ==> (r matches Err(e) && is_bad_request(
                e,
                "symbols"@,
                "at most "@ + decimal_text(max as nat) + " symbols allowed, got "@ + decimal_text(n),
            ))
        }),
{
    let chars = crate::text::chars_of(raw);
    let pieces = crate::text::split_chars(&chars, ',');
    let ghost parts = crate::text::split_on(raw@, ',');
    let mut out: Vec<String> = Vec::new();
    for i in 0..pieces.len()
        invariant
            chars@ == raw@,
            parts == crate::text::split_on(raw@, ','),
            pieces@.len() == parts.len(),
            forall|j: int| 0 <= j < pieces@.len() ==> (#[trigger] pieces@[j])@ == parts[j],
            crate::paths::names_view(out@) == parts.subrange(0, i as int).map_values(trim_fn()).filter(non_blank()),
    {
        let t = crate::text::trim_chars(&pieces[i]);
        proof {
            let pre = parts.subrange(0, i + 1).map_values(trim_fn());
            assert(pre == parts.subrange(0, i as int).map_values(trim_fn()).push(crate::text::trimmed(parts[i as int])));
            parts.subrange(0, i as int).map_values(trim_fn()).lemma_filter_push(crate::text::trimmed(parts[i as int]), non_blank());
        }
        if t.len() > 0 {
            let ghost before = crate::paths::names_view(out@);
            out.push(crate::text::string_from_chars(t.as_slice()));
            proof {
                assert(crate::paths::names_view(out@) == before.push(t@));
            }
        }
    }
    proof {
        assert(parts.subrange(0, pieces@.len() as int) == parts);
    }
    let n = out.len();
    if n < 2 {
        return Err(ApiError::bad_request("symbols", owned("need at least 2 comma-separated symbols")));
    }
    if n > max {
        let mut m = owned("at most ");
        push_decimal_u64(&mut m, max as u64);
        m.append(" symbols allowed, got ");
        push_decimal_u64(&mut m, n as u64);
        return Err(ApiError::bad_request("symbols", m));
    }
    Ok(out)
}

/// A symbol named in a request path or list, checked for its form; whether
/// the registry knows it is the caller's question.
pub fn symbol_param(raw: &str) -> (r: Result<crate::symbol::Symbol, ApiError>)
    ensures
        r is Ok <==> crate::symbol::is_valid_symbol(raw@),
        r matches Ok(s) ==> s@ == raw@,
        r matches Err(e) ==> is_bad_request(e, "symbol"@, crate::error::invalid_symbol_message(raw@)),
{
    match crate::symbol::Symbol::new(raw) {
        Ok(s) => Ok(s),
        Err(e) => Err(ApiError::bad_request("symbol", e.message())),
    }
}

/// The answer for a well-formed symbol the registry does not know.
pub fn unknown_symbol(raw: &str) -> (r: ApiError)
    ensures
        r matches ApiError::UnknownSymbol { symbol } && symbol@ == raw@,
{
    ApiError::UnknownSymbol { symbol: owned(raw) }
}

/// The media type of an Arrow IPC stream.
pub const ARROW_IPC_CONTENT_TYPE: &'static str = "application/vnd.apache.arrow.stream";

/// Whether a client asked for Arrow IPC: its `Accept` header (as text)
/// names the Arrow stream media type. No header, or one that is not text,
/// means JSON.
pub fn wants_arrow(accept: Option<&str>) -> (r: bool)
    ensures
        r == (accept matches Some(a) && crate::text::contains_text(a@, ARROW_IPC_CONTENT_TYPE@)),
{
    match accept {
        Some(a) => crate::text::contains_str(a, ARROW_IPC_CONTENT_TYPE),
        None => false,
    }
}

/// The label for an HTTP method: one of the standard methods the API
/// routes, anything else `other`.
pub open spec fn method_label(method: Seq<char>) -> Seq<char> {
    if method == "GET"@ || method == "POST"@ || method == "PUT"@ || method == "DELETE"@ || method
        == "PATCH"@ || method == "HEAD"@ || method == "OPTIONS"@ {
        method
    } else {
        "other"@
    }
}

/// The metrics label for a request's method.
pub fn normalize_method(method: &str) -> (r: &'static str)
    ensures
        r@ == method_label(method@),
{
    proof {
        reveal_strlit("GET");
        reveal_strlit("POST");
        reveal_strlit("PUT");
        reveal_strlit("DELETE");
        reveal_strlit("PATCH");
        reveal_strlit("HEAD");
        reveal_strlit("OPTIONS");
        reveal_strlit("other");
    }
    if crate::interval::text_eq(method, "GET") {
        "GET"
    } else if crate::interval::text_eq(method, "POST") {
        "POST"
    } else if crate::interval::text_eq(method, "PUT") {
        "PUT"
    } else if crate::interval::text_eq(method, "DELETE") {
        "DELETE"
    } else if crate::interval::text_eq(method, "PATCH") {
        "PATCH"
    } else if crate::interval::text_eq(method, "HEAD") {
        "HEAD"
    } else if crate::interval::text_eq(method, "OPTIONS") {
        "OPTIONS"
    } else {
        "other"
    }
}

/// Whether a response status counts as an error (4xx or 5xx).
pub fn is_error_status(status: u16) -> (r: bool)
    ensures
        r == (400 <= status <= 599),
{
    400 <= status && status <= 599
}

/// Query of `/analytics/{symbol}/vwap` and `/analytics/{symbol}/volatility`.
#[derive(Debug, Clone)]
pub struct WindowQuery {
    pub interval: Option<String>,
    pub window: Option<u32>,
    pub limit: Option<i64>,
    pub offset: Option<i64>,
}

/// Query of `/analytics/{symbol}/ofi`.
#[derive(Debug, Clone)]
pub struct OfiQuery {
    pub bucket: Option<i64>,
    pub from: Option<String>,
    pub to: Option<String>,
    pub limit: Option<i64>,
    pub offset: Option<i64>,
}

/// Query of `/analytics/correlation`: a comma-separated symbol list.
#[derive(Debug, Clone)]
pub struct CorrelationQuery {
    pub symbols: String,
    pub interval: Option<String>,
}

/// Query of `/ohlcv/{symbol}`.
#[derive(Debug, Clone)]
pub struct OhlcvQuery {
    pub interval: Option<String>,
    pub from: Option<String>,
    pub to: Option<String>,
    pub limit: Option<i64>,
    pub offset: Option<i64>,
}

/// Query of `/stream/{symbol}`.
#[derive(Debug, Clone)]
pub struct StreamQuery {
    pub interval: Option<String>,
}

/// One instrument as `/symbols` lists it: the registry's record and whether
/// any data has been collected for its symbol.
#[derive(Debug, Clone)]
pub struct SymbolDto {
    pub exchange: String,
    pub symbol: String,
    pub base_asset: String,
    pub quote_asset: String,
    pub status: String,
    pub has_data: bool,
}

/// The texts of a listed instrument.
pub open spec fn dto_view(d: SymbolDto) -> (Seq<char>, Seq<char>, Seq<char>, Seq<char>, Seq<char>, bool) {
    (d.exchange@, d.symbol@, d.base_asset@, d.quote_asset@, d.status@, d.has_data)
}

/// The registry's records as `/symbols` lists them, in registry order, each
/// marked with whether its symbol is among `with_data`.
pub fn symbol_dtos(records: Vec<crate::meta::SymbolRecord>, with_data: &Vec<String>) -> (r: Vec<SymbolDto>)
    ensures
        r@.len() == records@.len(),
        forall|i: int| 0 <= i < r@.len() ==> #[trigger] dto_view(r@[i]) == (
            records@[i].exchange@,
            records@[i].symbol@,
            records@[i].base_asset@,
            records@[i].quote_asset@,
            records@[i].status@,
            crate::paths::names_view(with_data@).contains(records@[i].symbol@),
        ),
{
    let mut out: Vec<SymbolDto> = Vec::new();
    for i in 0..records.len()
        invariant
            out@.len() == i,
            forall|j: int| 0 <= j < i ==> #[trigger] dto_view(out@[j]) == (
                records@[j].exchange@,
                records@[j].symbol@,
                records@[j].base_asset@,
                records@[j].quote_asset@,
                records@[j].status@,
                crate::paths::names_view(with_data@).contains(records@[j].symbol@),
            ),
    {
        let rec = &records[i];
        let mut has = false;
        for k in 0..with_data.len()
            invariant
                has == exists|j: int| 0 <= j < k && with_data@[j]@ == rec.symbol@,
        {
            if with_data[k] == rec.symbol {
                has = true;
            }
        }
        proof {
            let v = crate::paths::names_view(with_data@);
            if has {
                let j = choose|j: int| 0 <= j < with_data@.len() && with_data@[j]@ == rec.symbol@;
                assert(v[j] == rec.symbol@);
            } else {
                if v.contains(rec.symbol@) {
                    let j = choose|j: int| 0 <= j < v.len() && v[j] == rec.symbol@;
                    assert(with_data@[j]@ == v[j]);
                }
            }
        }
        out.push(
            SymbolDto {
                exchange: rec.exchange.clone(),
                symbol: rec.symbol.clone(),
                base_asset: rec.base_asset.clone(),
                quote_asset: rec.quote_asset.clone(),
                status: rec.status.clone(),
                has_data: has,
            },
        );
    }
    out
}

/// The text a live-stream client is sent as a heartbeat.
pub const HEARTBEAT_TEXT: &'static str = "{\"type\":\"heartbeat\"}";

/// Seconds between heartbeats on a live stream.
pub const HEARTBEAT_INTERVAL_SECS: u64 = 20;

/// What happened on a live-stream client's connection.
#[derive(Debug, Clone, Copy, PartialEq, Eq)]
pub enum SocketEvent {
    /// The client sent a frame.
    ClientFrame,
    /// The client closed the connection or the read failed.
    ClientGone,
    /// The upstream subscription delivered a market event.
    UpstreamEvent,
    /// The upstream subscription reported an error.
    UpstreamError,
    /// The upstream subscription ended.
    UpstreamEnded,
    /// The heartbeat timer fired.
    HeartbeatDue,
}

/// What the proxy does next.
#[derive(Debug, Clone, Copy, PartialEq, Eq)]
pub enum SocketAction {
    /// Nothing; keep serving.
    Continue,
    /// Send the event to the client as JSON.
    Forward,
    /// Log the upstream error; keep serving.
    LogAndContinue,
    /// Send the heartbeat text.
    SendHeartbeat,
    /// Stop serving this client.
    Close,
}

/// The proxy's decision for each thing that can happen on a connection:
/// client frames are ignored, a gone client or an ended upstream closes,
/// events are forwarded, upstream errors are logged, and the heartbeat is
/// sent when due.
pub fn socket_step(event: SocketEvent) -> (r: SocketAction)
    ensures
        r == (match event {
            SocketEvent::ClientFrame => SocketAction::Continue,
            SocketEvent::ClientGone => SocketAction::Close,
            SocketEvent::UpstreamEvent => SocketAction::Forward,
            SocketEvent::UpstreamError => SocketAction::LogAndContinue,
            SocketEvent::UpstreamEnded => SocketAction::Close,
            SocketEvent::HeartbeatDue => SocketAction::SendHeartbeat,
        }),
{
    match event {
        SocketEvent::ClientFrame => SocketAction::Continue,
        SocketEvent::ClientGone => SocketAction::Close,
        SocketEvent::UpstreamEvent => SocketAction::Forward,
        SocketEvent::UpstreamError => SocketAction::LogAndContinue,
        SocketEvent::UpstreamEnded => SocketAction::Close,
        SocketEvent::HeartbeatDue => SocketAction::SendHeartbeat,
    }
}

/// The streams a live client of `interval` is proxied: trades and klines.
pub fn client_stream_kinds(interval: Interval) -> (r: Vec<crate::model::StreamKind>)
    ensures
        r@ == seq![crate::model::StreamKind::Trade, crate::model::StreamKind::Kline(interval)],
{
    let mut v: Vec<crate::model::StreamKind> = Vec::new();
    v.push(crate::model::StreamKind::Trade);
    v.push(crate::model::StreamKind::Kline(interval));
    v
}

} // verus!
