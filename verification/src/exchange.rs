//! The exchange client's decisions: request pacing and backoff, what to do
//! with each HTTP status, REST pagination, combined-stream names, instrument
//! filtering, and the reconnect-with-gap-fill state of the live stream.
use vstd::prelude::*;

use crate::error::{exchange_error_message, ExchangeError};
use crate::interval::{interval_text, Interval};
use crate::model::{event_instant, event_time, Instrument, MarketEvent, StreamKind};
use crate::symbol::{is_valid_symbol, Symbol};
use crate::text::{chars_of, owned, push_char};

verus! {

/// The exchange id under which data from Binance Spot is stored.
pub const EXCHANGE_ID: &'static str = "binance";

/// The exchange's own cap on `limit` for its paged REST endpoints.
pub const REST_PAGE_LIMIT: u32 = 1000;

/// Exponential backoff parameters for HTTP 429: base 1 s, factor 2, capped
/// at 60 s, up to 5 attempts. Durations are in milliseconds.
#[derive(Debug, Clone, Copy, PartialEq, Eq)]
pub struct BackoffConfig {
    pub base_ms: u64,
    pub multiplier: u32,
    pub max_ms: u64,
    pub max_attempts: u32,
}

impl BackoffConfig {
    /// Base 1 s, factor 2, cap 60 s, 5 attempts.
    pub fn default() -> (r: BackoffConfig)
        ensures
            r.base_ms == 1000 && r.multiplier == 2 && r.max_ms == 60_000 && r.max_attempts == 5,
    {
        BackoffConfig { base_ms: 1000, multiplier: 2, max_ms: 60_000, max_attempts: 5 }
    }
}

pub open spec fn pow(b: nat, e: nat) -> nat
    decreases e,
{
    if e == 0 {
        1
    } else {
        b * pow(b, (e - 1) as nat)
    }
}

pub open spec fn min(a: int, b: int) -> int {
    if a <= b {
        a
    } else {
        b
    }
}

/// `u32::saturating_pow`.
pub open spec fn saturating_pow_u32(b: nat, e: nat) -> nat {
    min(pow(b, e) as int, u32::MAX as int) as nat
}

/// The delay before retry number `attempt` (1-based), in milliseconds:
/// `base * multiplier^(attempt-1)`, with the power saturating at `u32::MAX`,
/// capped at `max`.
pub open spec fn backoff_delay_spec(cfg: BackoffConfig, attempt: nat) -> nat {
    let e: nat = if attempt == 0 {
        0
    } else {
        (attempt - 1) as nat
    };
    min(cfg.base_ms * saturating_pow_u32(cfg.multiplier as nat, e) as int, cfg.max_ms as int) as nat
}

proof fn lemma_pow_monotone_exp(b: nat, e1: nat, e2: nat)
    requires
        b >= 1,
        e1 <= e2,
    ensures
        pow(b, e1) <= pow(b, e2),
        pow(b, e1) >= 1,
    decreases e2,
{
    if e1 == e2 {
        lemma_pow_positive(b, e2);
    } else {
        lemma_pow_monotone_exp(b, e1, (e2 - 1) as nat);
        lemma_pow_positive(b, (e2 - 1) as nat);
        assert(b * pow(b, (e2 - 1) as nat) >= pow(b, (e2 - 1) as nat)) by (nonlinear_arith)
            requires
                b >= 1,
        ;
    }
}

proof fn lemma_pow_positive(b: nat, e: nat)
    requires
        b >= 1,
    ensures
        pow(b, e) >= 1,
    decreases e,
{
    if e > 0 {
        lemma_pow_positive(b, (e - 1) as nat);
        assert(b * pow(b, (e - 1) as nat) >= 1) by (nonlinear_arith)
            requires
                b >= 1,
                pow(b, (e - 1) as nat) >= 1,
        ;
    }
}

/// `b^e`, saturating at `u32::MAX` (std `u32::saturating_pow`).
pub fn saturating_pow(b: u32, e: u32) -> (r: u32)
    ensures
        r == saturating_pow_u32(b as nat, e as nat),
{
    if b == 0 {
        if e == 0 {
            return 1;
        }
        proof {
            assert(pow(0, e as nat) == 0 * pow(0, (e - 1) as nat));
        }
        return 0;
    }
    if b == 1 {
        proof {
            lemma_pow_one(e as nat);
        }
        return 1;
    }
    let mut acc: u32 = 1;
    let mut i: u32 = 0;
    while i < e
        invariant
            b >= 2,
            i <= e,
            acc == pow(b as nat, i as nat),
        decreases e - i,
    {
        proof {
            assert(pow(b as nat, (i + 1) as nat) == b * pow(b as nat, i as nat));
        }
        match acc.checked_mul(b) {
            Some(v) => {
                proof {
                    assert(v == b * acc) by (nonlinear_arith)
                        requires
                            v == acc * b,
                    ;
                }
                acc = v;
            },
            None => {
                proof {
                    lemma_pow_monotone_exp(b as nat, (i + 1) as nat, e as nat);
                    assert(b * acc > u32::MAX) by (nonlinear_arith)
                        requires
                            acc * b > u32::MAX,
                    ;
                }
                return u32::MAX;
            },
        }
        i = i + 1;
    }
    acc
}

proof fn lemma_pow_one(e: nat)
    ensures
        pow(1, e) == 1,
    decreases e,
{
    if e > 0 {
        lemma_pow_one((e - 1) as nat);
    }
}

/// The delay before retry number `attempt` (1-based), in milliseconds: see
/// `backoff_delay_spec`.
pub fn backoff_delay(cfg: &BackoffConfig, attempt: u32) -> (r: u64)
    ensures
        r == backoff_delay_spec(*cfg, attempt as nat),
        r <= cfg.max_ms,
{
    let e: u32 = if attempt == 0 {
        0
    } else {
        attempt - 1
    };
    let factor = saturating_pow(cfg.multiplier, e);
    proof {
        let b = cfg.base_ms as int;
        let f = factor as int;
        assert(b * f <= 0xffff_ffff_ffff_ffff * 0xffff_ffff) by (nonlinear_arith)
            requires
                0 <= b <= 0xffff_ffff_ffff_ffff,
                0 <= f <= 0xffff_ffff,
        ;
    }
    let millis: u128 = (cfg.base_ms as u128) * (factor as u128);
    let capped: u128 = if millis <= cfg.max_ms as u128 {
        millis
    } else {
        cfg.max_ms as u128
    };
    capped as u64
}

/// The delay never exceeds the cap.
pub proof fn lemma_backoff_capped(cfg: BackoffConfig, attempt: nat)
    ensures
        backoff_delay_spec(cfg, attempt) <= cfg.max_ms,
{
}

/// A later retry never waits less than an earlier one (for a multiplier of
/// at least 1).
pub proof fn lemma_backoff_monotone(cfg: BackoffConfig, a: nat, b: nat)
    requires
        a <= b,
        cfg.multiplier >= 1,
    ensures
        backoff_delay_spec(cfg, a) <= backoff_delay_spec(cfg, b),
{
    let ea: nat = if a == 0 {
        0
    } else {
        (a - 1) as nat
    };
    let eb: nat = if b == 0 {
        0
    } else {
        (b - 1) as nat
    };
    lemma_pow_monotone_exp(cfg.multiplier as nat, ea, eb);
    let fa = saturating_pow_u32(cfg.multiplier as nat, ea);
    let fb = saturating_pow_u32(cfg.multiplier as nat, eb);
    assert(fa <= fb);
    assert(cfg.base_ms * fa <= cfg.base_ms * fb) by (nonlinear_arith)
        requires
            fa <= fb,
    ;
}

/// How long to wait before the next attempt.
#[derive(Debug, Clone, Copy, PartialEq, Eq, Structural)]
pub enum Delay {
    Secs(u64),
    Millis(u64),
}

/// What to do with the response to one REST attempt.
#[derive(Debug, Clone, Copy, PartialEq, Eq, Structural)]
pub enum RetryDecision {
    /// HTTP 200: hand the response on.
    Accept,
    /// Sleep, then try again.
    Retry(Delay),
    /// HTTP 429 on the last allowed attempt.
    RateLimited { attempts: u32 },
    /// HTTP 418 on the last allowed attempt.
    Banned { retry_after_secs: u64 },
    /// Any other status: fail with the response body.
    Unexpected { status: u16 },
}

/// The rules for one attempt's HTTP status: 200 is accepted; 429 waits for
/// `Retry-After` (seconds) or else the backoff delay, until the attempts
/// run out; 418 waits for `Retry-After` or else the backoff cap, until the
/// attempts run out; anything else fails.
pub open spec fn retry_decision_spec(
    cfg: BackoffConfig,
    attempt: u32,
    status: u16,
    retry_after_secs: Option<u64>,
) -> RetryDecision {
    if status == 200 {
        RetryDecision::Accept
    } else if status == 429 {
        if attempt >= cfg.max_attempts {
            RetryDecision::RateLimited { attempts: attempt }
        } else {
            match retry_after_secs {
                Some(s) => RetryDecision::Retry(Delay::Secs(s)),
                None => RetryDecision::Retry(
                    Delay::Millis(backoff_delay_spec(cfg, attempt as nat) as u64),
                ),
            }
        }
    } else if status == 418 {
        if attempt >= cfg.max_attempts {
            RetryDecision::Banned {
                retry_after_secs: match retry_after_secs {
                    Some(s) => s,
                    None => (cfg.max_ms / 1000) as u64,
                },
            }
        } else {
            match retry_after_secs {
                Some(s) => RetryDecision::Retry(Delay::Secs(s)),
                None => RetryDecision::Retry(Delay::Millis(cfg.max_ms)),
            }
        }
    } else {
        RetryDecision::Unexpected { status }
    }
}

/// An IP ban (418) before the last attempt waits for `Retry-After` when
/// given and otherwise for the backoff cap; a rate limit (429) waits for
/// `Retry-After` or the backoff delay of the attempt; on the last attempt
/// both give up; 200 is accepted and any other status is unexpected.
pub proof fn lemma_retry_rules(cfg: BackoffConfig, attempt: u32, retry_after_secs: Option<u64>)
    ensures
        retry_decision_spec(cfg, attempt, 200, retry_after_secs) == RetryDecision::Accept,
        attempt < cfg.max_attempts ==> retry_decision_spec(cfg, attempt, 418, None) == RetryDecision::Retry(
            Delay::Millis(cfg.max_ms),
        ),
        attempt < cfg.max_attempts ==> retry_decision_spec(cfg, attempt, 429, None) == RetryDecision::Retry(
            Delay::Millis(backoff_delay_spec(cfg, attempt as nat) as u64),
        ),
        forall|s: u64|
            attempt < cfg.max_attempts ==> #[trigger] retry_decision_spec(cfg, attempt, 418, Some(s))
                == RetryDecision::Retry(Delay::Secs(s)) && retry_decision_spec(cfg, attempt, 429, Some(s))
                == RetryDecision::Retry(Delay::Secs(s)),
        attempt >= cfg.max_attempts ==> retry_decision_spec(cfg, attempt, 429, retry_after_secs)
            == (RetryDecision::RateLimited { attempts: attempt }),
        attempt >= cfg.max_attempts ==> retry_decision_spec(cfg, attempt, 418, None) == (RetryDecision::Banned {
            retry_after_secs: cfg.max_ms / 1000,
        }),
        forall|status: u16|
            status != 200 && status != 418 && status != 429 ==> #[trigger] retry_decision_spec(
                cfg,
                attempt,
                status,
                retry_after_secs,
            ) == (RetryDecision::Unexpected { status }),
{
}

/// Decides what to do with the response to attempt number `attempt`
/// (1-based): see `retry_decision_spec`.
pub fn retry_decision(
    cfg: &BackoffConfig,
    attempt: u32,
    status: u16,
    retry_after_secs: Option<u64>,
) -> (r: RetryDecision)
    ensures
        r == retry_decision_spec(*cfg, attempt, status, retry_after_secs),
        status == 200 ==> r == RetryDecision::Accept,
        status == 429 && attempt >= cfg.max_attempts ==> r == (RetryDecision::RateLimited { attempts: attempt }),
        status == 429 && attempt < cfg.max_attempts ==> r == RetryDecision::Retry(
            match retry_after_secs {
                Some(s) => Delay::Secs(s),
                None => Delay::Millis(backoff_delay_spec(*cfg, attempt as nat) as u64),
            },
        ),
        status == 418 && attempt >= cfg.max_attempts ==> r == (RetryDecision::Banned {
            retry_after_secs: match retry_after_secs {
                Some(s) => s,
                None => cfg.max_ms / 1000,
            },
        }),
        status == 418 && attempt < cfg.max_attempts ==> r == RetryDecision::Retry(
            match retry_after_secs {
                Some(s) => Delay::Secs(s),
                None => Delay::Millis(cfg.max_ms),
            },
        ),
        status != 200 && status != 429 && status != 418 ==> r == (RetryDecision::Unexpected { status }),
{
    if status == 200 {
        RetryDecision::Accept
    } else if status == 429 {
        if attempt >= cfg.max_attempts {
            RetryDecision::RateLimited { attempts: attempt }
        } else {
            match retry_after_secs {
                Some(s) => RetryDecision::Retry(Delay::Secs(s)),
                None => RetryDecision::Retry(Delay::Millis(backoff_delay(cfg, attempt))),
            }
        }
    } else if status == 418 {
        if attempt >= cfg.max_attempts {
            RetryDecision::Banned {
                retry_after_secs: match retry_after_secs {
                    Some(s) => s,
                    None => cfg.max_ms / 1000,
                },
            }
        } else {
            match retry_after_secs {
                Some(s) => RetryDecision::Retry(Delay::Secs(s)),
                None => RetryDecision::Retry(Delay::Millis(cfg.max_ms)),
            }
        }
    } else {
        RetryDecision::Unexpected { status }
    }
}

/// The error a final decision reports (`body` is the response text of an
/// unexpected status).
pub fn decision_error(decision: RetryDecision, body: String) -> (r: Option<ExchangeError>)
    ensures
        match decision {
            RetryDecision::RateLimited { attempts } => r matches Some(
                ExchangeError::RateLimited { attempts: a },
            ) && a == attempts,
            RetryDecision::Banned { retry_after_secs } => r matches Some(
                ExchangeError::Banned { retry_after_secs: s },
            ) && s == retry_after_secs,
            RetryDecision::Unexpected { status } => r matches Some(
                ExchangeError::UnexpectedStatus { status: st, body: b },
            ) && st == status && b@ == body@,
            _ => r is None,
        },
{
    match decision {
        RetryDecision::RateLimited { attempts } => Some(ExchangeError::RateLimited { attempts }),
        RetryDecision::Banned { retry_after_secs } => Some(
            ExchangeError::Banned { retry_after_secs },
        ),
        RetryDecision::Unexpected { status } => Some(
            ExchangeError::UnexpectedStatus { status, body },
        ),
        _ => None,
    }
}

/// The value of a `Retry-After` header, in seconds, when it is a plain
/// unsigned integer.
pub fn parse_retry_after(header: Option<&str>) -> (r: Option<u64>)
    ensures
        match header {
            None => r is None,
            Some(h) => r == (match crate::text::parse_unsigned_spec(h@, u64::MAX as nat) {
                Some(v) => Some(v as u64),
                None => None::<u64>,
            }),
        },
{
    match header {
        None => None,
        Some(h) => crate::text::parse_u64(h),
    }
}

/// Where a paged REST listing continues: after a full page, one
/// millisecond past the last item's time; after a short or empty page (or
/// at the end of the time line), nowhere.
pub open spec fn next_page_cursor_spec(page_len: nat, last_time: i64) -> Option<i64> {
    if page_len == 0 || page_len < REST_PAGE_LIMIT || last_time == i64::MAX {
        None
    } else {
        Some((last_time + 1) as i64)
    }
}

/// A full page is followed by the page starting one millisecond after its
/// last item, so no item is fetched twice and none is skipped; a short or
/// empty page ends the listing.
pub proof fn lemma_paging(page_len: nat, last_time: i64)
    ensures
        page_len >= REST_PAGE_LIMIT && last_time < i64::MAX ==> next_page_cursor_spec(page_len, last_time) == Some(
            (last_time + 1) as i64,
        ) && next_page_cursor_spec(page_len, last_time)->Some_0 > last_time,
        page_len < REST_PAGE_LIMIT ==> next_page_cursor_spec(page_len, last_time) is None,
{
}

/// Where a paged REST listing continues: see `next_page_cursor_spec`.
pub fn next_page_cursor(page_len: usize, last_time: i64) -> (r: Option<i64>)
    ensures
        r == next_page_cursor_spec(page_len as nat, last_time),
{
    if page_len == 0 || page_len < REST_PAGE_LIMIT as usize || last_time == i64::MAX {
        None
    } else {
        Some(last_time + 1)
    }
}

/// Binance Spot connection settings.
#[derive(Debug, Clone)]
pub struct BinanceConfig {
    pub base_url: String,
    pub ws_base_url: String,
    pub requests_per_second: u32,
    pub backoff: BackoffConfig,
}

impl BinanceConfig {
    /// The public endpoints, 5 requests per second, default backoff.
    pub fn default() -> (r: BinanceConfig)
        ensures
            r.base_url@ == "https://api.binance.com"@,
            r.ws_base_url@ == "wss://stream.binance.com:9443"@,
            r.requests_per_second == 5,
            r.backoff == BackoffConfig::default_spec(),
    {
        BinanceConfig {
            base_url: owned("https://api.binance.com"),
            ws_base_url: owned("wss://stream.binance.com:9443"),
            requests_per_second: 5,
            backoff: BackoffConfig::default(),
        }
    }
}

impl BackoffConfig {
    pub open spec fn default_spec() -> BackoffConfig {
        BackoffConfig { base_ms: 1000, multiplier: 2, max_ms: 60_000, max_attempts: 5 }
    }
}

pub open spec fn lower_char(c: char) -> char {
    if 'A' <= c && c <= 'Z' {
        ((c as int + 32) as u8) as char
    } else {
        c
    }
}

/// ASCII lowercase (std `to_lowercase` on the symbol alphabet).
pub open spec fn ascii_lower(s: Seq<char>) -> Seq<char> {
    s.map_values(|c: char| lower_char(c))
}

/// The stream-name suffix of a stream kind.
pub open spec fn stream_suffix(kind: StreamKind) -> Seq<char> {
    match kind {
        StreamKind::Trade => "trade"@,
        StreamKind::Kline(i) => "kline_"@ + interval_text(i),
        StreamKind::Depth => "depth"@,
    }
}

/// The combined-stream name of one symbol and kind, e.g. `btcusdt@trade`.
pub open spec fn stream_name(symbol: Seq<char>, kind: StreamKind) -> Seq<char> {
    ascii_lower(symbol) + "@"@ + stream_suffix(kind)
}

/// A symbol's stream names are its lower-cased text, `@`, and `trade`,
/// `kline_` with the interval's text, or `depth`; different kinds give
/// different names.
pub proof fn lemma_stream_name_kinds(symbol: Seq<char>, i: Interval, j: Interval)
    ensures
        stream_name(symbol, StreamKind::Trade) == ascii_lower(symbol) + "@trade"@,
        stream_name(symbol, StreamKind::Kline(i)) == ascii_lower(symbol) + "@kline_"@ + interval_text(i),
        stream_name(symbol, StreamKind::Depth) == ascii_lower(symbol) + "@depth"@,
        stream_name(symbol, StreamKind::Trade) != stream_name(symbol, StreamKind::Depth),
        stream_name(symbol, StreamKind::Trade) != stream_name(symbol, StreamKind::Kline(i)),
        i != j ==> stream_name(symbol, StreamKind::Kline(i)) != stream_name(symbol, StreamKind::Kline(j)),
{
    reveal_strlit("@");
    reveal_strlit("trade");
    reveal_strlit("kline_");
    reveal_strlit("depth");
    reveal_strlit("@trade");
    reveal_strlit("@kline_");
    reveal_strlit("@depth");
    let p = ascii_lower(symbol) + "@"@;
    assert(p + "trade"@ =~= ascii_lower(symbol) + "@trade"@);
    assert(p + ("kline_"@ + interval_text(i)) =~= ascii_lower(symbol) + "@kline_"@ + interval_text(i));
    assert(p + "depth"@ =~= ascii_lower(symbol) + "@depth"@);
    let n = p.len() as int;
    assert((p + "trade"@)[n] == 't');
    assert((p + "depth"@)[n] == 'd');
    assert((p + ("kline_"@ + interval_text(i)))[n] == 'k');
    if i != j {
        let a = p + ("kline_"@ + interval_text(i));
        let b = p + ("kline_"@ + interval_text(j));
        if a == b {
            assert(a.subrange(n + 6, a.len() as int) =~= interval_text(i));
            assert(b.subrange(n + 6, b.len() as int) =~= interval_text(j));
            crate::interval::lemma_text_injective(i, j);
        }
    }
}

fn push_lowercase(s: &mut String, symbol: &str)
    ensures
        final(s)@ == old(s)@ + ascii_lower(symbol@),
{
    let chars = chars_of(symbol);
    let ghost start = s@;
    for i in 0..chars.len()
        invariant
            chars@ == symbol@,
            s@ == start + ascii_lower(chars@.subrange(0, i as int)),
    {
        let c = chars[i];
        let l = if 'A' <= c && c <= 'Z' {
            ((c as u8) + 32) as char
        } else {
            c
        };
        push_char(s, l);
        proof {
            assert(ascii_lower(chars@.subrange(0, i + 1)) =~= ascii_lower(
                chars@.subrange(0, i as int),
            ).push(lower_char(c)));
        }
    }
    proof {
        assert(chars@.subrange(0, chars@.len() as int) == chars@);
    }
}

fn stream_name_of(symbol: &Symbol, kind: StreamKind) -> (r: String)
    ensures
        r@ == stream_name(symbol@, kind),
{
    let mut s = String::new();
    push_lowercase(&mut s, symbol.as_str());
    s.append("@");
    match kind {
        StreamKind::Trade => s.append("trade"),
        StreamKind::Kline(i) => {
            s.append("kline_");
            s.append(i.as_str());
        },
        StreamKind::Depth => s.append("depth"),
    }
    s
}

/// The names of every (symbol, kind) stream, symbol-major: entry
/// `i * kinds + j` is the stream of symbol `i` and kind `j`.
pub fn stream_names(symbols: &Vec<Symbol>, streams: &Vec<StreamKind>) -> (r: Vec<String>)
    requires
        symbols@.len() * streams@.len() <= usize::MAX,
    ensures
        r@.len() == symbols@.len() * streams@.len(),
        forall|i: int, j: int|
            0 <= i < symbols@.len() && 0 <= j < streams@.len() ==> #[trigger] r@[i * streams@.len()
                + j]@ == stream_name(symbols@[i]@, #[trigger] streams@[j]),
{
    let n = streams.len();
    let mut names: Vec<String> = Vec::new();
    proof {
        assert(0 * n == 0);
    }
    for i in 0..symbols.len()
        invariant
            n == streams@.len(),
            names@.len() == i * n,
            symbols@.len() * n <= usize::MAX,
            forall|a: int, b: int|
                0 <= a < i && 0 <= b < n ==> #[trigger] names@[a * n + b]@ == stream_name(
                    symbols@[a]@,
                    #[trigger] streams@[b],
                ),
    {
        for j in 0..n
            invariant
                n == streams@.len(),
                i < symbols@.len(),
                names@.len() == i * n + j,
                forall|a: int, b: int|
                    0 <= a < i && 0 <= b < n ==> #[trigger] names@[a * n + b]@ == stream_name(
                        symbols@[a]@,
                        #[trigger] streams@[b],
                    ),
                forall|b: int|
                    0 <= b < j ==> #[trigger] names@[i * n + b]@ == stream_name(
                        symbols@[i as int]@,
                        streams@[b],
                    ),
        {
            let ghost before = names@;
            names.push(stream_name_of(&symbols[i], streams[j]));
            proof {
                assert forall|a: int, b: int| 0 <= a < i && 0 <= b < n implies #[trigger] names@[a
                    * n + b]@ == stream_name(symbols@[a]@, #[trigger] streams@[b]) by {
                    assert(a * n + b < i * n) by (nonlinear_arith)
                        requires
                            0 <= a < i,
                            0 <= b < n,
                    ;
                    assert(names@[a * n + b] == before[a * n + b]);
                }
            }
        }
        proof {
            assert((i + 1) * n == i * n + n) by (nonlinear_arith);
            assert forall|a: int, b: int| 0 <= a < i + 1 && 0 <= b < n implies #[trigger] names@[a
                * n + b]@ == stream_name(symbols@[a]@, #[trigger] streams@[b]) by {
                if a == i {
                } else {
                }
            }
        }
    }
    names
}

/// `parts` joined with `sep` between consecutive entries.
pub open spec fn joined(parts: Seq<Seq<char>>, sep: Seq<char>) -> Seq<char>
    decreases parts.len(),
{
    if parts.len() == 0 {
        Seq::empty()
    } else if parts.len() == 1 {
        parts[0]
    } else {
        joined(parts.drop_last(), sep) + sep + parts.last()
    }
}

/// Joins the texts of `parts` with `sep` between consecutive entries.
pub fn join(parts: &Vec<String>, sep: &str) -> (r: String)
    ensures
        r@ == joined(parts@.map_values(|p: String| p@), sep@),
{
    let ghost views = parts@.map_values(|p: String| p@);
    let mut s = String::new();
    for i in 0..parts.len()
        invariant
            views == parts@.map_values(|p: String| p@),
            s@ == joined(views.subrange(0, i as int), sep@),
    {
        proof {
            let pre = views.subrange(0, i + 1);
            assert(pre.drop_last() == views.subrange(0, i as int));
            assert(pre.last() == parts@[i as int]@);
        }
        if i > 0 {
            s.append(sep);
        }
        s.append(parts[i].as_str());
        proof {
            if i == 0 {
                assert(views.subrange(0, 0).len() == 0);
                assert(s@ == views.subrange(0, 1)[0]);
            }
        }
    }
    proof {
        assert(views.subrange(0, parts@.len() as int) == views);
    }
    s
}

/// The combined-stream URL: `{ws_base}/stream?streams=` and the names
/// joined with `/`.
pub fn stream_url(ws_base_url: &str, names: &Vec<String>) -> (r: String)
    ensures
        r@ == ws_base_url@ + "/stream?streams="@ + joined(names@.map_values(|p: String| p@), "/"@),
{
    let mut s = owned(ws_base_url);
    s.append("/stream?streams=");
    let j = join(names, "/");
    s.append(j.as_str());
    s
}

/// A listed instrument as the exchange sends it, before validation.
#[derive(Debug, Clone)]
pub struct RawSymbol {
    pub symbol: String,
    pub base_asset: String,
    pub quote_asset: String,
    pub status: String,
}

/// The texts of a listed instrument.
pub open spec fn raw_symbol_view(r: RawSymbol) -> (Seq<char>, Seq<char>, Seq<char>, Seq<char>) {
    (r.symbol@, r.base_asset@, r.quote_asset@, r.status@)
}

/// The texts of an instrument.
pub open spec fn instrument_view(i: Instrument) -> (Seq<char>, Seq<char>, Seq<char>, Seq<char>) {
    (i.symbol@, i.base_asset@, i.quote_asset@, i.status@)
}

/// The listed instruments whose symbol is valid, in listing order.
pub open spec fn valid_listing(raw: Seq<RawSymbol>) -> Seq<(Seq<char>, Seq<char>, Seq<char>, Seq<char>)> {
    raw.map_values(|r: RawSymbol| raw_symbol_view(r)).filter(
        |v: (Seq<char>, Seq<char>, Seq<char>, Seq<char>)| is_valid_symbol(v.0),
    )
}

/// Whether `ins` carries the fields of a listed entry whose symbol is
/// valid: the same symbol, base asset, quote asset and status.
pub open spec fn listed_with_fields(raw: Seq<RawSymbol>, ins: Instrument) -> bool {
    exists|j: int|
        0 <= j < raw.len() && is_valid_symbol(raw[j].symbol@) && #[trigger] raw[j].symbol@ == ins.symbol@
            && raw[j].base_asset@ == ins.base_asset@ && raw[j].quote_asset@ == ins.quote_asset@
            && raw[j].status@ == ins.status@
}

/// Whether the listed entry `r` is kept in `out` with its own fields.
pub open spec fn kept_with_fields(out: Seq<Instrument>, r: RawSymbol) -> bool {
    exists|i: int|
        0 <= i < out.len() && #[trigger] out[i].symbol@ == r.symbol@ && out[i].base_asset@ == r.base_asset@
            && out[i].quote_asset@ == r.quote_asset@ && out[i].status@ == r.status@
}

/// Where a kept instrument comes from: a listed entry with a valid symbol
/// and the same fields.
proof fn lemma_listing_source(raw: Seq<RawSymbol>, out: Seq<Instrument>, i: int)
    requires
        out.map_values(|i: Instrument| instrument_view(i)) == valid_listing(raw),
        0 <= i < out.len(),
    ensures
        listed_with_fields(raw, out[i]),
{
    let pred = |v: (Seq<char>, Seq<char>, Seq<char>, Seq<char>)| is_valid_symbol(v.0);
    let f = |r: RawSymbol| raw_symbol_view(r);
    let mapped = raw.map_values(f);
    let kept = mapped.filter(pred);
    assert(kept == valid_listing(raw));
    let v = kept[i];
    assert(out.map_values(|i: Instrument| instrument_view(i))[i] == instrument_view(out[i]));
    mapped.lemma_filter_pred(pred, i);
    assert(kept.contains(v));
    mapped.lemma_filter_contains_rev(pred, v);
    let j = choose|j: int| 0 <= j < mapped.len() && mapped[j] == v;
    assert(mapped[j] == raw_symbol_view(raw[j]));
    assert(raw[j].symbol@ == out[i].symbol@);
}

/// The registry keeps each listed instrument whose symbol is valid, with
/// the listing's own symbol, base asset, quote asset and status (never
/// exchanged with one another), and keeps nothing else.
pub proof fn lemma_listing_keeps_fields(raw: Seq<RawSymbol>, out: Seq<Instrument>)
    requires
        out.map_values(|i: Instrument| instrument_view(i)) == valid_listing(raw),
    ensures
        forall|i: int| 0 <= i < out.len() ==> listed_with_fields(raw, #[trigger] out[i]),
        forall|j: int| 0 <= j < raw.len() && is_valid_symbol(raw[j].symbol@) ==> kept_with_fields(out, #[trigger] raw[j]),
{
    let pred = |v: (Seq<char>, Seq<char>, Seq<char>, Seq<char>)| is_valid_symbol(v.0);
    let f = |r: RawSymbol| raw_symbol_view(r);
    let mapped = raw.map_values(f);
    let kept = mapped.filter(pred);
    assert(kept == valid_listing(raw));
    assert forall|i: int| 0 <= i < out.len() implies listed_with_fields(raw, #[trigger] out[i]) by {
        lemma_listing_source(raw, out, i);
    }
    assert forall|j: int| 0 <= j < raw.len() && is_valid_symbol(raw[j].symbol@) implies kept_with_fields(out, #[trigger] raw[j]) by {
        assert(mapped[j] == raw_symbol_view(raw[j]));
        mapped.lemma_filter_contains(pred, j);
        assert(kept.contains(mapped[j]));
        let i = choose|i: int| 0 <= i < kept.len() && kept[i] == mapped[j];
        assert(out.map_values(|i: Instrument| instrument_view(i))[i] == instrument_view(out[i]));
        assert(out[i].symbol@ == raw[j].symbol@);
    }
}

/// Keeps the listed instruments whose symbol is valid, in listing order
/// (the others are skipped), each with the listing's own fields.
pub fn instruments_from_listing(raw: Vec<RawSymbol>) -> (r: Vec<Instrument>)
    ensures
        r@.map_values(|i: Instrument| instrument_view(i)) == valid_listing(raw@),
        forall|i: int| 0 <= i < r@.len() ==> listed_with_fields(raw@, #[trigger] r@[i]),
        forall|j: int|
            0 <= j < raw@.len() && is_valid_symbol(raw@[j].symbol@) ==> kept_with_fields(r@, #[trigger] raw@[j]),
{
    let mut out: Vec<Instrument> = Vec::new();
    let ghost pred = |v: (Seq<char>, Seq<char>, Seq<char>, Seq<char>)| is_valid_symbol(v.0);
    let ghost f = |r: RawSymbol| raw_symbol_view(r);
    for i in 0..raw.len()
        invariant
            pred == (|v: (Seq<char>, Seq<char>, Seq<char>, Seq<char>)| is_valid_symbol(v.0)),
            f == (|r: RawSymbol| raw_symbol_view(r)),
            out@.map_values(|i: Instrument| instrument_view(i)) == raw@.subrange(
                0,
                i as int,
            ).map_values(f).filter(pred),
    {
        let r = &raw[i];
        proof {
            let pre = raw@.subrange(0, i + 1);
            assert(pre.map_values(f) == raw@.subrange(0, i as int).map_values(f).push(
                raw_symbol_view(raw@[i as int]),
            ));
            raw@.subrange(0, i as int).map_values(f).lemma_filter_push(
                raw_symbol_view(raw@[i as int]),
                pred,
            );
        }
        match Symbol::new(r.symbol.as_str()) {
            Ok(symbol) => {
                let ghost before = out@;
                out.push(
                    Instrument {
                        symbol,
                        base_asset: r.base_asset.clone(),
                        quote_asset: r.quote_asset.clone(),
                        status: r.status.clone(),
                    },
                );
                proof {
                    assert(out@.map_values(|i: Instrument| instrument_view(i)) == before.map_values(
                        |i: Instrument| instrument_view(i),
                    ).push(raw_symbol_view(raw@[i as int])));
                }
            },
            Err(_) => {},
        }
    }
    proof {
        assert(raw@.subrange(0, raw@.len() as int) == raw@);
        lemma_listing_keeps_fields(raw@, out@);
    }
    out
}

/// A live subscription needs at least one symbol and one stream kind.
pub fn check_subscription(symbol_count: usize, stream_count: usize) -> (r: Result<(), ExchangeError>)
    ensures
        r is Ok <==> symbol_count > 0 && stream_count > 0,
        r matches Err(e) ==> exchange_error_message(e) == "invalid configuration: "@
            + "subscribe needs at least one symbol and one stream kind"@,
{
    if symbol_count == 0 || stream_count == 0 {
        return Err(
            ExchangeError::Config(owned("subscribe needs at least one symbol and one stream kind")),
        );
    }
    Ok(())
}

/// The requests-per-second quota of the REST token bucket: zero is refused,
/// any other rate is the bucket's quota.
pub fn limiter_quota(requests_per_second: u32) -> (r: Result<u32, ExchangeError>)
    ensures
        r is Ok <==> requests_per_second > 0,
        r matches Ok(q) ==> q == requests_per_second,
        r matches Err(e) ==> exchange_error_message(e) == "invalid configuration: "@
            + "requests_per_second must be > 0"@,
{
    if requests_per_second == 0 {
        return Err(ExchangeError::Config(owned("requests_per_second must be > 0")));
    }
    Ok(requests_per_second)
}

/// One REST backfill the live stream runs after a reconnect, covering the
/// instants `[from, to]` it may have missed.
#[derive(Debug, Clone)]
pub enum GapFill {
    Klines { symbol: Symbol, interval: Interval, from: i64, to: i64 },
    Trades { symbol: Symbol, from: i64, to: i64 },
}

/// The backfills a reconnect at `to` needs after the last event at `from`:
/// for each kline kind, one per symbol; for trades, one per symbol; none
/// for depth (which has no history to fetch).
pub open spec fn gap_fills_for(
    symbols: Seq<Seq<char>>,
    kinds: Seq<StreamKind>,
    from: i64,
    to: i64,
) -> Seq<(Seq<char>, Option<Interval>, i64, i64)>
    decreases kinds.len(),
{
    if kinds.len() == 0 {
        Seq::empty()
    } else {
        let rest = gap_fills_for(symbols, kinds.drop_last(), from, to);
        match kinds.last() {
            StreamKind::Kline(i) => rest + symbols.map_values(
                |s: Seq<char>| (s, Some(i), from, to),
            ),
            StreamKind::Trade => rest + symbols.map_values(
                |s: Seq<char>| (s, None::<Interval>, from, to),
            ),
            StreamKind::Depth => rest,
        }
    }
}

/// Whether `kind` names a stream of `fill`'s kind: trades for a trade
/// backfill, klines of the same interval for a kline backfill.
pub open spec fn backfills_kind(fill: (Seq<char>, Option<Interval>, i64, i64), kind: StreamKind) -> bool {
    match kind {
        StreamKind::Trade => fill.1 is None,
        StreamKind::Kline(i) => fill.1 == Some(i),
        StreamKind::Depth => false,
    }
}

/// After a disconnect, every subscribed symbol gets, for every trade
/// stream, a trade backfill and, for every kline stream, a kline backfill
/// of that interval, each covering `[from, to]`; depth streams get none, and
/// there is no other backfill.
pub proof fn lemma_gap_fills_cover(symbols: Seq<Seq<char>>, kinds: Seq<StreamKind>, from: i64, to: i64)
    ensures
        forall|k: int, j: int|
            0 <= k < kinds.len() && 0 <= j < symbols.len() && #[trigger] kinds[k] == StreamKind::Trade
                ==> gap_fills_for(symbols, kinds, from, to).contains((#[trigger] symbols[j], None::<Interval>, from, to)),
        forall|k: int, j: int|
            0 <= k < kinds.len() && 0 <= j < symbols.len() && (#[trigger] kinds[k]) is Kline
                ==> gap_fills_for(symbols, kinds, from, to).contains(
                (#[trigger] symbols[j], Some(kinds[k]->Kline_0), from, to),
            ),
        forall|n: int|
            0 <= n < gap_fills_for(symbols, kinds, from, to).len() ==> {
                let g = #[trigger] gap_fills_for(symbols, kinds, from, to)[n];
                &&& g.2 == from && g.3 == to
                &&& symbols.contains(g.0)
                &&& exists|k: int| 0 <= k < kinds.len() && backfills_kind(g, #[trigger] kinds[k])
            },
    decreases kinds.len(),
{
    if kinds.len() > 0 {
        let pre = kinds.drop_last();
        lemma_gap_fills_cover(symbols, pre, from, to);
        let rest = gap_fills_for(symbols, pre, from, to);
        let all = gap_fills_for(symbols, kinds, from, to);
        let last = kinds.last();
        let added = match last {
            StreamKind::Kline(i) => symbols.map_values(|s: Seq<char>| (s, Some(i), from, to)),
            StreamKind::Trade => symbols.map_values(|s: Seq<char>| (s, None::<Interval>, from, to)),
            StreamKind::Depth => Seq::<(Seq<char>, Option<Interval>, i64, i64)>::empty(),
        };
        assert(all == rest + added);
        assert forall|k: int, j: int|
            0 <= k < kinds.len() && 0 <= j < symbols.len() && #[trigger] kinds[k] == StreamKind::Trade implies all.contains(
                (#[trigger] symbols[j], None::<Interval>, from, to),
            ) by {
            if k < kinds.len() - 1 {
                assert(pre[k] == kinds[k]);
                let n = choose|n: int| 0 <= n < rest.len() && rest[n] == (symbols[j], None::<Interval>, from, to);
                assert(all[n] == rest[n]);
            } else {
                assert(all[rest.len() + j] == added[j]);
            }
        }
        assert forall|k: int, j: int|
            0 <= k < kinds.len() && 0 <= j < symbols.len() && (#[trigger] kinds[k]) is Kline implies all.contains(
                (#[trigger] symbols[j], Some(kinds[k]->Kline_0), from, to),
            ) by {
            if k < kinds.len() - 1 {
                assert(pre[k] == kinds[k]);
                let n = choose|n: int| 0 <= n < rest.len() && rest[n] == (symbols[j], Some(kinds[k]->Kline_0), from, to);
                assert(all[n] == rest[n]);
            } else {
                assert(all[rest.len() + j] == added[j]);
            }
        }
        assert forall|n: int| 0 <= n < all.len() implies {
            let g = #[trigger] all[n];
            &&& g.2 == from && g.3 == to
            &&& symbols.contains(g.0)
            &&& exists|k: int| 0 <= k < kinds.len() && backfills_kind(g, #[trigger] kinds[k])
        } by {
            if n < rest.len() {
                assert(all[n] == rest[n]);
                let k = choose|k: int| 0 <= k < pre.len() && backfills_kind(rest[n], #[trigger] pre[k]);
                assert(kinds[k] == pre[k]);
            } else {
                let j = n - rest.len();
                assert(all[n] == added[j]);
                assert(symbols[j] == all[n].0);
                assert(kinds[kinds.len() - 1] == last);
            }
        }
    }
}

/// The plain content of a backfill: symbol, interval (for klines), range.
pub open spec fn gap_fill_view(g: GapFill) -> (Seq<char>, Option<Interval>, i64, i64) {
    match g {
        GapFill::Klines { symbol, interval, from, to } => (symbol@, Some(interval), from, to),
        GapFill::Trades { symbol, from, to } => (symbol@, None, from, to),
    }
}

/// Whether `fills` holds a trade backfill of `symbol` over `[from, to]`.
pub open spec fn has_trade_fill(fills: Seq<GapFill>, symbol: Seq<char>, from: i64, to: i64) -> bool {
    exists|n: int|
        0 <= n < fills.len() && (#[trigger] fills[n] matches GapFill::Trades { symbol: s, from: f, to: t } && s@
            == symbol && f == from && t == to)
}

/// Whether `fills` holds a kline backfill of `symbol` at `interval` over
/// `[from, to]`.
pub open spec fn has_kline_fill(fills: Seq<GapFill>, symbol: Seq<char>, interval: Interval, from: i64, to: i64) -> bool {
    exists|n: int|
        0 <= n < fills.len() && (#[trigger] fills[n] matches GapFill::Klines { symbol: s, interval: i, from: f, to: t }
            && s@ == symbol && i == interval && f == from && t == to)
}

/// What the live stream does after its connection dropped.
#[derive(Debug, Clone)]
pub struct ReconnectPlan {
    pub gap_fills: Vec<GapFill>,
    pub delay_ms: u64,
}

/// The live stream's memory across connections: the time of the last event
/// passed on, and the number of consecutive failed connections.
#[derive(Debug, Clone, Copy, PartialEq, Eq)]
pub struct LiveState {
    pub last_event_time: Option<i64>,
    pub attempt: u32,
}

impl LiveState {
    /// No event yet, no failed attempt.
    pub fn new() -> (r: LiveState)
        ensures
            r.last_event_time is None,
            r.attempt == 0,
    {
        LiveState { last_event_time: None, attempt: 0 }
    }

    /// A connection was established: the failure count restarts.
    pub fn on_connected(&mut self)
        ensures
            final(self).attempt == 0,
            final(self).last_event_time == old(self).last_event_time,
    {
        self.attempt = 0;
    }

    /// An event was passed on: it is now the last one seen.
    pub fn on_event(&mut self, event: &MarketEvent)
        ensures
            final(self).last_event_time == Some(event_instant(*event)),
            final(self).attempt == old(self).attempt,
    {
        self.last_event_time = Some(event_time(event));
    }

    /// The connection dropped at `reconnect_at`: one more failed attempt;
    /// if any event was seen, backfill `[last event, reconnect_at]` for
    /// every symbol and kline/trade kind, and count the gap as covered up
    /// to `reconnect_at`; then wait the backoff delay of this attempt.
    pub fn on_disconnect(
        &mut self,
        reconnect_at: i64,
        symbols: &Vec<Symbol>,
        streams: &Vec<StreamKind>,
        backoff: &BackoffConfig,
    ) -> (r: ReconnectPlan)
        ensures
            final(self).attempt == (if old(self).attempt == u32::MAX {
                u32::MAX
            } else {
                (old(self).attempt + 1) as u32
            }),
            r.delay_ms == backoff_delay_spec(*backoff, final(self).attempt as nat),
            match old(self).last_event_time {
                None => r.gap_fills@.len() == 0 && final(self).last_event_time is None,
                Some(from) => r.gap_fills@.map_values(|g: GapFill| gap_fill_view(g)) == gap_fills_for(
                    symbols@.map_values(|s: Symbol| s@),
                    streams@,
                    from,
                    reconnect_at,
                ) && final(self).last_event_time == Some(reconnect_at),
            },
            old(self).last_event_time matches Some(from) ==> forall|k: int, j: int|
                0 <= k < streams@.len() && 0 <= j < symbols@.len() && #[trigger] streams@[k] == StreamKind::Trade
                    ==> has_trade_fill(r.gap_fills@, (#[trigger] symbols@[j])@, from, reconnect_at),
            old(self).last_event_time matches Some(from) ==> forall|k: int, j: int|
                0 <= k < streams@.len() && 0 <= j < symbols@.len() && (#[trigger] streams@[k]) is Kline
                    ==> has_kline_fill(
                    r.gap_fills@,
                    (#[trigger] symbols@[j])@,
                    streams@[k]->Kline_0,
                    from,
                    reconnect_at,
                ),
    {
        self.attempt = if self.attempt == u32::MAX {
            u32::MAX
        } else {
            self.attempt + 1
        };
        let mut fills: Vec<GapFill> = Vec::new();
        match self.last_event_time {
            None => {},
            Some(from) => {
                let ghost syms = symbols@.map_values(|s: Symbol| s@);
                for k in 0..streams.len()
                    invariant
                        syms == symbols@.map_values(|s: Symbol| s@),
                        fills@.map_values(|g: GapFill| gap_fill_view(g)) == gap_fills_for(
                            syms,
                            streams@.subrange(0, k as int),
                            from,
                            reconnect_at,
                        ),
                {
                    proof {
                        let pre = streams@.subrange(0, k + 1);
                        assert(pre.drop_last() == streams@.subrange(0, k as int));
                        assert(pre.last() == streams@[k as int]);
                    }
                    let ghost base = fills@.map_values(|g: GapFill| gap_fill_view(g));
                    match streams[k] {
                        StreamKind::Kline(interval) => {
                            for j in 0..symbols.len()
                                invariant
                                    syms == symbols@.map_values(|s: Symbol| s@),
                                    fills@.map_values(|g: GapFill| gap_fill_view(g)) == base
                                        + syms.subrange(0, j as int).map_values(
                                        |s: Seq<char>| (s, Some(interval), from, reconnect_at),
                                    ),
                            {
                                let ghost before = fills@;
                                fills.push(
                                    GapFill::Klines {
                                        symbol: symbols[j].duplicate(),
                                        interval,
                                        from,
                                        to: reconnect_at,
                                    },
                                );
                                proof {
                                    assert(fills@.map_values(|g: GapFill| gap_fill_view(g))
                                        == before.map_values(|g: GapFill| gap_fill_view(g)).push(
                                        (symbols@[j as int]@, Some(interval), from, reconnect_at),
                                    ));
                                    assert(syms.subrange(0, j + 1).map_values(
                                        |s: Seq<char>| (s, Some(interval), from, reconnect_at),
                                    ) == syms.subrange(0, j as int).map_values(
                                        |s: Seq<char>| (s, Some(interval), from, reconnect_at),
                                    ).push((syms[j as int], Some(interval), from, reconnect_at)));
                                }
                            }
                            proof {
                                assert(syms.subrange(0, symbols@.len() as int) == syms);
                            }
                        },
                        StreamKind::Trade => {
                            for j in 0..symbols.len()
                                invariant
                                    syms == symbols@.map_values(|s: Symbol| s@),
                                    fills@.map_values(|g: GapFill| gap_fill_view(g)) == base
                                        + syms.subrange(0, j as int).map_values(
                                        |s: Seq<char>| (s, None::<Interval>, from, reconnect_at),
                                    ),
                            {
                                let ghost before = fills@;
                                fills.push(
                                    GapFill::Trades {
                                        symbol: symbols[j].duplicate(),
                                        from,
                                        to: reconnect_at,
                                    },
                                );
                                proof {
                                    assert(fills@.map_values(|g: GapFill| gap_fill_view(g))
                                        == before.map_values(|g: GapFill| gap_fill_view(g)).push(
                                        (symbols@[j as int]@, None::<Interval>, from, reconnect_at),
                                    ));
                                    assert(syms.subrange(0, j + 1).map_values(
                                        |s: Seq<char>| (s, None::<Interval>, from, reconnect_at),
                                    ) == syms.subrange(0, j as int).map_values(
                                        |s: Seq<char>| (s, None::<Interval>, from, reconnect_at),
                                    ).push((syms[j as int], None::<Interval>, from, reconnect_at)));
                                }
                            }
                            proof {
                                assert(syms.subrange(0, symbols@.len() as int) == syms);
                            }
                        },
                        StreamKind::Depth => {},
                    }
                }
                proof {
                    assert(streams@.subrange(0, streams@.len() as int) == streams@);
                    lemma_gap_fills_cover(syms, streams@, from, reconnect_at);
                    let views = fills@.map_values(|g: GapFill| gap_fill_view(g));
                    assert forall|k: int, j: int|
                        0 <= k < streams@.len() && 0 <= j < symbols@.len() && #[trigger] streams@[k]
                            == StreamKind::Trade implies has_trade_fill(
                        fills@,
                        (#[trigger] symbols@[j])@,
                        from,
                        reconnect_at,
                    ) by {
                        assert(syms[j] == symbols@[j]@);
                        assert(views.contains((syms[j], None::<Interval>, from, reconnect_at)));
                        let n = choose|n: int| 0 <= n < views.len() && views[n] == (syms[j], None::<Interval>, from, reconnect_at);
                        assert(views[n] == gap_fill_view(fills@[n]));
                    }
                    assert forall|k: int, j: int|
                        0 <= k < streams@.len() && 0 <= j < symbols@.len() && (#[trigger] streams@[k]) is Kline
                            implies has_kline_fill(
                        fills@,
                        (#[trigger] symbols@[j])@,
                        streams@[k]->Kline_0,
                        from,
                        reconnect_at,
                    ) by {
                        assert(syms[j] == symbols@[j]@);
                        let iv = streams@[k]->Kline_0;
                        assert(views.contains((syms[j], Some(iv), from, reconnect_at)));
                        let n = choose|n: int| 0 <= n < views.len() && views[n] == (syms[j], Some(iv), from, reconnect_at);
                        assert(views[n] == gap_fill_view(fills@[n]));
                    }
                }
                self.last_event_time = Some(reconnect_at);
            },
        }
        let delay_ms = backoff_delay(backoff, self.attempt);
        ReconnectPlan { gap_fills: fills, delay_ms }
    }
}

/// The query of one page of the candle listing (`/api/v3/klines`):
/// symbol, interval, start and end instants (milliseconds) and page size.
pub fn kline_page_query(symbol: &Symbol, interval: Interval, start_ms: i64, end_ms: i64, limit: u32) -> (r: Vec<(String, String)>)
    ensures
        r@.len() == 5,
        r@[0].0@ == "symbol"@ && r@[0].1@ == symbol@,
        r@[1].0@ == "interval"@ && r@[1].1@ == interval_text(interval),
        r@[2].0@ == "startTime"@ && r@[2].1@ == crate::text::signed_decimal_text(start_ms as int),
        r@[3].0@ == "endTime"@ && r@[3].1@ == crate::text::signed_decimal_text(end_ms as int),
        r@[4].0@ == "limit"@ && r@[4].1@ == crate::text::decimal_text(limit as nat),
{
    let mut q: Vec<(String, String)> = Vec::new();
    q.push((owned("symbol"), symbol.to_string()));
    q.push((owned("interval"), interval.to_string()));
    q.push((owned("startTime"), crate::text::i64_text(start_ms)));
    q.push((owned("endTime"), crate::text::i64_text(end_ms)));
    q.push((owned("limit"), crate::text::u64_text(limit as u64)));
    q
}

/// The query of one page of the aggregated-trade listing
/// (`/api/v3/aggTrades`): symbol, start and end instants and page size.
pub fn agg_trade_page_query(symbol: &Symbol, start_ms: i64, end_ms: i64) -> (r: Vec<(String, String)>)
    ensures
        r@.len() == 4,
        r@[0].0@ == "symbol"@ && r@[0].1@ == symbol@,
        r@[1].0@ == "startTime"@ && r@[1].1@ == crate::text::signed_decimal_text(start_ms as int),
        r@[2].0@ == "endTime"@ && r@[2].1@ == crate::text::signed_decimal_text(end_ms as int),
        r@[3].0@ == "limit"@ && r@[3].1@ == crate::text::decimal_text(REST_PAGE_LIMIT as nat),
{
    let mut q: Vec<(String, String)> = Vec::new();
    q.push((owned("symbol"), symbol.to_string()));
    q.push((owned("startTime"), crate::text::i64_text(start_ms)));
    q.push((owned("endTime"), crate::text::i64_text(end_ms)));
    q.push((owned("limit"), crate::text::u64_text(REST_PAGE_LIMIT as u64)));
    q
}

} // verus!
