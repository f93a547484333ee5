//! `query`: which analytics query a command line names, and the parameters
//! it runs with. Running the query and printing its rows are the program's.
use vstd::prelude::*;

use crate::cli::{
    date_range_outcome, date_range_param_at, exchange_param, int_param_outcome, interval_param, param, param_error_text,
    param_i64_or, param_lookup, param_u32_or, params_view,
};
use crate::error::{invalid_interval_message, invalid_symbol_message};
use crate::interval::{interval_of_text, text_eq, Interval};
use crate::symbol::{is_valid_symbol, Symbol};
use crate::text::owned;

verus! {

/// One analytics query with everything it runs with. Instants are
/// milliseconds since the epoch. An anomaly threshold is a floating-point
/// number, read by the caller from its text.
#[derive(Debug)]
pub enum QueryPlan {
    Resample { exchange: String, bucket_seconds: i64, from_ms: i64, to_ms: i64 },
    Vwap { exchange: String, interval: Interval, window: u32 },
    Volatility { exchange: String, interval: Interval, window: u32 },
    Anomalies { exchange: String, interval: Interval, window: u32, threshold: Option<String> },
    Ofi { exchange: String, bucket_seconds: i64, from_ms: i64, to_ms: i64 },
    Correlation { exchange: String, interval: Interval, symbols: Vec<Symbol> },
    Spread { interval: Interval, exchange: String, other_symbol: Symbol, other_exchange: String },
}

/// The names `query` knows.
pub open spec fn known_query(name: Seq<char>) -> bool {
    name == "resample"@ || name == "vwap"@ || name == "volatility"@ || name == "anomalies"@ || name
        == "ofi"@ || name == "correlation"@ || name == "spread"@
}

/// The message for a name `query` does not know.
pub open spec fn unknown_query_message(name: Seq<char>) -> Seq<char> {
    "unknown --name '"@ + name
        + "': expected one of resample, vwap, volatility, anomalies, ofi, correlation, spread"@
}

/// The exchange a query reads.
pub open spec fn exchange_of(params: Seq<(Seq<char>, Seq<char>)>) -> Seq<char> {
    match param_lookup(params, "exchange"@) {
        Some(v) => v,
        None => "binance"@,
    }
}

/// The interval a query reads, or the message refusing it.
pub open spec fn interval_outcome(params: Seq<(Seq<char>, Seq<char>)>) -> Result<Interval, Seq<char>> {
    let raw = match param_lookup(params, "interval"@) {
        Some(v) => v,
        None => "1m"@,
    };
    match interval_of_text(raw) {
        Some(i) => Ok(i),
        None => Err(param_error_text("interval"@, invalid_interval_message(raw))),
    }
}

/// The `--symbol` a query is about, checked for its form.
pub fn query_symbol(raw: &str) -> (r: Result<Symbol, String>)
    ensures
        r is Ok <==> is_valid_symbol(raw@),
        r matches Ok(s) ==> s@ == raw@,
        r matches Err(m) ==> m@ == "--symbol: "@ + invalid_symbol_message(raw@),
{
    match Symbol::new(raw) {
        Ok(s) => Ok(s),
        Err(e) => {
            let mut m = owned("--symbol: ");
            let t = e.message();
            m.append(t.as_str());
            Err(m)
        },
    }
}

/// Whether every piece of a list, trimmed, is a valid symbol.
pub open spec fn all_valid_symbols(pieces: Seq<Seq<char>>) -> bool {
    forall|i: int| 0 <= i < pieces.len() ==> is_valid_symbol(crate::text::trimmed(#[trigger] pieces[i]))
}

/// The symbols named by a comma-separated list, each trimmed and checked;
/// the first one refused refuses the list.
pub fn symbol_list(raw: &str) -> (r: Result<Vec<Symbol>, String>)
    ensures
        ({
            let pieces = crate::text::split_on(raw@, ',');
            &&& r is Ok <==> all_valid_symbols(pieces)
            &&& r matches Ok(v) ==> v@.len() == pieces.len() && forall|i: int| 0 <= i < v@.len() ==> (#[trigger] v@[i])@
                == crate::text::trimmed(pieces[i])
            &&& r matches Err(m) ==> exists|i: int| 0 <= i < pieces.len() && !is_valid_symbol(crate::text::trimmed(#[trigger] pieces[i]))
                && (forall|j: int| 0 <= j < i ==> is_valid_symbol(crate::text::trimmed(#[trigger] pieces[j])))
                && m@ == "--param symbols: "@ + invalid_symbol_message(crate::text::trimmed(pieces[i]))
        }),
{
    let chars = crate::text::chars_of(raw);
    let pieces = crate::text::split_chars(&chars, ',');
    let ghost parts = crate::text::split_on(raw@, ',');
    let mut out: Vec<Symbol> = Vec::new();
    for i in 0..pieces.len()
        invariant
            chars@ == raw@,
            parts == crate::text::split_on(raw@, ','),
            pieces@.len() == parts.len(),
            forall|j: int| 0 <= j < pieces@.len() ==> (#[trigger] pieces@[j])@ == parts[j],
            out@.len() == i,
            forall|j: int| 0 <= j < i ==> (#[trigger] out@[j])@ == crate::text::trimmed(parts[j]),
            forall|j: int| 0 <= j < i ==> is_valid_symbol(crate::text::trimmed(#[trigger] parts[j])),
    {
        let t = crate::text::trim_chars(&pieces[i]);
        let text = crate::text::string_from_chars(t.as_slice());
        match Symbol::new(text.as_str()) {
            Ok(s) => {
                out.push(s);
            },
            Err(e) => {
                let mut m = owned("--param symbols: ");
                let msg = e.message();
                m.append(msg.as_str());
                return Err(m);
            },
        }
    }
    Ok(out)
}

/// The plan of a correlation: the exchange, the interval and the symbols
/// of `symbols` (the query's own symbol by default).
pub fn plan_correlation(symbol: &str, params: &Vec<(String, String)>) -> (r: Result<QueryPlan, String>)
    ensures
        ({
            let p = params_view(params@);
            let list = match param_lookup(p, "symbols"@) {
                Some(v) => v,
                None => symbol@,
            };
            let pieces = crate::text::split_on(list, ',');
            &&& r is Ok <==> interval_outcome(p) is Ok && all_valid_symbols(pieces)
            &&& interval_outcome(p) matches Err(m) ==> (r matches Err(e) && e@ == m)
            &&& r matches Ok(q) ==> q matches QueryPlan::Correlation { exchange, interval, symbols }
                && exchange@ == exchange_of(p) && Ok::<Interval, Seq<char>>(interval) == interval_outcome(p)
                && symbols@.len() == pieces.len() && forall|i: int|
                0 <= i < symbols@.len() ==> (#[trigger] symbols@[i])@ == crate::text::trimmed(pieces[i])
        }),
{
    let exchange = exchange_param(params);
    let interval = interval_param(params)?;
    let list = match param(params, "symbols") {
        Some(v) => v,
        None => owned(symbol),
    };
    let symbols = match symbol_list(list.as_str()) {
        Ok(v) => v,
        Err(m) => {
            proof {
                let pieces = crate::text::split_on(list@, ',');
                let i = choose|i: int| 0 <= i < pieces.len() && !is_valid_symbol(crate::text::trimmed(#[trigger] pieces[i]))
                    && (forall|j: int| 0 <= j < i ==> is_valid_symbol(crate::text::trimmed(#[trigger] pieces[j])))
                    && m@ == "--param symbols: "@ + invalid_symbol_message(crate::text::trimmed(pieces[i]));
                assert(!is_valid_symbol(crate::text::trimmed(pieces[i])));
                let spec_list = match param_lookup(params_view(params@), "symbols"@) {
                    Some(v) => v,
                    None => symbol@,
                };
                assert(list@ == spec_list);
                assert(!is_valid_symbol(crate::text::trimmed(crate::text::split_on(spec_list, ',')[i])));
                assert(!all_valid_symbols(crate::text::split_on(spec_list, ',')));
            }
            return Err(m);
        },
    };
    Ok(QueryPlan::Correlation { exchange, interval, symbols })
}

/// The message when `spread` is not told the other symbol.
pub open spec fn spread_needs_other_message() -> Seq<char> {
    "query --name spread needs --param other_symbol=<SYM>"@
}

/// Whether `q` is the plan of the query that `name` names: `resample`
/// plans a resample, `vwap` a VWAP, `volatility` a realized volatility,
/// `anomalies` an anomaly scan, `ofi` an order-flow imbalance,
/// `correlation` a correlation and `spread` a spread.
pub open spec fn plan_is_named(name: Seq<char>, q: QueryPlan) -> bool {
    match q {
        QueryPlan::Resample { .. } => name == "resample"@,
        QueryPlan::Vwap { .. } => name == "vwap"@,
        QueryPlan::Volatility { .. } => name == "volatility"@,
        QueryPlan::Anomalies { .. } => name == "anomalies"@,
        QueryPlan::Ofi { .. } => name == "ofi"@,
        QueryPlan::Correlation { .. } => name == "correlation"@,
        QueryPlan::Spread { .. } => name == "spread"@,
    }
}

/// The defaults a plan takes for parameters not given: the `binance`
/// exchange; a window of 20 for VWAP and volatility and of 100 for
/// anomalies; buckets of 300 seconds for resampling and 60 for order-flow
/// imbalance.
pub open spec fn plan_defaults_hold(p: Seq<(Seq<char>, Seq<char>)>, q: QueryPlan) -> bool {
    let no_window = param_lookup(p, "window"@) is None;
    let no_bucket = param_lookup(p, "bucket_seconds"@) is None;
    &&& param_lookup(p, "exchange"@) is None ==> match q {
        QueryPlan::Resample { exchange, .. } => exchange@ == "binance"@,
        QueryPlan::Vwap { exchange, .. } => exchange@ == "binance"@,
        QueryPlan::Volatility { exchange, .. } => exchange@ == "binance"@,
        QueryPlan::Anomalies { exchange, .. } => exchange@ == "binance"@,
        QueryPlan::Ofi { exchange, .. } => exchange@ == "binance"@,
        QueryPlan::Correlation { exchange, .. } => exchange@ == "binance"@,
        QueryPlan::Spread { exchange, .. } => exchange@ == "binance"@,
    }
    &&& no_window ==> match q {
        QueryPlan::Vwap { window, .. } => window == 20,
        QueryPlan::Volatility { window, .. } => window == 20,
        QueryPlan::Anomalies { window, .. } => window == 100,
        _ => true,
    }
    &&& no_bucket ==> match q {
        QueryPlan::Resample { bucket_seconds, .. } => bucket_seconds == 300,
        QueryPlan::Ofi { bucket_seconds, .. } => bucket_seconds == 60,
        _ => true,
    }
}

/// What `query --name <name>` about `symbol` with the `--param`s `p`
/// gives, with `today` (a calendar day) standing for an absent `to` day of
/// the range queries.
pub open spec fn plan_outcome(
    name: Seq<char>,
    symbol: Seq<char>,
    p: Seq<(Seq<char>, Seq<char>)>,
    r: Result<QueryPlan, String>,
    today: int,
) -> bool {
    &&& (!known_query(name) ==> (r matches Err(m) && m@ == unknown_query_message(name)))
    &&& (name == "vwap"@ || name == "volatility"@ ==> ({
            let p = p;
            let w = int_param_outcome(p, "window"@, false, 0, u32::MAX as int, 20);
            &&& r is Ok <==> interval_outcome(p) is Ok && w is Ok
            &&& interval_outcome(p) matches Err(m) ==> (r matches Err(e) && e@ == m)
            &&& (interval_outcome(p) is Ok && w is Err) ==> (r matches Err(e) && w == Err::<int, Seq<char>>(e@))
            &&& name == "vwap"@ ==> (r matches Ok(q) ==> q matches QueryPlan::Vwap { exchange, interval, window }
                && exchange@ == exchange_of(p) && Ok::<Interval, Seq<char>>(interval) == interval_outcome(p)
                && w == Ok::<int, Seq<char>>(window as int))
            &&& name == "volatility"@ ==> (r matches Ok(q) ==> q matches QueryPlan::Volatility {
                exchange,
                interval,
                window,
            } && exchange@ == exchange_of(p) && Ok::<Interval, Seq<char>>(interval) == interval_outcome(p)
                && w == Ok::<int, Seq<char>>(window as int))
        }))
    &&& (name == "anomalies"@ ==> ({
            let p = p;
            let w = int_param_outcome(p, "window"@, false, 0, u32::MAX as int, 100);
            &&& r is Ok <==> interval_outcome(p) is Ok && w is Ok
            &&& interval_outcome(p) matches Err(m) ==> (r matches Err(e) && e@ == m)
            &&& (interval_outcome(p) is Ok && w is Err) ==> (r matches Err(e) && w == Err::<int, Seq<char>>(e@))
            &&& r matches Ok(q) ==> q matches QueryPlan::Anomalies { exchange, interval, window, threshold }
                && exchange@ == exchange_of(p) && Ok::<Interval, Seq<char>>(interval) == interval_outcome(p)
                && w == Ok::<int, Seq<char>>(window as int) && match threshold {
                Some(t) => param_lookup(p, "threshold"@) == Some(t@),
                None => param_lookup(p, "threshold"@) is None,
            }
        }))
    &&& (name == "resample"@ || name == "ofi"@ ==> ({
            let b = int_param_outcome(
                p,
                "bucket_seconds"@,
                true,
                i64::MIN as int,
                i64::MAX as int,
                if name == "resample"@ {
                    300
                } else {
                    60
                },
            );
            let d = date_range_outcome(p, today);
            &&& r is Ok <==> b is Ok && d is Ok
            &&& b matches Err(m) ==> (r matches Err(e) && e@ == m)
            &&& b is Ok ==> (d matches Err(m) ==> (r matches Err(e) && e@ == m))
            &&& name == "resample"@ ==> (r matches Ok(q) ==> q matches QueryPlan::Resample {
                exchange,
                bucket_seconds,
                from_ms,
                to_ms,
            } && exchange@ == exchange_of(p) && b == Ok::<int, Seq<char>>(bucket_seconds as int)
                && d == Ok::<(int, int), Seq<char>>((from_ms as int, to_ms as int)))
            &&& name == "ofi"@ ==> (r matches Ok(q) ==> q matches QueryPlan::Ofi {
                exchange,
                bucket_seconds,
                from_ms,
                to_ms,
            } && exchange@ == exchange_of(p) && b == Ok::<int, Seq<char>>(bucket_seconds as int)
                && d == Ok::<(int, int), Seq<char>>((from_ms as int, to_ms as int)))
        }))
    &&& (name == "correlation"@ ==> ({
            let p = p;
            let list = match param_lookup(p, "symbols"@) {
                Some(v) => v,
                None => symbol,
            };
            let pieces = crate::text::split_on(list, ',');
            &&& r is Ok <==> interval_outcome(p) is Ok && all_valid_symbols(pieces)
            &&& interval_outcome(p) matches Err(m) ==> (r matches Err(e) && e@ == m)
            &&& r matches Ok(q) ==> q matches QueryPlan::Correlation { exchange, interval, symbols }
                && exchange@ == exchange_of(p) && Ok::<Interval, Seq<char>>(interval) == interval_outcome(p)
                && symbols@.len() == pieces.len() && forall|i: int|
                0 <= i < symbols@.len() ==> (#[trigger] symbols@[i])@ == crate::text::trimmed(pieces[i])
        }))
    &&& (name == "spread"@ ==> ({
            let p = p;
            let other = param_lookup(p, "other_symbol"@);
            &&& r is Ok <==> interval_outcome(p) is Ok && other is Some && is_valid_symbol(other->0)
            &&& interval_outcome(p) matches Err(m) ==> (r matches Err(e) && e@ == m)
            &&& (interval_outcome(p) is Ok && other is None) ==> (r matches Err(e) && e@
                == spread_needs_other_message())
            &&& (interval_outcome(p) is Ok && other is Some && !is_valid_symbol(other->0)) ==> (r matches Err(
                e,
            ) && e@ == "--param other_symbol: "@ + invalid_symbol_message(other->0))
            &&& r matches Ok(q) ==> q matches QueryPlan::Spread { interval, exchange, other_symbol, other_exchange }
                && exchange@ == exchange_of(p) && Ok::<Interval, Seq<char>>(interval) == interval_outcome(p)
                && other_symbol@ == other->0 && other_exchange@ == (match param_lookup(p, "other_exchange"@) {
                Some(v) => v,
                None => exchange_of(p),
            })
        }))
}

/// Whatever the parameters and the day, a planned query is the one its
/// name names and takes the documented defaults for parameters not given.
pub proof fn lemma_plan_is_named(
    name: Seq<char>,
    symbol: Seq<char>,
    p: Seq<(Seq<char>, Seq<char>)>,
    r: Result<QueryPlan, String>,
    today: int,
)
    requires
        plan_outcome(name, symbol, p, r, today),
    ensures
        r matches Ok(q) ==> plan_is_named(name, q) && plan_defaults_hold(p, q),
{
    reveal_strlit("resample");
    reveal_strlit("vwap");
    reveal_strlit("volatility");
    reveal_strlit("anomalies");
    reveal_strlit("ofi");
    reveal_strlit("correlation");
    reveal_strlit("spread");
    reveal_strlit("binance");
}

/// The plan for `query --name <name>` about `symbol`, with its `--param`s
/// and `today` standing for an absent `to` day, or the message refusing it
/// (see `plan_outcome`). Each name reads, in this order:
/// `resample` the exchange, `bucket_seconds` (300) and the day range;
/// `vwap` and `volatility` the exchange, interval and `window` (20);
/// `anomalies` the exchange, interval, `window` (100) and the threshold;
/// `ofi` the exchange, `bucket_seconds` (60) and the day range;
/// `correlation` the exchange, interval and `symbols` (the query's own
/// symbol by default); `spread` the interval, exchange, `other_symbol` and
/// `other_exchange` (the same exchange by default).
pub fn plan_query_at(name: &str, symbol: &str, params: &Vec<(String, String)>, today: i64) -> (r: Result<QueryPlan, String>)
    ensures
        plan_outcome(name@, symbol@, params_view(params@), r, today as int),
        r matches Ok(q) ==> plan_is_named(name@, q) && plan_defaults_hold(params_view(params@), q),
{
    proof {
        reveal_strlit("resample");
        reveal_strlit("vwap");
        reveal_strlit("volatility");
        reveal_strlit("anomalies");
        reveal_strlit("ofi");
        reveal_strlit("correlation");
        reveal_strlit("spread");
        assert("resample"@.len() == 8 && "ofi"@.len() == 3 && "vwap"@.len() == 4);
        assert("volatility"@.len() == 10 && "anomalies"@.len() == 9);
        assert("correlation"@.len() == 11 && "spread"@.len() == 6);
        assert("resample"@ != "volatility"@ && "ofi"@ != "volatility"@);
    }
    if text_eq(name, "resample") || text_eq(name, "ofi") {
        let exchange = exchange_param(params);
        let default: i64 = if text_eq(name, "resample") {
            300
        } else {
            60
        };
        let bucket_seconds = param_i64_or(params, "bucket_seconds", default)?;
        let (from_ms, to_ms) = date_range_param_at(params, today)?;
        if text_eq(name, "resample") {
            return Ok(QueryPlan::Resample { exchange, bucket_seconds, from_ms, to_ms });
        }
        return Ok(QueryPlan::Ofi { exchange, bucket_seconds, from_ms, to_ms });
    }
    if text_eq(name, "vwap") || text_eq(name, "volatility") || text_eq(name, "anomalies") {
        let exchange = exchange_param(params);
        let interval = interval_param(params)?;
        let default: u32 = if text_eq(name, "anomalies") {
            100
        } else {
            20
        };
        let window = param_u32_or(params, "window", default)?;
        if text_eq(name, "vwap") {
            return Ok(QueryPlan::Vwap { exchange, interval, window });
        }
        if text_eq(name, "volatility") {
            return Ok(QueryPlan::Volatility { exchange, interval, window });
        }
        let threshold = param(params, "threshold");
        return Ok(QueryPlan::Anomalies { exchange, interval, window, threshold });
    }
    if text_eq(name, "correlation") {
        return plan_correlation(symbol, params);
    }
    if text_eq(name, "spread") {
        let interval = interval_param(params)?;
        let exchange = exchange_param(params);
        let other = match param(params, "other_symbol") {
            Some(v) => v,
            None => return Err(owned("query --name spread needs --param other_symbol=<SYM>")),
        };
        let other_symbol = match Symbol::new(other.as_str()) {
            Ok(s) => s,
            Err(e) => {
                let mut m = owned("--param other_symbol: ");
                let t = e.message();
                m.append(t.as_str());
                return Err(m);
            },
        };
        let other_exchange = match param(params, "other_exchange") {
            Some(v) => v,
            None => exchange.clone(),
        };
        return Ok(QueryPlan::Spread { interval, exchange, other_symbol, other_exchange });
    }
    let mut m = owned("unknown --name '");
    m.append(name);
    m.append("': expected one of resample, vwap, volatility, anomalies, ofi, correlation, spread");
    Err(m)
}

/// The plan for `query --name <name>` about `symbol`, with its `--param`s,
/// or the message refusing it (see `plan_outcome`); an absent `to` day of a
/// range query is today by the clock, and when `to` is given the outcome
/// does not depend on the clock.
pub fn plan_query(name: &str, symbol: &str, params: &Vec<(String, String)>) -> (r: Result<QueryPlan, String>)
    ensures
        exists|today: int| #[trigger] plan_outcome(name@, symbol@, params_view(params@), r, today),
        param_lookup(params_view(params@), "to"@) is Some ==> plan_outcome(name@, symbol@, params_view(params@), r, 0),
        r matches Ok(q) ==> plan_is_named(name@, q) && plan_defaults_hold(params_view(params@), q),
{
    let today = crate::time::today_day();
    let r = plan_query_at(name, symbol, params, today);
    proof {
        let p = params_view(params@);
        assert(plan_outcome(name@, symbol@, p, r, today as int));
        if param_lookup(p, "to"@) is Some {
            assert(date_range_outcome(p, today as int) == date_range_outcome(p, 0));
        }
    }
    r
}

} // verus!
