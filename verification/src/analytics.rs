//! The analytics queries' parameter rules and the reading of their result
//! cells. The queries themselves run in the database, which is the
//! caller's.
use vstd::prelude::*;

use crate::decimal::{decimal_parse, DecimalValue};
use crate::error::AnalyticsError;
use crate::text::{owned, push_char};

verus! {

/// `?` placeholders for `n` bound parameters: `?, ?, ?` for three.
pub open spec fn placeholders_spec(n: nat) -> Seq<char>
    decreases n,
{
    if n == 0 {
        Seq::empty()
    } else if n == 1 {
        seq!['?']
    } else {
        placeholders_spec((n - 1) as nat) + seq![',', ' ', '?']
    }
}

/// The placeholder list for `n` bound parameters.
pub fn placeholders(n: usize) -> (r: String)
    ensures
        r@ == placeholders_spec(n as nat),
{
    let mut s = String::new();
    for i in 0..n
        invariant
            s@ == placeholders_spec(i as nat),
    {
        if i > 0 {
            push_char(&mut s, ',');
            push_char(&mut s, ' ');
        }
        push_char(&mut s, '?');
        proof {
            if i > 0 {
                assert(placeholders_spec((i + 1) as nat) == placeholders_spec(i as nat) + seq![',', ' ', '?']);
            }
        }
    }
    s
}

/// `e` is the invalid-parameter error for `name` with `reason`.
pub open spec fn is_invalid_param(e: AnalyticsError, name: Seq<char>, reason: Seq<char>) -> bool {
    &&& e is InvalidParam
    &&& e->name@ == name
    &&& e->reason@ == reason
}

/// The frame of a rolling window of `window` rows: the rows before the
/// current one that it spans (`window - 1`). A window of 0 is refused.
pub fn window_frame(window: u32) -> (r: Result<i64, AnalyticsError>)
    ensures
        r is Ok <==> window >= 1,
        r matches Ok(f) ==> f == window - 1,
        r matches Err(e) ==> is_invalid_param(e, "window"@, "must be at least 1"@),
{
    if window == 0 {
        return Err(
            AnalyticsError::InvalidParam { name: owned("window"), reason: owned("must be at least 1") },
        );
    }
    Ok(window as i64 - 1)
}

/// A bucket width in seconds must be positive.
pub fn check_bucket_seconds(bucket_seconds: i64) -> (r: Result<(), AnalyticsError>)
    ensures
        r is Ok <==> bucket_seconds > 0,
        r matches Err(e) ==> is_invalid_param(e, "bucket_seconds"@, "must be positive"@),
{
    if bucket_seconds <= 0 {
        return Err(
            AnalyticsError::InvalidParam {
                name: owned("bucket_seconds"),
                reason: owned("must be positive"),
            },
        );
    }
    Ok(())
}

/// A correlation needs at least two symbols.
pub fn check_correlation_symbols(count: usize) -> (r: Result<(), AnalyticsError>)
    ensures
        r is Ok <==> count >= 2,
        r matches Err(e) ==> is_invalid_param(e, "symbols"@, "need at least 2 symbols to correlate"@),
{
    if count < 2 {
        return Err(
            AnalyticsError::InvalidParam {
                name: owned("symbols"),
                reason: owned("need at least 2 symbols to correlate"),
            },
        );
    }
    Ok(())
}

/// A decimal result cell (the database returns decimals as text).
pub fn decimal_cell(text: String) -> (r: Result<DecimalValue, AnalyticsError>)
    ensures
        r matches Ok(d) ==> d.wf() && decimal_parse(text@) == Ok::<(int, nat), Seq<char>>(
            (d.mantissa as int, d.scale as nat),
        ),
        r is Err <==> decimal_parse(text@) is Err,
        r matches Err(e) ==> e matches AnalyticsError::Decimal { value, source } && value@ == text@
            && decimal_parse(text@) == Err::<(int, nat), Seq<char>>(source@),
{
    match DecimalValue::from_str(text.as_str()) {
        Ok(d) => Ok(d),
        Err(source) => Err(AnalyticsError::Decimal { value: text, source }),
    }
}

/// A decimal result cell that may be `NULL`.
pub fn decimal_cell_opt(text: Option<String>) -> (r: Result<Option<DecimalValue>, AnalyticsError>)
    ensures
        text is None ==> r == Ok::<Option<DecimalValue>, AnalyticsError>(None),
        text matches Some(t) ==> (r is Err <==> decimal_parse(t@) is Err),
        text matches Some(t) ==> (r matches Ok(Some(d)) ==> d.wf() && decimal_parse(t@) == Ok::<
            (int, nat),
            Seq<char>,
        >((d.mantissa as int, d.scale as nat))),
        text is Some ==> !(r matches Ok(None)),
{
    match text {
        None => Ok(None),
        Some(t) => match decimal_cell(t) {
            Ok(d) => Ok(Some(d)),
            Err(e) => Err(e),
        },
    }
}

} // verus!
