//! The command-line tool's rules: its configuration and the environment
//! overrides, the `--param key=value` lookups of `query`, day ranges of
//! `backfill` and `query`, and the bookkeeping of `backfill`, `stream`,
//! `compact` and `symbols`. Argument parsing, I/O and the event loop are
//! the program's.
use vstd::prelude::*;

use crate::error::invalid_interval_message;
use crate::interval::{interval_of_text, Interval};
use crate::text::{all_digits, chars_of, digit_value, is_digit, owned, push_char};

verus! {

/// Why std's integer parser refused a text (`IntErrorKind`).
#[derive(Debug, Clone, Copy, PartialEq, Eq)]
pub enum IntErrorKind {
    Empty,
    InvalidDigit,
    PosOverflow,
    NegOverflow,
}

/// The message std gives for each kind (`ParseIntError`'s `Display`).
pub open spec fn int_error_text(kind: IntErrorKind) -> Seq<char> {
    match kind {
        IntErrorKind::Empty => "cannot parse integer from empty string"@,
        IntErrorKind::InvalidDigit => "invalid digit found in string"@,
        IntErrorKind::PosOverflow => "number too large to fit in target type"@,
        IntErrorKind::NegOverflow => "number too small to fit in target type"@,
    }
}

/// std's digit loop: digits are read from the left, each one checked
/// before it is accumulated, and the running value checked against the
/// type's range after each digit.
pub open spec fn scan_digits(d: Seq<char>, acc: int, negative: bool, min: int, max: int) -> Result<int, IntErrorKind>
    decreases d.len(),
{
    if d.len() == 0 {
        Ok(acc)
    } else if !is_digit(d[0]) {
        Err(IntErrorKind::InvalidDigit)
    } else {
        let next = if negative {
            acc * 10 - digit_value(d[0])
        } else {
            acc * 10 + digit_value(d[0])
        };
        if next > max {
            Err(IntErrorKind::PosOverflow)
        } else if next < min {
            Err(IntErrorKind::NegOverflow)
        } else {
            scan_digits(d.drop_first(), next, negative, min, max)
        }
    }
}

/// What std's `FromStr` for an integer type with range `min..=max` makes of
/// a text: an empty text is refused, a lone sign is an invalid digit, a `+`
/// may lead, a `-` may lead for signed types, then decimal digits.
pub open spec fn int_parse(s: Seq<char>, signed: bool, min: int, max: int) -> Result<int, IntErrorKind> {
    if s.len() == 0 {
        Err(IntErrorKind::Empty)
    } else if (s[0] == '+' || s[0] == '-') && s.len() == 1 {
        Err(IntErrorKind::InvalidDigit)
    } else if s[0] == '+' {
        scan_digits(s.drop_first(), 0, false, min, max)
    } else if s[0] == '-' && signed {
        scan_digits(s.drop_first(), 0, true, min, max)
    } else {
        scan_digits(s, 0, false, min, max)
    }
}

proof fn lemma_scan_in_range(d: Seq<char>, acc: int, negative: bool, min: int, max: int)
    requires
        min <= acc <= max,
    ensures
        scan_digits(d, acc, negative, min, max) matches Ok(v) ==> min <= v <= max,
    decreases d.len(),
{
    if d.len() > 0 && is_digit(d[0]) {
        let next = if negative {
            acc * 10 - digit_value(d[0])
        } else {
            acc * 10 + digit_value(d[0])
        };
        if min <= next <= max {
            lemma_scan_in_range(d.drop_first(), next, negative, min, max);
        }
    }
}

/// std's integer parser for a type with range `min..=max` (at most the
/// range of `i64` and of `u64` together).
pub fn parse_int(s: &str, signed: bool, min: i128, max: i128) -> (r: Result<i128, IntErrorKind>)
    requires
        -0x8000_0000_0000_0000 <= min <= 0 < max <= 0xffff_ffff_ffff_ffff,
    ensures
        r == (match int_parse(s@, signed, min as int, max as int) {
            Ok(v) => Ok::<i128, IntErrorKind>(v as i128),
            Err(k) => Err(k),
        }),
        r matches Ok(v) ==> min <= v <= max,
        int_parse(s@, signed, min as int, max as int) matches Ok(v) ==> min <= v <= max,
{
    proof {
        if s@.len() > 0 {
            lemma_scan_in_range(s@.drop_first(), 0, true, min as int, max as int);
            lemma_scan_in_range(s@.drop_first(), 0, false, min as int, max as int);
        }
        lemma_scan_in_range(s@, 0, false, min as int, max as int);
    }
    let chars = chars_of(s);
    if chars.len() == 0 {
        return Err(IntErrorKind::Empty);
    }
    if (chars[0] == '+' || chars[0] == '-') && chars.len() == 1 {
        return Err(IntErrorKind::InvalidDigit);
    }
    let negative = chars[0] == '-' && signed;
    let start: usize = if chars[0] == '+' || negative {
        1
    } else {
        0
    };
    let ghost body = chars@.subrange(start as int, chars@.len() as int);
    proof {
        if start == 1 {
            assert(body == s@.drop_first());
        } else {
            assert(body == s@);
        }
        assert(int_parse(s@, signed, min as int, max as int) == scan_digits(body, 0, negative, min as int, max as int));
    }
    let mut acc: i128 = 0;
    let mut i = start;
    while i < chars.len()
        invariant
            chars@ == s@,
            start <= i <= chars@.len(),
            min <= acc <= max,
            -0x8000_0000_0000_0000 <= min <= 0 < max <= 0xffff_ffff_ffff_ffff,
            scan_digits(body, 0, negative, min as int, max as int) == scan_digits(
                chars@.subrange(i as int, chars@.len() as int),
                acc as int,
                negative,
                min as int,
                max as int,
            ),
            body == chars@.subrange(start as int, chars@.len() as int),
            int_parse(s@, signed, min as int, max as int) == scan_digits(body, 0, negative, min as int, max as int),
        decreases chars@.len() - i,
    {
        let c = chars[i];
        let rest = Ghost(chars@.subrange(i as int, chars@.len() as int));
        proof {
            assert(rest@.len() > 0);
            assert(rest@[0] == c);
            assert(rest@.drop_first() == chars@.subrange(i + 1, chars@.len() as int));
        }
        if !('0' <= c && c <= '9') {
            return Err(IntErrorKind::InvalidDigit);
        }
        let d = (c as u32 - '0' as u32) as i128;
        assert(d == digit_value(c));
        let next: i128 = if negative {
            acc * 10 - d
        } else {
            acc * 10 + d
        };
        if next > max {
            return Err(IntErrorKind::PosOverflow);
        }
        if next < min {
            return Err(IntErrorKind::NegOverflow);
        }
        acc = next;
        i = i + 1;
    }
    proof {
        assert(chars@.subrange(i as int, chars@.len() as int).len() == 0);
    }
    Ok(acc)
}

/// The message std gives for a refused integer text.
pub fn int_error_message(kind: IntErrorKind) -> (r: String)
    ensures
        r@ == int_error_text(kind),
{
    match kind {
        IntErrorKind::Empty => owned("cannot parse integer from empty string"),
        IntErrorKind::InvalidDigit => owned("invalid digit found in string"),
        IntErrorKind::PosOverflow => owned("number too large to fit in target type"),
        IntErrorKind::NegOverflow => owned("number too small to fit in target type"),
    }
}

/// The views of `(key, value)` parameters.
pub open spec fn params_view(params: Seq<(String, String)>) -> Seq<(Seq<char>, Seq<char>)> {
    params.map_values(|p: (String, String)| (p.0@, p.1@))
}

/// The value given for `key`; when a key is given more than once the last
/// value wins.
pub open spec fn param_lookup(params: Seq<(Seq<char>, Seq<char>)>, key: Seq<char>) -> Option<Seq<char>>
    decreases params.len(),
{
    if params.len() == 0 {
        None
    } else if params.last().0 == key {
        Some(params.last().1)
    } else {
        param_lookup(params.drop_last(), key)
    }
}

/// The value given for `key`, if any (the last one given).
pub fn param(params: &Vec<(String, String)>, key: &str) -> (r: Option<String>)
    ensures
        match r {
            Some(v) => param_lookup(params_view(params@), key@) == Some(v@),
            None => param_lookup(params_view(params@), key@) is None,
        },
{
    let mut i = params.len();
    proof {
        assert(params_view(params@).subrange(0, params@.len() as int) == params_view(params@));
    }
    while i > 0
        invariant
            i <= params@.len(),
            param_lookup(params_view(params@), key@) == param_lookup(params_view(params@).subrange(0, i as int), key@),
        decreases i,
    {
        let ghost pre = params_view(params@).subrange(0, i as int);
        proof {
            assert(pre.drop_last() == params_view(params@).subrange(0, i - 1));
            assert(pre.last() == (params@[i - 1].0@, params@[i - 1].1@));
        }
        if crate::interval::text_eq(params[i - 1].0.as_str(), key) {
            return Some(params[i - 1].1.clone());
        }
        i = i - 1;
    }
    None
}

/// `s` split at its first `=` into a key and a value (`--param key=value`).
pub open spec fn key_val_spec(s: Seq<char>) -> Option<(Seq<char>, Seq<char>)> {
    if exists|i: int| 0 <= i < s.len() && s[i] == '=' {
        let i = choose|i: int|
            0 <= i < s.len() && s[i] == '=' && forall|j: int| 0 <= j < i ==> s[j] != '=';
        Some((s.subrange(0, i), s.subrange(i + 1, s.len() as int)))
    } else {
        None
    }
}

/// Reads `key=value`, split at the first `=`.
pub fn parse_key_val(s: &str) -> (r: Result<(String, String), String>)
    ensures
        r is Ok <==> key_val_spec(s@) is Some,
        r matches Ok(kv) ==> key_val_spec(s@) == Some((kv.0@, kv.1@)),
        r matches Err(m) ==> m@ == "expected key=value, got '"@ + s@ + "'"@,
{
    let chars = chars_of(s);
    for i in 0..chars.len()
        invariant
            chars@ == s@,
            forall|j: int| 0 <= j < i ==> s@[j] != '=',
    {
        if chars[i] == '=' {
            let k = crate::text::slice_chars(&chars, 0, i);
            let v = crate::text::slice_chars(&chars, i + 1, chars.len());
            proof {
                let w = choose|w: int|
                    0 <= w < s@.len() && s@[w] == '=' && forall|j: int| 0 <= j < w ==> s@[j] != '=';
                assert(0 <= i < s@.len() && s@[i as int] == '=' && forall|j: int| 0 <= j < i ==> s@[j] != '=');
                if w < i {
                    assert(s@[w] != '=');
                } else if w > i {
                    assert(s@[i as int] != '=');
                }
            }
            return Ok(
                (crate::text::string_from_chars(k.as_slice()), crate::text::string_from_chars(v.as_slice())),
            );
        }
    }
    let mut m = owned("expected key=value, got '");
    m.append(s);
    m.append("'");
    Err(m)
}

/// The message for a refused `--param`.
pub open spec fn param_error_text(key: Seq<char>, reason: Seq<char>) -> Seq<char> {
    "--param "@ + key + ": "@ + reason
}

/// An integer `--param` with range `min..=max`, or `default` when absent.
pub open spec fn int_param_outcome(
    params: Seq<(Seq<char>, Seq<char>)>,
    key: Seq<char>,
    signed: bool,
    min: int,
    max: int,
    default: int,
) -> Result<int, Seq<char>> {
    match param_lookup(params, key) {
        None => Ok(default),
        Some(v) => match int_parse(v, signed, min, max) {
            Ok(n) => Ok(n),
            Err(k) => Err(param_error_text(key, int_error_text(k))),
        },
    }
}

/// An `i64` `--param`, or `default` when it is not given.
pub fn param_i64_or(params: &Vec<(String, String)>, key: &str, default: i64) -> (r: Result<i64, String>)
    ensures
        r is Ok <==> int_param_outcome(params_view(params@), key@, true, i64::MIN as int, i64::MAX as int, default as int) is Ok,
        r matches Ok(n) ==> int_param_outcome(params_view(params@), key@, true, i64::MIN as int, i64::MAX as int, default as int)
            == Ok::<int, Seq<char>>(n as int),
        r matches Err(e) ==> int_param_outcome(params_view(params@), key@, true, i64::MIN as int, i64::MAX as int, default as int)
            == Err::<int, Seq<char>>(e@),
{
    match param(params, key) {
        None => Ok(default),
        Some(v) => match parse_int(v.as_str(), true, i64::MIN as i128, i64::MAX as i128) {
            Ok(n) => Ok(n as i64),
            Err(k) => {
                let mut m = owned("--param ");
                m.append(key);
                m.append(": ");
                let t = int_error_message(k);
                m.append(t.as_str());
                proof {
                    assert(m@ == param_error_text(key@, int_error_text(k)));
                }
                Err(m)
            },
        },
    }
}

/// A `u32` `--param`, or `default` when it is not given.
pub fn param_u32_or(params: &Vec<(String, String)>, key: &str, default: u32) -> (r: Result<u32, String>)
    ensures
        r is Ok <==> int_param_outcome(params_view(params@), key@, false, 0, u32::MAX as int, default as int) is Ok,
        r matches Ok(n) ==> int_param_outcome(params_view(params@), key@, false, 0, u32::MAX as int, default as int)
            == Ok::<int, Seq<char>>(n as int),
        r matches Err(e) ==> int_param_outcome(params_view(params@), key@, false, 0, u32::MAX as int, default as int)
            == Err::<int, Seq<char>>(e@),
{
    match param(params, key) {
        None => Ok(default),
        Some(v) => match parse_int(v.as_str(), false, 0, u32::MAX as i128) {
            Ok(n) => Ok(n as u32),
            Err(k) => {
                let mut m = owned("--param ");
                m.append(key);
                m.append(": ");
                let t = int_error_message(k);
                m.append(t.as_str());
                proof {
                    assert(m@ == param_error_text(key@, int_error_text(k)));
                }
                Err(m)
            },
        },
    }
}

/// The exchange a query reads (`binance` unless `exchange` is given).
pub fn exchange_param(params: &Vec<(String, String)>) -> (r: String)
    ensures
        r@ == (match param_lookup(params_view(params@), "exchange"@) {
            Some(v) => v,
            None => "binance"@,
        }),
{
    match param(params, "exchange") {
        Some(v) => v,
        None => owned("binance"),
    }
}

/// The interval a query reads (`1m` unless `interval` is given).
pub fn interval_param(params: &Vec<(String, String)>) -> (r: Result<Interval, String>)
    ensures
        ({
            let raw = match param_lookup(params_view(params@), "interval"@) {
                Some(v) => v,
                None => "1m"@,
            };
            &&& r is Ok <==> interval_of_text(raw) is Some
            &&& r matches Ok(i) ==> interval_of_text(raw) == Some(i)
            &&& r matches Err(m) ==> m@ == param_error_text("interval"@, invalid_interval_message(raw))
        }),
{
    proof {
        reveal_strlit("1m");
        reveal_strlit("--param interval: ");
        reveal_strlit("--param ");
        reveal_strlit("interval");
        reveal_strlit(": ");
    }
    let raw = match param(params, "interval") {
        Some(v) => v,
        None => owned("1m"),
    };
    match Interval::from_str(raw.as_str()) {
        Ok(i) => Ok(i),
        Err(e) => {
            let mut m = owned("--param interval: ");
            let t = e.message();
            m.append(t.as_str());
            Err(m)
        },
    }
}

/// Whether a candle is closed.
pub open spec fn closed_kline() -> spec_fn(crate::model::Kline) -> bool {
    |k: crate::model::Kline| k.is_closed
}

/// Whether a candle is still forming.
pub open spec fn open_kline() -> spec_fn(crate::model::Kline) -> bool {
    |k: crate::model::Kline| !k.is_closed
}

/// A backfill's candles split into the closed ones, in order, which are
/// stored, and the count of still-forming ones, which are skipped.
pub fn split_closed(klines: Vec<crate::model::Kline>) -> (r: (Vec<crate::model::Kline>, usize))
    ensures
        r.0@ == klines@.filter(closed_kline()),
        r.1 == klines@.filter(open_kline()).len(),
{
    let ghost all = klines@;
    let n = klines.len();
    let mut closed: Vec<crate::model::Kline> = Vec::new();
    let mut incomplete: usize = 0;
    for k in it: klines
        invariant
            it.seq() == all,
            all.len() == n,
            closed@ == all.subrange(0, it.index() as int).filter(closed_kline()),
            incomplete == all.subrange(0, it.index() as int).filter(open_kline()).len(),
            incomplete <= it.index(),
    {
        proof {
            let i = it.index() as int;
            assert(all.subrange(0, i + 1) == all.subrange(0, i).push(k));
            all.subrange(0, i).lemma_filter_push(k, closed_kline());
            all.subrange(0, i).lemma_filter_push(k, open_kline());
            all.subrange(0, i).lemma_filter_len(open_kline());
        }
        if k.is_closed {
            closed.push(k);
        } else {
            incomplete = incomplete + 1;
        }
    }
    proof {
        assert(all.subrange(0, all.len() as int) == all);
    }
    (closed, incomplete)
}

/// The latest open time among candles, if there are any.
pub open spec fn max_open_time_spec(klines: Seq<crate::model::Kline>) -> Option<i64>
    decreases klines.len(),
{
    if klines.len() == 0 {
        None
    } else {
        match max_open_time_spec(klines.drop_last()) {
            Some(m) => Some(if klines.last().open_time > m {
                klines.last().open_time
            } else {
                m
            }),
            None => Some(klines.last().open_time),
        }
    }
}

/// The latest open time among the candles, which the collector state
/// records after a backfill.
pub fn max_open_time(klines: &Vec<crate::model::Kline>) -> (r: Option<i64>)
    ensures
        r == max_open_time_spec(klines@),
{
    let mut best: Option<i64> = None;
    for i in 0..klines.len()
        invariant
            best == max_open_time_spec(klines@.subrange(0, i as int)),
    {
        proof {
            let pre = klines@.subrange(0, i + 1);
            assert(pre.drop_last() == klines@.subrange(0, i as int));
            assert(pre.last() == klines@[i as int]);
        }
        let t = klines[i].open_time;
        best = match best {
            Some(m) => Some(if t > m {
                t
            } else {
                m
            }),
            None => Some(t),
        };
    }
    proof {
        assert(klines@.subrange(0, klines@.len() as int) == klines@);
    }
    best
}

/// What a backfill of one symbol reports: how many candles were fetched,
/// written, skipped as already stored, and skipped as still forming.
#[derive(Debug, Clone, Copy, PartialEq, Eq)]
pub struct BackfillSummary {
    pub fetched: usize,
    pub written: usize,
    pub skipped_duplicates: usize,
    pub skipped_incomplete: usize,
}

/// The summary of a backfill: what was fetched but neither written nor
/// still forming was already stored.
pub fn backfill_summary(fetched: usize, written: usize, incomplete: usize) -> (r: BackfillSummary)
    ensures
        r.fetched == fetched,
        r.written == written,
        r.skipped_incomplete == incomplete,
        r.skipped_duplicates == ({
            let a = if fetched >= written {
                fetched - written
            } else {
                0
            };
            if a >= incomplete {
                a - incomplete
            } else {
                0
            }
        }),
{
    BackfillSummary {
        fetched,
        written,
        skipped_duplicates: fetched.saturating_sub(written).saturating_sub(incomplete),
        skipped_incomplete: incomplete,
    }
}

/// The latest instant recorded for `symbol` among `rows`, if it occurs.
pub open spec fn latest_for(rows: Seq<(Seq<char>, i64)>, symbol: Seq<char>) -> Option<i64>
    decreases rows.len(),
{
    if rows.len() == 0 {
        None
    } else {
        let rest = latest_for(rows.drop_last(), symbol);
        if rows.last().0 == symbol {
            match rest {
                Some(m) => Some(if rows.last().1 > m {
                    rows.last().1
                } else {
                    m
                }),
                None => Some(rows.last().1),
            }
        } else {
            rest
        }
    }
}

/// The views of `(symbol, instant)` rows.
pub open spec fn rows_view(rows: Seq<(String, i64)>) -> Seq<(Seq<char>, i64)> {
    rows.map_values(|r: (String, i64)| (r.0@, r.1))
}

proof fn lemma_latest_for_some(rows: Seq<(Seq<char>, i64)>, symbol: Seq<char>)
    ensures
        latest_for(rows, symbol) is Some <==> exists|i: int| 0 <= i < rows.len() && (#[trigger] rows[i]).0 == symbol,
    decreases rows.len(),
{
    if rows.len() > 0 {
        lemma_latest_for_some(rows.drop_last(), symbol);
        if exists|i: int| 0 <= i < rows.len() && (#[trigger] rows[i]).0 == symbol {
            let i = choose|i: int| 0 <= i < rows.len() && (#[trigger] rows[i]).0 == symbol;
            if i < rows.len() - 1 {
                assert(rows.drop_last()[i] == rows[i]);
            }
        }
        if exists|i: int| 0 <= i < rows.len() - 1 && (#[trigger] rows.drop_last()[i]).0 == symbol {
            let i = choose|i: int| 0 <= i < rows.len() - 1 && (#[trigger] rows.drop_last()[i]).0 == symbol;
            assert(rows[i] == rows.drop_last()[i]);
        }
    }
}

/// Whether `sym` is the symbol of one of `out`'s entries.
pub open spec fn has_symbol(out: Seq<(String, i64)>, sym: Seq<char>) -> bool {
    exists|i: int| 0 <= i < out.len() && out[i].0@ == sym
}

/// For each symbol among `rows`, its latest instant: every symbol that
/// occurs appears once, with the largest instant recorded for it.
pub fn max_timestamp_per_symbol(rows: &Vec<(String, i64)>) -> (r: Vec<(String, i64)>)
    ensures
        forall|i: int| 0 <= i < r@.len() ==> latest_for(rows_view(rows@), (#[trigger] r@[i]).0@) == Some(r@[i].1),
        forall|i: int, j: int| 0 <= i < j < r@.len() ==> (#[trigger] r@[i]).0@ != (#[trigger] r@[j]).0@,
        forall|k: int| 0 <= k < rows@.len() ==> has_symbol(r@, (#[trigger] rows@[k]).0@),
{
    let ghost all = rows_view(rows@);
    let mut out: Vec<(String, i64)> = Vec::new();
    for k in 0..rows.len()
        invariant
            all == rows_view(rows@),
            forall|i: int| 0 <= i < out@.len() ==> latest_for(all.subrange(0, k as int), (#[trigger] out@[i]).0@) == Some(out@[i].1),
            forall|i: int, j: int| 0 <= i < j < out@.len() ==> (#[trigger] out@[i]).0@ != (#[trigger] out@[j]).0@,
            forall|m: int| 0 <= m < k ==> has_symbol(out@, (#[trigger] rows@[m]).0@),
    {
        let ghost pre = all.subrange(0, k as int);
        let ghost next = all.subrange(0, k + 1);
        proof {
            assert(next.drop_last() == pre);
            assert(next.last() == (rows@[k as int].0@, rows@[k as int].1));
        }
        let sym = &rows[k].0;
        let ts = rows[k].1;
        let mut p: usize = 0;
        while p < out.len() && !crate::interval::text_eq(out[p].0.as_str(), sym.as_str())
            invariant
                p <= out@.len(),
                forall|j: int| 0 <= j < p ==> (#[trigger] out@[j]).0@ != sym@,
            decreases out@.len() - p,
        {
            p = p + 1;
        }
        let found = p;
        let ghost before = out@;
        if found < out.len() {
            proof {
                assert(out@[found as int].0@ == sym@);
            }
            let m = out[found].1;
            let newer = if ts > m {
                ts
            } else {
                m
            };
            let name = out[found].0.clone();
            out.set(found, (name, newer));
            proof {
                assert forall|i: int| 0 <= i < out@.len() implies latest_for(next, (#[trigger] out@[i]).0@) == Some(out@[i].1) by {
                    if i != found {
                        assert(out@[i] == before[i]);
                        assert(before[i].0@ != sym@);
                    }
                }
                assert forall|i: int, j: int| 0 <= i < j < out@.len() implies (#[trigger] out@[i]).0@ != (#[trigger] out@[j]).0@ by {
                    assert(out@[i].0@ == before[i].0@);
                    assert(out@[j].0@ == before[j].0@);
                }
                assert forall|mm: int| 0 <= mm < k + 1 implies has_symbol(out@, (#[trigger] rows@[mm]).0@) by {
                    if mm < k {
                        assert(has_symbol(before, rows@[mm].0@));
                        let i = choose|i: int| 0 <= i < before.len() && before[i].0@ == rows@[mm].0@;
                        assert(out@[i].0@ == before[i].0@);
                    } else {
                        assert(out@[found as int].0@ == rows@[mm].0@);
                    }
                }
            }
        } else {
            proof {
                lemma_latest_for_some(pre, sym@);
                assert forall|m2: int| 0 <= m2 < k implies (#[trigger] rows@[m2]).0@ != sym@ by {
                    assert(has_symbol(before, rows@[m2].0@));
                    let i = choose|i: int| 0 <= i < before.len() && before[i].0@ == rows@[m2].0@;
                    assert(before[i].0@ != sym@);
                }
                assert forall|i: int| 0 <= i < k implies (#[trigger] pre[i]).0 != sym@ by {
                    assert(pre[i].0 == rows@[i].0@);
                }
            }
            out.push((sym.clone(), ts));
            proof {
                assert forall|i: int| 0 <= i < out@.len() implies latest_for(next, (#[trigger] out@[i]).0@) == Some(out@[i].1) by {
                    if i < before.len() {
                        assert(out@[i] == before[i]);
                        assert(before[i].0@ != sym@);
                    }
                }
                assert forall|mm: int| 0 <= mm < k + 1 implies has_symbol(out@, (#[trigger] rows@[mm]).0@) by {
                    if mm < k {
                        assert(has_symbol(before, rows@[mm].0@));
                        let i = choose|i: int| 0 <= i < before.len() && before[i].0@ == rows@[mm].0@;
                        assert(out@[i] == before[i]);
                    } else {
                        assert(out@[before.len() as int].0@ == rows@[mm].0@);
                    }
                }
            }
        }
    }
    proof {
        assert(all.subrange(0, rows@.len() as int) == all);
    }
    out
}

/// The tool's configuration. Paths are texts.
#[derive(Debug, Clone)]
pub struct AppConfig {
    pub data_dir: String,
    pub meta_db_path: String,
    pub binance_base_url: String,
    pub requests_per_second: u32,
    pub api_max_date_range_days: i64,
    pub api_db_pool_size: usize,
    pub api_cors_origin: String,
    pub api_max_ws_connections: usize,
}

impl AppConfig {
    /// Data under `data`, the metadata database at `data/meta.duckdb`,
    /// Binance's public API, 5 requests per second, a 366-day widest date
    /// range, 4 pooled connections, the local front-end as the allowed
    /// origin and 64 live stream clients.
    pub fn default() -> (r: AppConfig)
        ensures
            r.data_dir@ == "data"@,
            r.meta_db_path@ == "data/meta.duckdb"@,
            r.binance_base_url@ == "https://api.binance.com"@,
            r.requests_per_second == 5,
            r.api_max_date_range_days == 366,
            r.api_db_pool_size == 4,
            r.api_cors_origin@ == "http://localhost:5173"@,
            r.api_max_ws_connections == 64,
    {
        AppConfig {
            data_dir: owned("data"),
            meta_db_path: owned("data/meta.duckdb"),
            binance_base_url: owned("https://api.binance.com"),
            requests_per_second: 5,
            api_max_date_range_days: 366,
            api_db_pool_size: 4,
            api_cors_origin: owned("http://localhost:5173"),
            api_max_ws_connections: 64,
        }
    }
}

/// The values of the `MA_*` environment variables that are set.
#[derive(Debug, Clone)]
pub struct EnvOverrides {
    pub data_dir: Option<String>,
    pub meta_db_path: Option<String>,
    pub binance_base_url: Option<String>,
    pub requests_per_second: Option<String>,
    pub api_max_date_range_days: Option<String>,
    pub api_db_pool_size: Option<String>,
    pub api_cors_origin: Option<String>,
    pub api_max_ws_connections: Option<String>,
}

/// A refused configuration value: what is wrong, and the parser's reason.
#[derive(Debug, Clone)]
pub struct ConfigError {
    pub message: String,
    pub cause: String,
}

/// A text setting after an override.
pub open spec fn overridden(v: Option<String>, current: String) -> Seq<char> {
    match v {
        Some(t) => t@,
        None => current@,
    }
}

/// A numeric setting after an override.
pub open spec fn overridden_int(v: Option<String>, signed: bool, min: int, max: int, current: int) -> Result<int, IntErrorKind> {
    match v {
        Some(t) => int_parse(t@, signed, min, max),
        None => Ok(current),
    }
}

fn override_int(
    v: &Option<String>,
    signed: bool,
    min: i128,
    max: i128,
    current: i128,
    message: &str,
) -> (r: Result<i128, ConfigError>)
    requires
        -0x8000_0000_0000_0000 <= min <= 0 < max <= 0xffff_ffff_ffff_ffff,
        min <= current <= max,
    ensures
        r is Ok <==> overridden_int(*v, signed, min as int, max as int, current as int) is Ok,
        r matches Ok(n) ==> overridden_int(*v, signed, min as int, max as int, current as int) == Ok::<
            int,
            IntErrorKind,
        >(n as int) && min <= n <= max,
        r matches Err(e) ==> e.message@ == message@ && overridden_int(*v, signed, min as int, max as int, current as int)
            == Err::<int, IntErrorKind>(int_error_kind_of(e.cause@)),
{
    match v {
        None => Ok(current),
        Some(t) => match parse_int(t.as_str(), signed, min, max) {
            Ok(n) => Ok(n),
            Err(k) => {
                let cause = int_error_message(k);
                proof {
                    lemma_int_error_kind_of(k);
                }
                Err(ConfigError { message: owned(message), cause })
            },
        },
    }
}

/// The kind of integer error a message names.
pub open spec fn int_error_kind_of(text: Seq<char>) -> IntErrorKind {
    if text == int_error_text(IntErrorKind::Empty) {
        IntErrorKind::Empty
    } else if text == int_error_text(IntErrorKind::InvalidDigit) {
        IntErrorKind::InvalidDigit
    } else if text == int_error_text(IntErrorKind::PosOverflow) {
        IntErrorKind::PosOverflow
    } else {
        IntErrorKind::NegOverflow
    }
}

proof fn lemma_int_error_kind_of(k: IntErrorKind)
    ensures
        int_error_kind_of(int_error_text(k)) == k,
{
    reveal_strlit("cannot parse integer from empty string");
    reveal_strlit("invalid digit found in string");
    reveal_strlit("number too large to fit in target type");
    reveal_strlit("number too small to fit in target type");
    let e = int_error_text(IntErrorKind::Empty);
    let i = int_error_text(IntErrorKind::InvalidDigit);
    let p = int_error_text(IntErrorKind::PosOverflow);
    let n = int_error_text(IntErrorKind::NegOverflow);
    assert(e[0] != i[0]);
    assert(p[0] != e[0] && p[0] != i[0]);
    assert(n[0] != e[0] && n[0] != i[0]);
    assert(n[11] != p[11]);
}

/// The configuration with the environment's overrides applied, in this
/// order: data directory, metadata database, base URL, requests per second,
/// widest date range, pool size, allowed origin, live stream clients. The
/// first numeric value that does not parse refuses the whole configuration.
pub fn with_env_overrides(cfg: AppConfig, env: &EnvOverrides) -> (r: Result<AppConfig, ConfigError>)
    ensures
        ({
            let rps = overridden_int(env.requests_per_second, false, 0, u32::MAX as int, cfg.requests_per_second as int);
            let days = overridden_int(
                env.api_max_date_range_days,
                true,
                i64::MIN as int,
                i64::MAX as int,
                cfg.api_max_date_range_days as int,
            );
            let pool = overridden_int(env.api_db_pool_size, false, 0, usize::MAX as int, cfg.api_db_pool_size as int);
            let ws = overridden_int(
                env.api_max_ws_connections,
                false,
                0,
                usize::MAX as int,
                cfg.api_max_ws_connections as int,
            );
            &&& r is Ok <==> rps is Ok && days is Ok && pool is Ok && ws is Ok
            &&& r matches Ok(c) ==> {
                &&& c.data_dir@ == overridden(env.data_dir, cfg.data_dir)
                &&& c.meta_db_path@ == overridden(env.meta_db_path, cfg.meta_db_path)
                &&& c.binance_base_url@ == overridden(env.binance_base_url, cfg.binance_base_url)
                &&& c.requests_per_second == rps->Ok_0
                &&& c.api_max_date_range_days == days->Ok_0
                &&& c.api_db_pool_size == pool->Ok_0
                &&& c.api_cors_origin@ == overridden(env.api_cors_origin, cfg.api_cors_origin)
                &&& c.api_max_ws_connections == ws->Ok_0
            }
            &&& rps is Err ==> (r matches Err(e) && e.message@
                == "MA_REQUESTS_PER_SECOND must be a positive integer"@ && rps == Err::<int, IntErrorKind>(
                int_error_kind_of(e.cause@),
            ))
            &&& (rps is Ok && days is Err) ==> (r matches Err(e) && e.message@
                == "MA_API_MAX_DATE_RANGE_DAYS must be a positive integer"@ && days == Err::<
                int,
                IntErrorKind,
            >(int_error_kind_of(e.cause@)))
            &&& (rps is Ok && days is Ok && pool is Err) ==> (r matches Err(e) && e.message@
                == "MA_API_DB_POOL_SIZE must be a positive integer"@ && pool == Err::<int, IntErrorKind>(
                int_error_kind_of(e.cause@),
            ))
            &&& (rps is Ok && days is Ok && pool is Ok && ws is Err) ==> (r matches Err(e)
                && e.message@ == "MA_API_MAX_WS_CONNECTIONS must be a positive integer"@ && ws == Err::<
                int,
                IntErrorKind,
            >(int_error_kind_of(e.cause@)))
        }),
{
    let mut cfg = cfg;
    if let Some(v) = &env.data_dir {
        cfg.data_dir = v.clone();
    }
    if let Some(v) = &env.meta_db_path {
        cfg.meta_db_path = v.clone();
    }
    if let Some(v) = &env.binance_base_url {
        cfg.binance_base_url = v.clone();
    }
    let rps = override_int(
        &env.requests_per_second,
        false,
        0,
        u32::MAX as i128,
        cfg.requests_per_second as i128,
        "MA_REQUESTS_PER_SECOND must be a positive integer",
    )?;
    cfg.requests_per_second = rps as u32;
    let days = override_int(
        &env.api_max_date_range_days,
        true,
        i64::MIN as i128,
        i64::MAX as i128,
        cfg.api_max_date_range_days as i128,
        "MA_API_MAX_DATE_RANGE_DAYS must be a positive integer",
    )?;
    cfg.api_max_date_range_days = days as i64;
    let pool = override_int(
        &env.api_db_pool_size,
        false,
        0,
        usize::MAX as i128,
        cfg.api_db_pool_size as i128,
        "MA_API_DB_POOL_SIZE must be a positive integer",
    )?;
    cfg.api_db_pool_size = pool as usize;
    if let Some(v) = &env.api_cors_origin {
        cfg.api_cors_origin = v.clone();
    }
    let ws = override_int(
        &env.api_max_ws_connections,
        false,
        0,
        usize::MAX as i128,
        cfg.api_max_ws_connections as i128,
        "MA_API_MAX_WS_CONNECTIONS must be a positive integer",
    )?;
    cfg.api_max_ws_connections = ws as usize;
    Ok(cfg)
}

/// Milliseconds in a day.
pub open spec fn day_millis() -> int {
    86_400_000
}

/// The day bounds of a `--from`/`--to` range: `from` at midnight UTC and
/// the midnight after `to`, or why the range is refused.
pub open spec fn day_bounds_spec(from_day: int, to_day: int) -> Result<(int, int), Seq<char>> {
    if !crate::time::epoch_day_has_successor(to_day) {
        Err("--to is out of range"@)
    } else if from_day * day_millis() >= (to_day + 1) * day_millis() {
        Err("--from must be strictly before --to"@)
    } else {
        Ok((from_day * day_millis(), (to_day + 1) * day_millis()))
    }
}

/// `[from midnight, midnight after to)` in milliseconds, for calendar days
/// counted from 1970-01-01.
pub fn day_bounds_at(from_day: i64, to_day: i64) -> (r: Result<(i64, i64), String>)
    requires
        -100_000_000 <= from_day <= 100_000_000,
        -100_000_000 <= to_day <= 100_000_000,
    ensures
        match day_bounds_spec(from_day as int, to_day as int) {
            Ok(b) => r matches Ok(p) && p.0 == b.0 && p.1 == b.1,
            Err(m) => r matches Err(e) && e@ == m,
        },
{
    let from_ms = from_day * 86_400_000;
    if !crate::time::day_has_successor(to_day) {
        return Err(owned("--to is out of range"));
    }
    let to_exclusive = (to_day + 1) * 86_400_000;
    if from_ms >= to_exclusive {
        return Err(owned("--from must be strictly before --to"));
    }
    Ok((from_ms, to_exclusive))
}

/// The day bounds with `to` defaulting to today (by the clock). A clock
/// reading outside the calendar is refused.
fn day_bounds(from_day: i64, to_day: Option<i64>) -> (r: Result<(i64, i64), String>)
    requires
        -100_000_000 <= from_day <= 100_000_000,
        to_day matches Some(t) ==> -100_000_000 <= t <= 100_000_000,
    ensures
        to_day matches Some(t) ==> match day_bounds_spec(from_day as int, t as int) {
            Ok(b) => r matches Ok(p) && p.0 == b.0 && p.1 == b.1,
            Err(m) => r matches Err(e) && e@ == m,
        },
        r matches Ok(p) ==> p.0 < p.1 && p.0 == from_day * day_millis(),
{
    let to = match to_day {
        Some(t) => t,
        None => crate::time::today_day(),
    };
    if to < -100_000_000 || to > 100_000_000 {
        return Err(owned("--to is out of range"));
    }
    day_bounds_at(from_day, to)
}

/// A `--from`/`--to` day range as inclusive instants: `from` at
/// 00:00:00.000 and `to` (today by default) at 23:59:59.999 UTC, in
/// milliseconds. For REST backfills, inclusive on both ends.
pub fn day_range_utc(from_day: i64, to_day: Option<i64>) -> (r: Result<(i64, i64), String>)
    requires
        -100_000_000 <= from_day <= 100_000_000,
        to_day matches Some(t) ==> -100_000_000 <= t <= 100_000_000,
    ensures
        to_day matches Some(t) ==> match day_bounds_spec(from_day as int, t as int) {
            Ok(b) => r matches Ok(p) && p.0 == b.0 && p.1 == b.1 - 1,
            Err(m) => r matches Err(e) && e@ == m,
        },
        r matches Ok(p) ==> p.0 <= p.1 && p.0 == from_day * day_millis(),
{
    let (from, to_exclusive) = day_bounds(from_day, to_day)?;
    Ok((from, to_exclusive - 1))
}

/// The same range with an exclusive end (`ts < to`), for analytics
/// queries.
pub fn day_range_utc_exclusive_end(from_day: i64, to_day: Option<i64>) -> (r: Result<(i64, i64), String>)
    requires
        -100_000_000 <= from_day <= 100_000_000,
        to_day matches Some(t) ==> -100_000_000 <= t <= 100_000_000,
    ensures
        to_day matches Some(t) ==> match day_bounds_spec(from_day as int, t as int) {
            Ok(b) => r matches Ok(p) && p.0 == b.0 && p.1 == b.1,
            Err(m) => r matches Err(e) && e@ == m,
        },
        r matches Ok(p) ==> p.0 < p.1 && p.0 == from_day * day_millis(),
{
    day_bounds(from_day, to_day)
}

/// What the `from`/`to` day parameters of a query give, with `today` (a
/// calendar day) standing for an absent `to`: the exclusive-end range in
/// milliseconds, or the message refusing it.
pub open spec fn date_range_outcome(params: Seq<(Seq<char>, Seq<char>)>, today: int) -> Result<(int, int), Seq<char>> {
    match param_lookup(params, "from"@) {
        None => Err("this query needs --param from=<YYYY-MM-DD>"@),
        Some(f) => match crate::time::naive_date_from_str(f) {
            Err(m) => Err(param_error_text("from"@, m)),
            Ok(fd) => match param_lookup(params, "to"@) {
                Some(t) => match crate::time::naive_date_from_str(t) {
                    Err(m) => Err(param_error_text("to"@, m)),
                    Ok(td) => day_bounds_spec(fd, td),
                },
                None => if -100_000_000 <= today <= 100_000_000 {
                    day_bounds_spec(fd, today)
                } else {
                    Err("--to is out of range"@)
                },
            },
        },
    }
}

/// Whether a computed range is the outcome `o`: the same bounds, or the
/// same message.
pub open spec fn range_result_is(r: Result<(i64, i64), String>, o: Result<(int, int), Seq<char>>) -> bool {
    match o {
        Ok(b) => r matches Ok(x) && x.0 == b.0 && x.1 == b.1,
        Err(m) => r matches Err(e) && e@ == m,
    }
}

/// The `from`/`to` day parameters of a query as an exclusive-end range,
/// with `today` standing for an absent `to`.
pub fn date_range_param_at(params: &Vec<(String, String)>, today: i64) -> (r: Result<(i64, i64), String>)
    ensures
        range_result_is(r, date_range_outcome(params_view(params@), today as int)),
{
    proof {
        reveal_strlit("--param ");
        reveal_strlit("from");
        reveal_strlit("to");
        reveal_strlit(": ");
        reveal_strlit("--param from: ");
        reveal_strlit("--param to: ");
        assert("--param from: "@ =~= "--param "@ + "from"@ + ": "@);
        assert("--param to: "@ =~= "--param "@ + "to"@ + ": "@);
    }
    let from = match param(params, "from") {
        Some(v) => v,
        None => return Err(owned("this query needs --param from=<YYYY-MM-DD>")),
    };
    let from_day = match crate::time::parse_day(from.as_str()) {
        Ok(d) => d,
        Err(m) => {
            let mut e = owned("--param from: ");
            e.append(m.as_str());
            return Err(e);
        },
    };
    let to_day = match param(params, "to") {
        Some(v) => match crate::time::parse_day(v.as_str()) {
            Ok(d) => d,
            Err(m) => {
                let mut e = owned("--param to: ");
                e.append(m.as_str());
                return Err(e);
            },
        },
        None => {
            if today < -100_000_000 || today > 100_000_000 {
                return Err(owned("--to is out of range"));
            }
            today
        },
    };
    day_bounds_at(from_day, to_day)
}

/// The `from`/`to` day parameters of a query, as an exclusive-end range:
/// `from` is required, `to` defaults to today by the clock. The outcome is
/// `date_range_outcome` for the clock's day; when `to` is given it does not
/// depend on the clock.
pub fn date_range_param(params: &Vec<(String, String)>) -> (r: Result<(i64, i64), String>)
    ensures
        exists|today: int| range_result_is(r, #[trigger] date_range_outcome(params_view(params@), today)),
        param_lookup(params_view(params@), "to"@) is Some ==> range_result_is(
            r,
            date_range_outcome(params_view(params@), 0),
        ),
{
    let today = crate::time::today_day();
    let r = date_range_param_at(params, today);
    proof {
        assert(range_result_is(r, date_range_outcome(params_view(params@), today as int)));
    }
    r
}

/// Which dataset `stream` collects.
#[derive(Debug, Clone, Copy, PartialEq, Eq)]
pub enum Dataset {
    Trades,
    Klines,
}

/// How `query` prints its rows.
#[derive(Debug, Clone, Copy, PartialEq, Eq)]
pub enum OutputFormat {
    Table,
    Json,
    Csv,
}

/// Arguments of `stream`.
#[derive(Debug, Clone)]
pub struct StreamArgs {
    pub symbols: Vec<String>,
    pub dataset: Dataset,
}

/// Arguments of `query`.
#[derive(Debug, Clone)]
pub struct QueryArgs {
    pub name: String,
    pub symbol: String,
    pub params: Vec<(String, String)>,
    pub format: OutputFormat,
}

/// Arguments of `symbols`.
#[derive(Debug, Clone, Copy)]
pub struct SymbolsArgs {
    pub refresh: bool,
}

/// Arguments of `serve`.
#[derive(Debug, Clone, Copy)]
pub struct ServeArgs {
    pub port: u16,
}

/// The interval `stream` collects candles at: the finest one.
pub open spec fn stream_interval() -> Interval {
    Interval::OneMinute
}

/// The live stream `stream` subscribes to for a dataset: trades, or
/// one-minute candles.
pub fn stream_kind_for(dataset: Dataset) -> (r: crate::model::StreamKind)
    ensures
        r == (match dataset {
            Dataset::Trades => crate::model::StreamKind::Trade,
            Dataset::Klines => crate::model::StreamKind::Kline(stream_interval()),
        }),
{
    match dataset {
        Dataset::Trades => crate::model::StreamKind::Trade,
        Dataset::Klines => crate::model::StreamKind::Kline(Interval::OneMinute),
    }
}

/// What `stream` does with a live event.
#[derive(Debug, Clone, Copy, PartialEq, Eq)]
pub enum EventAction {
    /// Buffer the candle for the next kline flush.
    BufferKline,
    /// Buffer the trade for the next trade flush.
    BufferTrade,
    /// Nothing is stored.
    Skip,
}

/// A candle is stored only once closed (the still-forming candle is re-sent
/// about once a second, and a stored file can never be corrected); trades
/// are stored; order-book updates are not.
pub fn event_action(event: &crate::model::MarketEvent) -> (r: EventAction)
    ensures
        r == (match *event {
            crate::model::MarketEvent::Kline(k) => if k.is_closed {
                EventAction::BufferKline
            } else {
                EventAction::Skip
            },
            crate::model::MarketEvent::Trade(_) => EventAction::BufferTrade,
            crate::model::MarketEvent::DepthUpdate(_) => EventAction::Skip,
        }),
{
    match event {
        crate::model::MarketEvent::Kline(k) => if k.is_closed {
            EventAction::BufferKline
        } else {
            EventAction::Skip
        },
        crate::model::MarketEvent::Trade(_) => EventAction::BufferTrade,
        crate::model::MarketEvent::DepthUpdate(_) => EventAction::Skip,
    }
}

/// The registry records of a refreshed instrument list, in listing order,
/// all under `exchange`.
pub fn records_from_instruments(exchange: &str, instruments: Vec<crate::model::Instrument>) -> (r: Vec<crate::meta::SymbolRecord>)
    ensures
        r@.len() == instruments@.len(),
        forall|i: int| 0 <= i < r@.len() ==> {
            &&& (#[trigger] r@[i]).exchange@ == exchange@
            &&& r@[i].symbol@ == instruments@[i].symbol@
            &&& r@[i].base_asset@ == instruments@[i].base_asset@
            &&& r@[i].quote_asset@ == instruments@[i].quote_asset@
            &&& r@[i].status@ == instruments@[i].status@
        },
{
    let mut out: Vec<crate::meta::SymbolRecord> = Vec::new();
    for i in 0..instruments.len()
        invariant
            out@.len() == i,
            forall|j: int| 0 <= j < i ==> {
                &&& (#[trigger] out@[j]).exchange@ == exchange@
                &&& out@[j].symbol@ == instruments@[j].symbol@
                &&& out@[j].base_asset@ == instruments@[j].base_asset@
                &&& out@[j].quote_asset@ == instruments@[j].quote_asset@
                &&& out@[j].status@ == instruments@[j].status@
            },
    {
        let ins = &instruments[i];
        out.push(
            crate::meta::SymbolRecord {
                exchange: owned(exchange),
                symbol: ins.symbol.to_string(),
                base_asset: ins.base_asset.clone(),
                quote_asset: ins.quote_asset.clone(),
                status: ins.status.clone(),
            },
        );
    }
    out
}

/// The API limits `serve` runs with: the configured widest date range and
/// live-client cap, pages of 1000 rows by default and 10000 at most, and at
/// most 10 symbols per correlation.
pub fn api_limits(cfg: &AppConfig) -> (r: crate::api::ApiLimits)
    ensures
        r.max_date_range_days == cfg.api_max_date_range_days,
        r.default_pagination_limit == 1000,
        r.max_pagination_limit == 10_000,
        r.max_correlation_symbols == 10,
        r.max_ws_connections == cfg.api_max_ws_connections,
{
    crate::api::ApiLimits {
        max_date_range_days: cfg.api_max_date_range_days,
        default_pagination_limit: 1000,
        max_pagination_limit: 10_000,
        max_correlation_symbols: 10,
        max_ws_connections: cfg.api_max_ws_connections,
    }
}

/// Totals of a `compact` run over many partitions.
#[derive(Debug, Clone, Copy, PartialEq, Eq)]
pub struct CompactionTotals {
    pub partitions_touched: usize,
    pub files_before: usize,
    pub files_after: usize,
    pub bytes_before: u64,
    pub bytes_after: u64,
}

impl CompactionTotals {
    /// Nothing compacted yet.
    pub fn new() -> (r: CompactionTotals)
        ensures
            r == (CompactionTotals {
                partitions_touched: 0,
                files_before: 0,
                files_after: 0,
                bytes_before: 0,
                bytes_after: 0,
            }),
    {
        CompactionTotals { partitions_touched: 0, files_before: 0, files_after: 0, bytes_before: 0, bytes_after: 0 }
    }

    /// Whether adding `r` would overflow a total.
    pub open spec fn fits(self, r: crate::compact::CompactionResult) -> bool {
        &&& self.partitions_touched + 1 <= usize::MAX
        &&& self.files_before + r.files_before <= usize::MAX
        &&& self.files_after + r.files_after <= usize::MAX
        &&& self.bytes_before + r.bytes_before <= u64::MAX
        &&& self.bytes_after + r.bytes_after <= u64::MAX
    }

    /// Adds one partition's outcome; a partition counts as touched when it
    /// held more than one file.
    pub fn add(&mut self, r: &crate::compact::CompactionResult)
        requires
            old(self).fits(*r),
        ensures
            final(self).partitions_touched == old(self).partitions_touched + if r.files_before > 1 {
                1usize
            } else {
                0usize
            },
            final(self).files_before == old(self).files_before + r.files_before,
            final(self).files_after == old(self).files_after + r.files_after,
            final(self).bytes_before == old(self).bytes_before + r.bytes_before,
            final(self).bytes_after == old(self).bytes_after + r.bytes_after,
    {
        if r.files_before > 1 {
            self.partitions_touched = self.partitions_touched + 1;
        }
        self.files_before = self.files_before + r.files_before;
        self.files_after = self.files_after + r.files_after;
        self.bytes_before = self.bytes_before + r.bytes_before;
        self.bytes_after = self.bytes_after + r.bytes_after;
    }
}

} // verus!
