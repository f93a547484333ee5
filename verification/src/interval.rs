//! Kline aggregation intervals.
use vstd::prelude::*;

use crate::error::CoreError;
use crate::text::{chars_of, owned};

verus! {

/// Kline / candle aggregation interval.
#[derive(Debug, Clone, Copy, PartialEq, Eq, Hash, Structural)]
pub enum Interval {
    OneMinute,
    FiveMinutes,
    FifteenMinutes,
    OneHour,
    FourHours,
    OneDay,
}

/// The exchange's wire text of an interval, e.g. `1m`.
pub open spec fn interval_text(i: Interval) -> Seq<char> {
    match i {
        Interval::OneMinute => seq!['1', 'm'],
        Interval::FiveMinutes => seq!['5', 'm'],
        Interval::FifteenMinutes => seq!['1', '5', 'm'],
        Interval::OneHour => seq!['1', 'h'],
        Interval::FourHours => seq!['4', 'h'],
        Interval::OneDay => seq!['1', 'd'],
    }
}

/// The interval whose wire text is `s`, if any.
pub open spec fn interval_of_text(s: Seq<char>) -> Option<Interval> {
    if s == seq!['1', 'm'] {
        Some(Interval::OneMinute)
    } else if s == seq!['5', 'm'] {
        Some(Interval::FiveMinutes)
    } else if s == seq!['1', '5', 'm'] {
        Some(Interval::FifteenMinutes)
    } else if s == seq!['1', 'h'] {
        Some(Interval::OneHour)
    } else if s == seq!['4', 'h'] {
        Some(Interval::FourHours)
    } else if s == seq!['1', 'd'] {
        Some(Interval::OneDay)
    } else {
        None
    }
}

/// Nominal length of one bar, as a whole number of seconds.
pub open spec fn interval_seconds(i: Interval) -> int {
    match i {
        Interval::OneMinute => 60,
        Interval::FiveMinutes => 300,
        Interval::FifteenMinutes => 900,
        Interval::OneHour => 3600,
        Interval::FourHours => 14400,
        Interval::OneDay => 86400,
    }
}

/// Reading back the wire text of an interval gives the interval.
pub proof fn lemma_text_roundtrip(i: Interval)
    ensures
        interval_of_text(interval_text(i)) == Some(i),
{
}

/// Only an interval's own wire text reads back as that interval.
pub proof fn lemma_text_unique(s: Seq<char>, i: Interval)
    requires
        interval_of_text(s) == Some(i),
    ensures
        s == interval_text(i),
{
}

/// Distinct intervals have distinct wire texts.
pub proof fn lemma_text_injective(a: Interval, b: Interval)
    requires
        interval_text(a) == interval_text(b),
    ensures
        a == b,
{
    lemma_text_roundtrip(a);
    lemma_text_roundtrip(b);
}

/// Whether `a` and `b` hold the same characters.
pub fn text_eq(a: &str, b: &str) -> (r: bool)
    ensures
        r == (a@ == b@),
{
    let x = chars_of(a);
    let y = chars_of(b);
    if x.len() != y.len() {
        return false;
    }
    for i in 0..x.len()
        invariant
            x@ == a@,
            y@ == b@,
            x@.len() == y@.len(),
            forall|j: int| 0 <= j < i ==> x@[j] == y@[j],
    {
        if x[i] != y[i] {
            return false;
        }
    }
    proof {
        assert(x@ =~= y@);
    }
    true
}

impl Interval {
    /// Every supported interval, in ascending order.
    pub fn all() -> (r: [Interval; 6])
        ensures
            r@ == seq![
                Interval::OneMinute,
                Interval::FiveMinutes,
                Interval::FifteenMinutes,
                Interval::OneHour,
                Interval::FourHours,
                Interval::OneDay,
            ],
    {
        [
            Interval::OneMinute,
            Interval::FiveMinutes,
            Interval::FifteenMinutes,
            Interval::OneHour,
            Interval::FourHours,
            Interval::OneDay,
        ]
    }

    /// The exchange's own wire text for this interval, e.g. `"1m"`.
    pub fn as_str(self) -> (r: &'static str)
        ensures
            r@ == interval_text(self),
    {
        match self {
            Interval::OneMinute => {
                proof {
                    reveal_strlit("1m");
                }
                "1m"
            },
            Interval::FiveMinutes => {
                proof {
                    reveal_strlit("5m");
                }
                "5m"
            },
            Interval::FifteenMinutes => {
                proof {
                    reveal_strlit("15m");
                }
                "15m"
            },
            Interval::OneHour => {
                proof {
                    reveal_strlit("1h");
                }
                "1h"
            },
            Interval::FourHours => {
                proof {
                    reveal_strlit("4h");
                }
                "4h"
            },
            Interval::OneDay => {
                proof {
                    reveal_strlit("1d");
                }
                "1d"
            },
        }
    }

    /// Nominal length of one bar, as a whole number of seconds.
    pub fn duration(self) -> (r: i64)
        ensures
            r == interval_seconds(self),
    {
        match self {
            Interval::OneMinute => 60,
            Interval::FiveMinutes => 300,
            Interval::FifteenMinutes => 900,
            Interval::OneHour => 3600,
            Interval::FourHours => 14400,
            Interval::OneDay => 86400,
        }
    }

    /// Parses the wire text: `Ok` exactly for the six texts of `as_str`,
    /// otherwise `InvalidInterval` carrying the input.
    pub fn from_str(s: &str) -> (r: Result<Interval, CoreError>)
        ensures
            r matches Ok(i) ==> interval_of_text(s@) == Some(i),
            r matches Err(e) ==> interval_of_text(s@) is None && (e matches CoreError::InvalidInterval(
                t,
            ) && t@ == s@),
            r is Ok <==> interval_of_text(s@) is Some,
    {
        for k in 0..6usize
            invariant
                forall|j: int|
                    0 <= j < k ==> interval_text(#[trigger] Interval::all_spec()[j]) != s@,
        {
            let candidate = Interval::all()[k];
            if text_eq(candidate.as_str(), s) {
                proof {
                    lemma_text_roundtrip(candidate);
                }
                return Ok(candidate);
            }
        }
        proof {
            if interval_of_text(s@) is Some {
                let i = interval_of_text(s@).unwrap();
                lemma_text_unique(s@, i);
                assert(interval_text(Interval::all_spec()[0]) != s@);
                assert(interval_text(Interval::all_spec()[1]) != s@);
                assert(interval_text(Interval::all_spec()[2]) != s@);
                assert(interval_text(Interval::all_spec()[3]) != s@);
                assert(interval_text(Interval::all_spec()[4]) != s@);
                assert(interval_text(Interval::all_spec()[5]) != s@);
            }
        }
        Err(CoreError::InvalidInterval(owned(s)))
    }

    /// Every supported interval, as a sequence.
    pub open spec fn all_spec() -> Seq<Interval> {
        seq![
            Interval::OneMinute,
            Interval::FiveMinutes,
            Interval::FifteenMinutes,
            Interval::OneHour,
            Interval::FourHours,
            Interval::OneDay,
        ]
    }

    /// The wire text, as an owned string.
    pub fn to_string(self) -> (r: String)
        ensures
            r@ == interval_text(self),
    {
        owned(self.as_str())
    }
}

impl core::str::FromStr for Interval {
    type Err = CoreError;

    fn from_str(s: &str) -> (r: Result<Interval, CoreError>)
        ensures
            r matches Ok(i) ==> interval_of_text(s@) == Some(i),
            r matches Err(e) ==> interval_of_text(s@) is None && (e matches CoreError::InvalidInterval(
                t,
            ) && t@ == s@),
            r is Ok <==> interval_of_text(s@) is Some,
    {
        Interval::from_str(s)
    }
}

} // verus!
