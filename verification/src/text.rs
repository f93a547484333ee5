//! Character-level helpers: decimal rendering and parsing of integers with
//! the same accepted grammar as the standard library, prefix/suffix tests,
//! splitting and trimming.
use vstd::prelude::*;

verus! {

/// Appends one character to a string (std `String::push`).
#[verifier::external_body]
pub(crate) fn push_char(s: &mut String, c: char)
    ensures
        final(s)@ == old(s)@.push(c),
{
    s.push(c);
}

/// The characters of `s`, in order.
pub fn chars_of(s: &str) -> (v: Vec<char>)
    ensures
        v@ == s@,
{
    let mut v: Vec<char> = Vec::new();
    for c in it: s.chars()
        invariant
            v@ == it.seq().subrange(0, it.index() as int),
    {
        v.push(c);
    }
    v
}

/// Appends every character of `chars` to `s`.
pub fn push_chars(s: &mut String, chars: &[char])
    ensures
        final(s)@ == old(s)@ + chars@,
{
    let ghost start = s@;
    for i in 0..chars.len()
        invariant
            s@ == start + chars@.subrange(0, i as int),
    {
        push_char(s, chars[i]);
        proof {
            assert(chars@.subrange(0, i + 1) == chars@.subrange(0, i as int).push(chars@[i as int]));
        }
    }
    proof {
        assert(chars@.subrange(0, chars@.len() as int) == chars@);
    }
}

/// A string holding exactly `chars`.
pub fn string_from_chars(chars: &[char]) -> (s: String)
    ensures
        s@ == chars@,
{
    let mut s = String::new();
    push_chars(&mut s, chars);
    s
}

/// A string holding exactly the characters of `t`.
pub fn owned(t: &str) -> (s: String)
    ensures
        s@ == t@,
{
    let mut s = String::new();
    s.append(t);
    s
}

pub open spec fn is_digit(c: char) -> bool {
    '0' <= c && c <= '9'
}

pub open spec fn digit_value(c: char) -> nat {
    (c as int - '0' as int) as nat
}

pub open spec fn digit_char(d: nat) -> char
    recommends
        d < 10,
{
    ((d + '0' as int) as u8) as char
}

pub open spec fn all_digits(s: Seq<char>) -> bool {
    forall|i: int| 0 <= i < s.len() ==> is_digit(#[trigger] s[i])
}

/// The number written by the decimal digits `s` (most significant first).
pub open spec fn digits_value(s: Seq<char>) -> nat
    decreases s.len(),
{
    if s.len() == 0 {
        0
    } else {
        digits_value(s.drop_last()) * 10 + digit_value(s.last())
    }
}

/// The decimal rendering of `n`, without sign or leading zeros.
pub open spec fn decimal_text(n: nat) -> Seq<char>
    decreases n,
{
    if n < 10 {
        seq![digit_char(n)]
    } else {
        decimal_text(n / 10).push(digit_char(n % 10))
    }
}

/// The decimal rendering of a signed integer (`-` before negatives).
pub open spec fn signed_decimal_text(n: int) -> Seq<char> {
    if n < 0 {
        seq!['-'] + decimal_text((-n) as nat)
    } else {
        decimal_text(n as nat)
    }
}

/// What std's `FromStr` for an unsigned integer type with maximum `max`
/// accepts: an optional `+`, then at least one ASCII digit, and a value not
/// above `max`.
pub open spec fn parse_unsigned_spec(s: Seq<char>, max: nat) -> Option<nat> {
    let body = if s.len() > 0 && s[0] == '+' {
        s.drop_first()
    } else {
        s
    };
    if body.len() > 0 && all_digits(body) && digits_value(body) <= max {
        Some(digits_value(body))
    } else {
        None
    }
}

/// What std's `FromStr` for `i64` accepts: an optional `+` or `-`, then at
/// least one ASCII digit, with a value in the `i64` range.
pub open spec fn parse_i64_spec(s: Seq<char>) -> Option<int> {
    let negative = s.len() > 0 && s[0] == '-';
    let body = if s.len() > 0 && (s[0] == '+' || s[0] == '-') {
        s.drop_first()
    } else {
        s
    };
    if body.len() > 0 && all_digits(body) {
        let v = digits_value(body) as int;
        if negative && -v >= i64::MIN {
            Some(-v)
        } else if !negative && v <= i64::MAX {
            Some(v)
        } else {
            None
        }
    } else {
        None
    }
}

proof fn lemma_digit_char(d: nat)
    requires
        d < 10,
    ensures
        is_digit(digit_char(d)),
        digit_value(digit_char(d)) == d,
{
}

proof fn lemma_digits_value_push(s: Seq<char>, c: char)
    ensures
        digits_value(s.push(c)) == digits_value(s) * 10 + digit_value(c),
{
    assert(s.push(c).drop_last() == s);
}

/// Rendering then reading back a number gives the number.
pub proof fn lemma_decimal_text_roundtrip(n: nat)
    ensures
        decimal_text(n).len() > 0,
        all_digits(decimal_text(n)),
        digits_value(decimal_text(n)) == n,
        n > 0 ==> decimal_text(n)[0] != '0',
    decreases n,
{
    if n < 10 {
        lemma_digit_char(n);
        let t = seq![digit_char(n)];
        assert(t.drop_last() =~= Seq::<char>::empty());
        assert(t.last() == digit_char(n));
        assert(digits_value(t) == digits_value(t.drop_last()) * 10 + digit_value(t.last()));
    } else {
        lemma_decimal_text_roundtrip(n / 10);
        lemma_digit_char(n % 10);
        lemma_digits_value_push(decimal_text(n / 10), digit_char(n % 10));
        assert(decimal_text(n) == decimal_text(n / 10).push(digit_char(n % 10)));
        assert(decimal_text(n)[0] == decimal_text(n / 10)[0]);
    }
}

fn digit_to_char(d: u64) -> (c: char)
    requires
        d < 10,
    ensures
        c == digit_char(d as nat),
{
    ((d as u8) + 48u8) as char
}

/// Appends the decimal rendering of `n`.
pub fn push_decimal_u64(s: &mut String, n: u64)
    ensures
        final(s)@ == old(s)@ + decimal_text(n as nat),
    decreases n,
{
    if n >= 10 {
        push_decimal_u64(s, n / 10);
    }
    push_char(s, digit_to_char(n % 10));
}

/// Appends the decimal rendering of `n`, with `-` before negatives.
pub fn push_decimal_i64(s: &mut String, n: i64)
    ensures
        final(s)@ == old(s)@ + signed_decimal_text(n as int),
{
    if n < 0 {
        push_char(s, '-');
        let magnitude: u64 = if n == i64::MIN {
            9223372036854775808u64
        } else {
            (-n) as u64
        };
        push_decimal_u64(s, magnitude);
        proof {
            assert(seq!['-'] + decimal_text((-n) as nat) == seq!['-'].add(
                decimal_text((-n) as nat),
            ));
        }
    } else {
        push_decimal_u64(s, n as u64);
    }
}

/// The decimal rendering of `n` (std `u64::to_string`).
pub fn u64_text(n: u64) -> (s: String)
    ensures
        s@ == decimal_text(n as nat),
{
    let mut s = String::new();
    push_decimal_u64(&mut s, n);
    s
}

/// The decimal rendering of `n` (std `i64::to_string`).
pub fn i64_text(n: i64) -> (s: String)
    ensures
        s@ == signed_decimal_text(n as int),
{
    let mut s = String::new();
    push_decimal_i64(&mut s, n);
    s
}

/// Reads the digits `chars[start..]` as a number no greater than `max`.
fn parse_digits(chars: &Vec<char>, start: usize, max: u64) -> (r: Option<u64>)
    requires
        start <= chars@.len(),
    ensures
        r == (if start < chars@.len() && all_digits(chars@.subrange(start as int, chars@.len() as int))
            && digits_value(chars@.subrange(start as int, chars@.len() as int)) <= max {
            Some(digits_value(chars@.subrange(start as int, chars@.len() as int)) as u64)
        } else {
            None::<u64>
        }),
{
    if start >= chars.len() {
        return None;
    }
    let mut acc: u64 = 0;
    let mut i = start;
    while i < chars.len()
        invariant
            start <= i <= chars@.len(),
            all_digits(chars@.subrange(start as int, i as int)),
            acc as nat == digits_value(chars@.subrange(start as int, i as int)),
            acc <= max,
        decreases chars@.len() - i,
    {
        let c = chars[i];
        proof {
            assert(chars@.subrange(start as int, i + 1) == chars@.subrange(start as int, i as int).push(c));
            lemma_digits_value_push(chars@.subrange(start as int, i as int), c);
        }
        if !('0' <= c && c <= '9') {
            proof {
                let whole = chars@.subrange(start as int, chars@.len() as int);
                assert(whole[i - start] == c);
            }
            return None;
        }
        let d = (c as u32 - '0' as u32) as u64;
        let next = match acc.checked_mul(10) {
            Some(m) => m.checked_add(d),
            None => None,
        };
        match next {
            Some(v) if v <= max => {
                acc = v;
            },
            _ => {
                proof {
                    lemma_digits_value_monotone(chars@.subrange(start as int, chars@.len() as int), i + 1 - start);
                    assert(chars@.subrange(start as int, chars@.len() as int).subrange(0, i + 1 - start)
                        == chars@.subrange(start as int, i + 1));
                }
                return None;
            },
        }
        i = i + 1;
    }
    Some(acc)
}

/// A digit prefix never has a larger value than the whole digit string.
proof fn lemma_digits_value_monotone(s: Seq<char>, k: int)
    requires
        0 <= k <= s.len(),
    ensures
        all_digits(s) ==> digits_value(s.subrange(0, k)) <= digits_value(s),
    decreases s.len() - k,
{
    if k < s.len() {
        lemma_digits_value_monotone(s, k + 1);
        let p = s.subrange(0, k + 1);
        assert(p.drop_last() == s.subrange(0, k));
        if all_digits(s) {
            assert(is_digit(s[k]));
        }
    } else {
        assert(s.subrange(0, k) == s);
    }
}

/// Parses an unsigned integer no greater than `max`, with the grammar of
/// std's `FromStr` for unsigned integers.
pub fn parse_unsigned(s: &str, max: u64) -> (r: Option<u64>)
    ensures
        r == (match parse_unsigned_spec(s@, max as nat) {
            Some(v) => Some(v as u64),
            None => None::<u64>,
        }),
{
    let chars = chars_of(s);
    let start: usize = if chars.len() > 0 && chars[0] == '+' {
        1
    } else {
        0
    };
    proof {
        if start == 1 {
            assert(chars@.subrange(1, chars@.len() as int) == s@.drop_first());
        } else {
            assert(chars@.subrange(0, chars@.len() as int) == s@);
        }
    }
    parse_digits(&chars, start, max)
}

/// std `str::parse::<u64>`.
pub fn parse_u64(s: &str) -> (r: Option<u64>)
    ensures
        r == (match parse_unsigned_spec(s@, u64::MAX as nat) {
            Some(v) => Some(v as u64),
            None => None::<u64>,
        }),
{
    parse_unsigned(s, u64::MAX)
}

/// std `str::parse::<u32>`.
pub fn parse_u32(s: &str) -> (r: Option<u32>)
    ensures
        r == (match parse_unsigned_spec(s@, u32::MAX as nat) {
            Some(v) => Some(v as u32),
            None => None::<u32>,
        }),
{
    match parse_unsigned(s, u32::MAX as u64) {
        Some(v) => Some(v as u32),
        None => None,
    }
}

/// std `str::parse::<usize>`.
pub fn parse_usize(s: &str) -> (r: Option<usize>)
    ensures
        r == (match parse_unsigned_spec(s@, usize::MAX as nat) {
            Some(v) => Some(v as usize),
            None => None::<usize>,
        }),
{
    match parse_unsigned(s, usize::MAX as u64) {
        Some(v) => Some(v as usize),
        None => None,
    }
}

/// std `str::parse::<i64>`.
pub fn parse_i64(s: &str) -> (r: Option<i64>)
    ensures
        r == (match parse_i64_spec(s@) {
            Some(v) => Some(v as i64),
            None => None::<i64>,
        }),
{
    let chars = chars_of(s);
    let negative = chars.len() > 0 && chars[0] == '-';
    let start: usize = if chars.len() > 0 && (chars[0] == '+' || chars[0] == '-') {
        1
    } else {
        0
    };
    proof {
        if start == 1 {
            assert(chars@.subrange(1, chars@.len() as int) == s@.drop_first());
        } else {
            assert(chars@.subrange(0, chars@.len() as int) == s@);
        }
    }
    let limit: u64 = if negative {
        9223372036854775808u64
    } else {
        9223372036854775807u64
    };
    match parse_digits(&chars, start, limit) {
        Some(v) => {
            if negative {
                if v == 9223372036854775808u64 {
                    Some(i64::MIN)
                } else {
                    Some(-(v as i64))
                }
            } else {
                Some(v as i64)
            }
        },
        None => None,
    }
}

/// `s` begins with `p`.
pub open spec fn has_prefix(s: Seq<char>, p: Seq<char>) -> bool {
    p.len() <= s.len() && s.subrange(0, p.len() as int) == p
}

/// `s` ends with `p`.
pub open spec fn has_suffix(s: Seq<char>, p: Seq<char>) -> bool {
    p.len() <= s.len() && s.subrange(s.len() - p.len(), s.len() as int) == p
}

/// Whether `s` begins with `p`.
pub fn starts_with(s: &Vec<char>, p: &str) -> (r: bool)
    ensures
        r == has_prefix(s@, p@),
{
    let pc = chars_of(p);
    if pc.len() > s.len() {
        return false;
    }
    for i in 0..pc.len()
        invariant
            pc@ == p@,
            pc@.len() <= s@.len(),
            forall|j: int| 0 <= j < i ==> s@[j] == pc@[j],
    {
        if s[i] != pc[i] {
            proof {
                assert(s@.subrange(0, pc@.len() as int)[i as int] == s@[i as int]);
            }
            return false;
        }
    }
    proof {
        assert(s@.subrange(0, pc@.len() as int) =~= pc@);
    }
    true
}

/// Whether `s` ends with `p`.
pub fn ends_with(s: &Vec<char>, p: &str) -> (r: bool)
    ensures
        r == has_suffix(s@, p@),
{
    let pc = chars_of(p);
    if pc.len() > s.len() {
        return false;
    }
    let n = s.len();
    let off = n - pc.len();
    for i in 0..pc.len()
        invariant
            pc@ == p@,
            n == s@.len(),
            off + pc@.len() == n,
            forall|j: int| 0 <= j < i ==> s@[off + j] == pc@[j],
    {
        if s[off + i] != pc[i] {
            proof {
                assert(s@.subrange(off as int, s@.len() as int)[i as int] == s@[off + i]);
            }
            return false;
        }
    }
    proof {
        assert(s@.subrange(off as int, s@.len() as int) =~= pc@);
    }
    true
}

/// The characters `s[from..to]`.
pub fn slice_chars(s: &Vec<char>, from: usize, to: usize) -> (r: Vec<char>)
    requires
        from <= to <= s@.len(),
    ensures
        r@ == s@.subrange(from as int, to as int),
{
    let mut r: Vec<char> = Vec::new();
    for i in from..to
        invariant
            from <= i <= to,
            to <= s@.len(),
            r@ == s@.subrange(from as int, i as int),
    {
        r.push(s[i]);
        proof {
            assert(s@.subrange(from as int, i + 1) == s@.subrange(from as int, i as int).push(s@[i as int]));
        }
    }
    r
}

/// `p` occurs in `s` at position `i`.
pub open spec fn occurs_at(s: Seq<char>, p: Seq<char>, i: int) -> bool {
    0 <= i && i + p.len() <= s.len() && s.subrange(i, i + p.len()) == p
}

/// `p` occurs somewhere in `s` (std `str::contains` with a text pattern).
pub open spec fn contains_text(s: Seq<char>, p: Seq<char>) -> bool {
    exists|i: int| occurs_at(s, p, i)
}

/// Whether `p` occurs in `s`.
pub fn contains_str(s: &str, p: &str) -> (r: bool)
    ensures
        r == contains_text(s@, p@),
{
    let sc = chars_of(s);
    let pc = chars_of(p);
    if pc.len() > sc.len() {
        proof {
            assert forall|i: int| !occurs_at(s@, p@, i) by {}
        }
        return false;
    }
    let n = sc.len();
    let last = n - pc.len();
    let mut i: usize = 0;
    while i <= last
        invariant
            n == sc@.len(),
            sc@ == s@,
            pc@ == p@,
            last + pc@.len() == sc@.len(),
            forall|j: int| 0 <= j < i ==> !occurs_at(s@, p@, j),
        decreases last + 1 - i,
    {
        let mut k: usize = 0;
        let mut same = true;
        while k < pc.len()
            invariant
                n == sc@.len(),
                sc@ == s@,
                pc@ == p@,
                i <= last,
                last + pc@.len() == sc@.len(),
                k <= pc@.len(),
                same == (forall|j: int| 0 <= j < k ==> sc@[i + j] == pc@[j]),
            decreases pc@.len() - k,
        {
            assert(i + k < n);
            if sc[i + k] != pc[k] {
                same = false;
            }
            k = k + 1;
        }
        if same {
            proof {
                assert(s@.subrange(i as int, i + p@.len()) =~= p@);
                assert(occurs_at(s@, p@, i as int));
            }
            return true;
        }
        proof {
            if occurs_at(s@, p@, i as int) {
                let w = choose|j: int| 0 <= j < pc@.len() && sc@[i + j] != pc@[j];
                assert(s@.subrange(i as int, i + p@.len())[w] == sc@[i + w]);
            }
        }
        if i == last {
            proof {
                assert forall|j: int| !occurs_at(s@, p@, j) by {
                    if 0 <= j <= i {
                    }
                }
            }
            return false;
        }
        i = i + 1;
    }
    false
}

/// Whether `c` is white space in Unicode's `White_Space` property (std
/// `char::is_whitespace`).
pub open spec fn is_white_space(c: char) -> bool {
    ||| c == ' '
    ||| ('\u{9}' <= c && c <= '\u{d}')
    ||| c == '\u{85}'
    ||| c == '\u{a0}'
    ||| c == '\u{1680}'
    ||| ('\u{2000}' <= c && c <= '\u{200a}')
    ||| c == '\u{2028}'
    ||| c == '\u{2029}'
    ||| c == '\u{202f}'
    ||| c == '\u{205f}'
    ||| c == '\u{3000}'
}

/// Whether `c` is white space (std `char::is_whitespace`).
pub fn white_space(c: char) -> (r: bool)
    ensures
        r == is_white_space(c),
{
    c == ' ' || ('\u{9}' <= c && c <= '\u{d}') || c == '\u{85}' || c == '\u{a0}' || c == '\u{1680}'
        || ('\u{2000}' <= c && c <= '\u{200a}') || c == '\u{2028}' || c == '\u{2029}' || c
        == '\u{202f}' || c == '\u{205f}' || c == '\u{3000}'
}

/// Number of white-space characters at the start of `s`.
pub open spec fn leading_space(s: Seq<char>) -> nat
    decreases s.len(),
{
    if s.len() > 0 && is_white_space(s[0]) {
        1 + leading_space(s.drop_first())
    } else {
        0
    }
}

/// Number of white-space characters at the end of `s`.
pub open spec fn trailing_space(s: Seq<char>) -> nat
    decreases s.len(),
{
    if s.len() > 0 && is_white_space(s.last()) {
        1 + trailing_space(s.drop_last())
    } else {
        0
    }
}

/// `s` without white space at either end (std `str::trim`).
pub open spec fn trimmed(s: Seq<char>) -> Seq<char> {
    let a = s.subrange(leading_space(s) as int, s.len() as int);
    a.subrange(0, a.len() - trailing_space(a))
}

proof fn lemma_leading_space(s: Seq<char>, k: int)
    requires
        0 <= k <= s.len(),
        forall|j: int| 0 <= j < k ==> is_white_space(#[trigger] s[j]),
    ensures
        leading_space(s) >= k,
        leading_space(s) <= s.len(),
        leading_space(s) < s.len() ==> !is_white_space(s[leading_space(s) as int]),
        forall|j: int| 0 <= j < leading_space(s) ==> is_white_space(#[trigger] s[j]),
    decreases s.len(),
{
    if s.len() > 0 && is_white_space(s[0]) {
        let t = s.drop_first();
        assert forall|j: int| 0 <= j < k - 1 implies is_white_space(#[trigger] t[j]) by {
            assert(t[j] == s[j + 1]);
        }
        lemma_leading_space(t, if k > 0 { k - 1 } else { 0 });
        assert forall|j: int| 0 <= j < leading_space(s) implies is_white_space(#[trigger] s[j]) by {
            if j > 0 {
                assert(s[j] == t[j - 1]);
            }
        }
        if leading_space(s) < s.len() {
            assert(s[leading_space(s) as int] == t[leading_space(t) as int]);
        }
    }
}

proof fn lemma_trailing_space(s: Seq<char>, k: int)
    requires
        0 <= k <= s.len(),
        forall|j: int| s.len() - k <= j < s.len() ==> is_white_space(#[trigger] s[j]),
    ensures
        trailing_space(s) >= k,
        trailing_space(s) <= s.len(),
        trailing_space(s) < s.len() ==> !is_white_space(s[s.len() - 1 - trailing_space(s)]),
        forall|j: int| s.len() - trailing_space(s) <= j < s.len() ==> is_white_space(#[trigger] s[j]),
    decreases s.len(),
{
    if s.len() > 0 && is_white_space(s.last()) {
        let t = s.drop_last();
        assert forall|j: int| t.len() - (k - 1) <= j < t.len() implies is_white_space(#[trigger] t[j]) by {
            assert(t[j] == s[j]);
        }
        lemma_trailing_space(t, if k > 0 { k - 1 } else { 0 });
        assert forall|j: int| s.len() - trailing_space(s) <= j < s.len() implies is_white_space(#[trigger] s[j]) by {
            if j < s.len() - 1 {
                assert(s[j] == t[j]);
            }
        }
        if trailing_space(s) < s.len() {
            assert(s[s.len() - 1 - trailing_space(s)] == t[t.len() - 1 - trailing_space(t)]);
        }
    }
}

/// The characters of `s` without white space at either end.
pub fn trim_chars(s: &Vec<char>) -> (r: Vec<char>)
    ensures
        r@ == trimmed(s@),
{
    let mut a: usize = 0;
    while a < s.len() && white_space(s[a])
        invariant
            a <= s@.len(),
            forall|j: int| 0 <= j < a ==> is_white_space(#[trigger] s@[j]),
        decreases s@.len() - a,
    {
        a = a + 1;
    }
    proof {
        lemma_leading_space(s@, a as int);
    }
    let mut b: usize = s.len();
    while b > a && white_space(s[b - 1])
        invariant
            a <= b <= s@.len(),
            a == leading_space(s@),
            forall|j: int| b <= j < s@.len() ==> is_white_space(#[trigger] s@[j]),
        decreases b,
    {
        b = b - 1;
    }
    proof {
        let t = s@.subrange(a as int, s@.len() as int);
        assert forall|j: int| t.len() - (s@.len() - b) <= j < t.len() implies is_white_space(#[trigger] t[j]) by {
            assert(t[j] == s@[a + j]);
        }
        lemma_trailing_space(t, (s@.len() - b) as int);
        if trailing_space(t) > s@.len() - b {
            let j = t.len() - 1 - (s@.len() - b);
            assert(t[j] == s@[b - 1]);
            assert(b > a);
        }
        assert(t.subrange(0, t.len() - trailing_space(t)) =~= s@.subrange(a as int, b as int));
    }
    slice_chars(s, a, b)
}

/// Position of the last `c` in `s`, or -1.
pub open spec fn last_index_of(s: Seq<char>, c: char) -> int
    decreases s.len(),
{
    if s.len() == 0 {
        -1
    } else if s.last() == c {
        s.len() - 1
    } else {
        last_index_of(s.drop_last(), c)
    }
}

/// Where the last `c` of a text is.
pub proof fn lemma_last_index_of(s: Seq<char>, c: char)
    ensures
        -1 <= last_index_of(s, c) < s.len(),
        last_index_of(s, c) >= 0 ==> s[last_index_of(s, c)] == c,
        forall|j: int| last_index_of(s, c) < j < s.len() ==> s[j] != c,
    decreases s.len(),
{
    if s.len() > 0 && s.last() != c {
        lemma_last_index_of(s.drop_last(), c);
        assert forall|j: int| last_index_of(s, c) < j < s.len() implies s[j] != c by {
            if j < s.len() - 1 {
                assert(s.drop_last()[j] == s[j]);
            }
        }
    }
}

/// The pieces of `s` between occurrences of `c` (std `str::split` with a
/// character): one more piece than there are `c`s.
pub open spec fn split_on(s: Seq<char>, c: char) -> Seq<Seq<char>>
    decreases s.len(),
{
    let k = last_index_of(s, c);
    if k < 0 {
        seq![s]
    } else {
        proof {
            lemma_last_index_of(s, c);
        }
        split_on(s.subrange(0, k), c).push(s.subrange(k + 1, s.len() as int))
    }
}

/// The pieces of `s` between occurrences of `c`.
pub fn split_chars(s: &Vec<char>, c: char) -> (r: Vec<Vec<char>>)
    ensures
        r@.len() == split_on(s@, c).len(),
        forall|i: int| 0 <= i < r@.len() ==> (#[trigger] r@[i])@ == split_on(s@, c)[i],
{
    let mut out: Vec<Vec<char>> = Vec::new();
    let mut start: usize = 0;
    let mut i: usize = 0;
    while i < s.len()
        invariant
            start <= i <= s@.len(),
            start == last_index_of(s@.subrange(0, i as int), c) + 1,
            start > 0 ==> out@.len() == split_on(s@.subrange(0, start - 1), c).len(),
            start > 0 ==> forall|j: int| 0 <= j < out@.len() ==> (#[trigger] out@[j])@ == split_on(s@.subrange(0, start - 1), c)[j],
            start == 0 ==> out@.len() == 0,
            forall|j: int| start <= j < i ==> s@[j] != c,
        decreases s@.len() - i,
    {
        proof {
            let pre = s@.subrange(0, i + 1);
            assert(pre.drop_last() == s@.subrange(0, i as int));
            assert(pre.last() == s@[i as int]);
        }
        if s[i] == c {
            let piece = slice_chars(s, start, i);
            let ghost before = out@;
            out.push(piece);
            proof {
                let t = s@.subrange(0, i as int);
                lemma_last_index_of(t, c);
                if start == 0 {
                    assert(last_index_of(t, c) < 0);
                    assert(split_on(t, c) == seq![t]);
                } else {
                    let k = start - 1;
                    assert(last_index_of(t, c) == k);
                    assert(t.subrange(0, k as int) == s@.subrange(0, k as int));
                    assert(t.subrange(k + 1, t.len() as int) == s@.subrange(start as int, i as int));
                }
            }
            start = i + 1;
        }
        i = i + 1;
    }
    let piece = slice_chars(s, start, s.len());
    out.push(piece);
    proof {
        let t = s@;
        assert(s@.subrange(0, s@.len() as int) == t);
        lemma_last_index_of(t, c);
        if start == 0 {
            assert(split_on(t, c) == seq![t]);
        } else {
            let k = start - 1;
            assert(t.subrange(0, k as int) == s@.subrange(0, k as int));
        }
    }
    out
}

} // verus!
