//! Exact decimal amounts (prices, quantities) as a mantissa and a scale, the
//! representation of `rust_decimal`, whose parser, renderer and rescaling
//! this module calls.
use vstd::prelude::*;

use crate::error::CoreError;

verus! {

/// Largest mantissa magnitude a decimal holds (96 bits).
pub open spec fn max_mantissa() -> int {
    79228162514264337593543950335
}

/// Largest scale a decimal holds.
pub open spec fn max_scale() -> int {
    28
}

/// A mantissa and scale that a decimal can hold.
pub open spec fn decimal_wf(mantissa: int, scale: int) -> bool {
    -max_mantissa() <= mantissa <= max_mantissa() && 0 <= scale <= max_scale()
}

pub open spec fn pow10(n: nat) -> nat
    decreases n,
{
    if n == 0 {
        1
    } else {
        10 * pow10((n - 1) as nat)
    }
}

/// How many factors of ten can be applied to a mantissa of magnitude `mag`
/// (at most `budget`) while it stays within 96 bits.
pub open spec fn scale_up_digits(mag: nat, budget: nat) -> nat
    decreases budget,
{
    if budget == 0 || mag * 10 > max_mantissa() {
        0
    } else {
        1 + scale_up_digits(mag * 10, (budget - 1) as nat)
    }
}

pub open spec fn abs(x: int) -> nat {
    if x < 0 {
        (-x) as nat
    } else {
        x as nat
    }
}

/// `rust_decimal`'s rescaling of `(mantissa, scale)` to a scale `target` no
/// smaller than `scale`: zero takes the target scale (at most 28); any other
/// value takes as many of the requested extra digits as fit in 96 bits.
pub open spec fn rescale_up(mantissa: int, scale: nat, target: nat) -> (int, nat) {
    if scale == target {
        (mantissa, scale)
    } else if mantissa == 0 {
        (0, if target < 28 {
            target
        } else {
            28
        })
    } else {
        let d = scale_up_digits(abs(mantissa), (target - scale) as nat);
        (mantissa * pow10(d), scale + d)
    }
}

/// What `rust_decimal`'s `Decimal::from_str` gives for a text: a mantissa
/// and scale, or the parser's error message.
pub uninterp spec fn decimal_parse(s: Seq<char>) -> Result<(int, nat), Seq<char>>;

/// What `rust_decimal`'s `Display` writes for a mantissa and scale.
pub uninterp spec fn decimal_render(mantissa: int, scale: nat) -> Seq<char>;

/// Calls `rust_decimal::Decimal::from_str`, returning the parsed value's
/// mantissa and scale, or the parser's error message. Claimed: the result
/// is the name `decimal_parse` of the text, and a parsed value is within
/// the 96-bit mantissa and 28-digit scale that every `Decimal` holds.
#[verifier::external_body]
fn parse_decimal_parts(s: &str) -> (r: Result<(i128, u32), String>)
    ensures
        match r {
            Ok(p) => decimal_parse(s@) == Ok::<(int, nat), Seq<char>>((p.0 as int, p.1 as nat))
                && decimal_wf(p.0 as int, p.1 as int),
            Err(m) => decimal_parse(s@) == Err::<(int, nat), Seq<char>>(m@),
        },
{
    match <rust_decimal::Decimal as core::str::FromStr>::from_str(s) {
        Ok(d) => Ok((d.mantissa(), d.scale())),
        Err(e) => Err(e.to_string()),
    }
}

/// Calls `rust_decimal`'s `Display` on the decimal built from a mantissa and
/// scale (which `from_i128_with_scale` accepts without panicking for these
/// inputs). Claimed: the text is the name `decimal_render` of the parts.
#[verifier::external_body]
fn render_decimal_parts(mantissa: i128, scale: u32) -> (r: String)
    requires
        decimal_wf(mantissa as int, scale as int),
    ensures
        r@ == decimal_render(mantissa as int, scale as nat),
{
    rust_decimal::Decimal::from_i128_with_scale(mantissa, scale).to_string()
}

/// Calls `rust_decimal::Decimal::rescale` to a scale no smaller than the
/// current one, where the rescaled value keeps a scale of at most 28 (a
/// larger one is no `Decimal`). Claimed, from the crate's scale-up loop: the
/// result is `rescale_up` of the parts.
#[verifier::external_body]
fn rescale_decimal_parts(mantissa: i128, scale: u32, target: u32) -> (r: (i128, u32))
    requires
        decimal_wf(mantissa as int, scale as int),
        scale <= target,
        rescale_up(mantissa as int, scale as nat, target as nat).1 <= 28,
    ensures
        (r.0 as int, r.1 as nat) == rescale_up(mantissa as int, scale as nat, target as nat),
{
    let mut d = rust_decimal::Decimal::from_i128_with_scale(mantissa, scale);
    d.rescale(target);
    (d.mantissa(), d.scale())
}

/// An exact decimal number `mantissa / 10^scale`.
#[derive(Debug, Clone, Copy, PartialEq, Eq)]
pub struct DecimalValue {
    pub mantissa: i128,
    pub scale: u32,
}

impl DecimalValue {
    /// Within the range of a decimal.
    pub open spec fn wf(self) -> bool {
        decimal_wf(self.mantissa as int, self.scale as int)
    }

    /// Builds `mantissa / 10^scale`.
    pub fn new(mantissa: i128, scale: u32) -> (r: DecimalValue)
        requires
            decimal_wf(mantissa as int, scale as int),
        ensures
            r.mantissa == mantissa,
            r.scale == scale,
            r.wf(),
    {
        DecimalValue { mantissa, scale }
    }

    /// Parses a decimal text; the error holds the parser's message.
    pub fn from_str(s: &str) -> (r: Result<DecimalValue, String>)
        ensures
            r matches Ok(d) ==> d.wf() && decimal_parse(s@) == Ok::<(int, nat), Seq<char>>(
                (d.mantissa as int, d.scale as nat),
            ),
            r matches Err(m) ==> decimal_parse(s@) == Err::<(int, nat), Seq<char>>(m@),
    {
        match parse_decimal_parts(s) {
            Ok((m, sc)) => Ok(DecimalValue { mantissa: m, scale: sc }),
            Err(e) => Err(e),
        }
    }

    /// The decimal's text.
    pub fn to_string(&self) -> (r: String)
        requires
            self.wf(),
        ensures
            r@ == decimal_render(self.mantissa as int, self.scale as nat),
    {
        render_decimal_parts(self.mantissa, self.scale)
    }
}

/// Brings `value` to `target_scale` without losing digits: refused with
/// `DecimalScale` when it has more fractional digits than that, otherwise
/// rescaled up (see `rescale_up`). A target beyond 28 is taken where the
/// rescaled value still has a scale of at most 28, the most a decimal
/// holds (any target of at most 28 is).
pub fn rescale_checked(value: DecimalValue, target_scale: u32) -> (r: Result<DecimalValue, CoreError>)
    requires
        value.wf(),
        value.scale > target_scale || rescale_up(value.mantissa as int, value.scale as nat, target_scale as nat).1
            <= 28,
    ensures
        value.scale > target_scale ==> (r matches Err(CoreError::DecimalScale { value: text, actual, target })
            && text@ == decimal_render(value.mantissa as int, value.scale as nat) && actual
            == value.scale && target == target_scale),
        value.scale <= target_scale ==> (r matches Ok(d) && d.wf() && (d.mantissa as int, d.scale as nat)
            == rescale_up(value.mantissa as int, value.scale as nat, target_scale as nat)),
{
    if value.scale > target_scale {
        return Err(
            CoreError::DecimalScale {
                value: value.to_string(),
                actual: value.scale,
                target: target_scale,
            },
        );
    }
    let (m, s) = rescale_decimal_parts(value.mantissa, value.scale, target_scale);
    proof {
        lemma_rescale_up_bounds(value.mantissa as int, value.scale as nat, target_scale as nat);
    }
    Ok(DecimalValue { mantissa: m, scale: s })
}

proof fn lemma_pow10_positive(n: nat)
    ensures
        pow10(n) >= 1,
    decreases n,
{
    if n > 0 {
        lemma_pow10_positive((n - 1) as nat);
    }
}

proof fn lemma_scale_up_digits(mag: nat, budget: nat)
    requires
        mag <= max_mantissa(),
    ensures
        scale_up_digits(mag, budget) <= budget,
        mag * pow10(scale_up_digits(mag, budget)) <= max_mantissa(),
        scale_up_digits(mag, budget) < budget ==> mag * pow10(scale_up_digits(mag, budget)) * 10
            > max_mantissa(),
    decreases budget,
{
    if budget == 0 || mag * 10 > max_mantissa() {
        assert(scale_up_digits(mag, budget) == 0);
        assert(pow10(0) == 1);
    } else {
        let d = scale_up_digits(mag * 10, (budget - 1) as nat);
        lemma_scale_up_digits(mag * 10, (budget - 1) as nat);
        assert(scale_up_digits(mag, budget) == d + 1);
        assert(pow10(d + 1) == 10 * pow10(d));
        assert(mag * pow10(d + 1) == (mag * 10) * pow10(d)) by (nonlinear_arith)
            requires
                pow10(d + 1) == 10 * pow10(d),
        ;
        assert(mag * pow10(d + 1) * 10 == (mag * 10) * pow10(d) * 10) by (nonlinear_arith)
            requires
                pow10(d + 1) == 10 * pow10(d),
        ;
    }
}

/// Rescaling up stays within the range of a decimal when the target scale,
/// or else the scale reached, is at most 28, and never lowers the scale.
pub proof fn lemma_rescale_up_bounds(m: int, s: nat, t: nat)
    requires
        decimal_wf(m, s as int),
        s <= t,
        t <= 28 || rescale_up(m, s, t).1 <= 28,
    ensures
        decimal_wf(rescale_up(m, s, t).0, rescale_up(m, s, t).1 as int),
        s <= rescale_up(m, s, t).1 <= t,
{
    if s != t && m != 0 {
        let d = scale_up_digits(abs(m), (t - s) as nat);
        lemma_scale_up_digits(abs(m), (t - s) as nat);
        lemma_pow10_positive(d);
        if m < 0 {
            assert(m * pow10(d) == -(abs(m) * pow10(d))) by (nonlinear_arith)
                requires
                    m < 0,
                    abs(m) == -m,
            ;
        } else {
            assert(m * pow10(d) == abs(m) * pow10(d));
        }
    }
}

/// Rescaling up never changes the number: `m / 10^s == m' / 10^s'`, and it
/// reaches the target scale whenever the scaled mantissa fits in 96 bits.
pub proof fn lemma_rescale_up_preserves_value(m: int, s: nat, t: nat)
    requires
        decimal_wf(m, s as int),
        s <= t,
    ensures
        rescale_up(m, s, t).0 * pow10(s) == m * pow10(rescale_up(m, s, t).1),
        abs(m) * pow10((t - s) as nat) <= max_mantissa() && (m != 0 || t <= 28) ==> rescale_up(
            m,
            s,
            t,
        ).1 == t,
{
    let r = rescale_up(m, s, t);
    if s == t {
    } else if m == 0 {
    } else {
        let d = scale_up_digits(abs(m), (t - s) as nat);
        lemma_pow10_add(s, d);
        assert(r.0 * pow10(s) == m * (pow10(d) * pow10(s))) by (nonlinear_arith)
            requires
                r.0 == m * pow10(d),
        ;
        lemma_scale_up_digits(abs(m), (t - s) as nat);
        if abs(m) * pow10((t - s) as nat) <= max_mantissa() && d < (t - s) {
            lemma_pow10_add(d, (t - s - d) as nat);
            lemma_pow10_positive((t - s - d - 1) as nat);
            assert(pow10((t - s - d) as nat) == 10 * pow10((t - s - d - 1) as nat));
            assert(abs(m) * pow10((t - s) as nat) >= abs(m) * pow10(d) * 10) by (nonlinear_arith)
                requires
                    pow10((t - s) as nat) == pow10(d) * pow10((t - s - d) as nat),
                    pow10((t - s - d) as nat) == 10 * pow10((t - s - d - 1) as nat),
                    pow10((t - s - d - 1) as nat) >= 1,
                    pow10(d) >= 0,
                    abs(m) >= 0,
            ;
        }
    }
}

proof fn lemma_pow10_add(a: nat, b: nat)
    ensures
        pow10(a + b) == pow10(a) * pow10(b),
    decreases a,
{
    if a == 0 {
        assert(pow10(0) == 1);
    } else {
        lemma_pow10_add((a - 1) as nat, b);
        assert(pow10(a + b) == 10 * pow10((a - 1 + b) as nat));
        assert(pow10(a) == 10 * pow10((a - 1) as nat));
        assert(10 * (pow10((a - 1) as nat) * pow10(b)) == (10 * pow10((a - 1) as nat)) * pow10(b))
            by (nonlinear_arith);
    }
}

} // verus!
