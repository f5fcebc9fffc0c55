//! Decimal numbers as the meter prints them: an integer mantissa and the
//! number of digits behind the decimal point.
//!
//! Text is read and quotients are taken by the `rust_decimal` crate; a value
//! is held here as its two integers, so that conversions to and from joules
//! are exact integer arithmetic.

use vstd::arithmetic::power::{lemma_pow_increases, pow};
use vstd::prelude::*;

verus! {

/// The largest magnitude of a mantissa: 96 bits.
pub const MAX_MANTISSA: i128 = 0xFFFF_FFFF_FFFF_FFFF_FFFF_FFFF;

/// The largest number of digits behind the decimal point.
pub const MAX_SCALE: u32 = 28;

/// A decimal number `mantissa / 10^scale`.
#[derive(Debug, Clone, Copy)]
pub struct Decimal {
    mantissa: i128,
    scale: u32,
}

/// What a `Decimal` stands for: the number `mantissa / 10^scale`.
pub struct DecimalView {
    pub mantissa: int,
    pub scale: nat,
}

/// The decimals that can be held: a mantissa of at most 96 bits and at most
/// 28 digits behind the point.
pub open spec fn representable(mantissa: int, scale: nat) -> bool {
    -MAX_MANTISSA <= mantissa <= MAX_MANTISSA && scale <= MAX_SCALE
}

/// The decimal that `rust_decimal::Decimal::from_str_exact` reads from
/// `text`, as mantissa and scale, or `None` where it reports an error.
pub uninterp spec fn decimal_parsed(text: Seq<u8>) -> Option<(int, nat)>;

/// The decimal that `rust_decimal::Decimal::checked_div` returns for the
/// dividend `dividend / 10^dividend_scale` and the divisor
/// `divisor / 10^divisor_scale`, or `None` where it reports none.
pub uninterp spec fn decimal_quotient(
    dividend: int,
    dividend_scale: nat,
    divisor: int,
    divisor_scale: nat,
) -> Option<(int, nat)>;

/// Text that holds ASCII bytes only.
pub open spec fn is_ascii_text(text: Seq<u8>) -> bool {
    forall|i: int| 0 <= i < text.len() ==> text[i] < 128
}

/// What `Decimal::parse` returns for `text`.
pub open spec fn parsed_decimal(text: Seq<u8>) -> Option<DecimalView> {
    if !is_ascii_text(text) {
        None
    } else {
        match decimal_parsed(text) {
            Some((mantissa, scale)) => Some(DecimalView { mantissa, scale }),
            None => None,
        }
    }
}

/// What `Decimal::checked_div` returns.
pub open spec fn quotient(dividend: DecimalView, divisor: DecimalView) -> Option<DecimalView> {
    match decimal_quotient(dividend.mantissa, dividend.scale, divisor.mantissa, divisor.scale) {
        Some((mantissa, scale)) => Some(DecimalView { mantissa, scale }),
        None => None,
    }
}

impl View for Decimal {
    type V = DecimalView;

    closed spec fn view(&self) -> DecimalView {
        DecimalView { mantissa: self.mantissa as int, scale: self.scale as nat }
    }
}

impl Decimal {
    #[verifier::type_invariant]
    spec fn in_range(self) -> bool {
        representable(self.mantissa as int, self.scale as nat)
    }

    /// The decimal `mantissa / 10^scale`, or `None` where the mantissa needs
    /// more than 96 bits or the scale is above 28.
    pub fn new(mantissa: i128, scale: u32) -> (made: Option<Decimal>)
        ensures
            made is Some <==> representable(mantissa as int, scale as nat),
            made matches Some(d) ==> d@.mantissa == mantissa && d@.scale == scale,
    {
        if -MAX_MANTISSA <= mantissa && mantissa <= MAX_MANTISSA && scale <= MAX_SCALE {
            Some(Decimal { mantissa, scale })
        } else {
            None
        }
    }

    /// The whole number `value`.
    pub fn from_i64(value: i64) -> (made: Decimal)
        ensures
            made@.mantissa == value,
            made@.scale == 0,
    {
        Decimal { mantissa: value as i128, scale: 0 }
    }

    /// The mantissa: the number without its decimal point.
    pub fn mantissa(&self) -> (mantissa: i128)
        ensures
            mantissa == self@.mantissa,
            representable(self@.mantissa, self@.scale),
    {
        proof {
            use_type_invariant(self);
        }
        self.mantissa
    }

    /// The number of digits behind the decimal point.
    pub fn scale(&self) -> (scale: u32)
        ensures
            scale == self@.scale,
            representable(self@.mantissa, self@.scale),
    {
        proof {
            use_type_invariant(self);
        }
        self.scale
    }

    /// Reads a decimal from `text`. Text with a byte outside ASCII is no
    /// decimal; the rest is read by `rust_decimal`, which rejects what it
    /// cannot hold exactly.
    pub fn parse(text: &[u8]) -> (parsed: Option<Decimal>)
        ensures
            parsed matches Some(d) ==> parsed_decimal(text@) == Some(d@),
            parsed is None ==> parsed_decimal(text@) is None,
    {
        if is_ascii(text) {
            parse_exact(text)
        } else {
            None
        }
    }

    /// The quotient of `self` by `divisor` as `rust_decimal` computes it, or
    /// `None` where it reports an overflow or a division by zero.
    pub(crate) fn checked_div(self, divisor: Decimal) -> (result: Option<Decimal>)
        ensures
            result matches Some(d) ==> quotient(self@, divisor@) == Some(d@),
            result is None ==> quotient(self@, divisor@) is None,
    {
        proof {
            use_type_invariant(self);
            use_type_invariant(divisor);
        }
        divide(self.mantissa, self.scale, divisor.mantissa, divisor.scale)
    }
}

/// Whether every byte of `text` is ASCII.
fn is_ascii(text: &[u8]) -> (ascii: bool)
    ensures
        ascii == is_ascii_text(text@),
{
    let mut i: usize = 0;
    while i < text.len()
        invariant
            i <= text.len(),
            forall|k: int| 0 <= k < i ==> text@[k] < 128,
        decreases text.len() - i,
    {
        if text[i] >= 128 {
            return false;
        }
        i += 1;
    }
    true
}

/// Calls `rust_decimal::Decimal::from_str_exact` on ASCII text, which is
/// handed over as a `str` by `std::str::from_utf8`. That function reads the
/// whole text or fails, and fails rather than round where the text has more
/// digits than a decimal holds. What it returns depends on the text alone: it
/// is the name `decimal_parsed` of the bytes, as the mantissa and the scale
/// that `mantissa` and `scale` of that crate give. Every decimal of that
/// crate has a mantissa of at most 96 bits and a scale of at most 28.
#[verifier::external_body]
fn parse_exact(text: &[u8]) -> (parsed: Option<Decimal>)
    requires
        is_ascii_text(text@),
    ensures
        parsed matches Some(d) ==> decimal_parsed(text@) == Some((d@.mantissa, d@.scale)),
        parsed is None ==> decimal_parsed(text@) is None,
{
    let text = std::str::from_utf8(text).ok()?;
    let value = rust_decimal::Decimal::from_str_exact(text).ok()?;
    Some(Decimal { mantissa: value.mantissa(), scale: value.scale() })
}

/// Calls `rust_decimal::Decimal::checked_div` on two decimals, each made by
/// `from_i128_with_scale` of that crate from its mantissa and scale; that
/// constructor panics on a mantissa of more than 96 bits and on a scale above
/// 28, which `requires` leaves out. The quotient depends on the four integers
/// alone: it is the name `decimal_quotient` of them. The crate returns
/// nothing on overflow and on a zero divisor.
#[verifier::external_body]
fn divide(dividend: i128, dividend_scale: u32, divisor: i128, divisor_scale: u32) -> (result:
    Option<Decimal>)
    requires
        representable(dividend as int, dividend_scale as nat),
        representable(divisor as int, divisor_scale as nat),
    ensures
        result matches Some(d) ==> decimal_quotient(
            dividend as int,
            dividend_scale as nat,
            divisor as int,
            divisor_scale as nat,
        ) == Some((d@.mantissa, d@.scale)),
        result is None ==> decimal_quotient(
            dividend as int,
            dividend_scale as nat,
            divisor as int,
            divisor_scale as nat,
        ) is None,
{
    let dividend = rust_decimal::Decimal::from_i128_with_scale(dividend, dividend_scale);
    let divisor = rust_decimal::Decimal::from_i128_with_scale(divisor, divisor_scale);
    let value = dividend.checked_div(divisor)?;
    Some(Decimal { mantissa: value.mantissa(), scale: value.scale() })
}

/// `10^28`, the largest power of ten that a scale can ask for.
pub proof fn lemma_pow10_max()
    ensures
        pow(10, 28) == 10_000_000_000_000_000_000_000_000_000int,
{
    reveal_with_fuel(pow, 29);
}

/// `10^exponent` for an exponent that a scale can hold.
pub fn pow10(exponent: u32) -> (power: u128)
    requires
        exponent <= MAX_SCALE,
    ensures
        power == pow(10, exponent as nat),
        1 <= power <= 10_000_000_000_000_000_000_000_000_000,
{
    let mut power: u128 = 1;
    let mut i: u32 = 0;
    proof {
        reveal_with_fuel(pow, 1);
    }
    while i < exponent
        invariant
            i <= exponent <= MAX_SCALE,
            power == pow(10, i as nat),
            1 <= power,
        decreases exponent - i,
    {
        proof {
            reveal_with_fuel(pow, 2);
            lemma_pow_increases(10, (i + 1) as nat, 28);
            lemma_pow10_max();
        }
        power = power * 10;
        i += 1;
    }
    proof {
        lemma_pow_increases(10, exponent as nat, 28);
        lemma_pow10_max();
    }
    power
}

} // verus!
