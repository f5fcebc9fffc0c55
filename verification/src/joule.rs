//! Energy as a whole number of joules.

use crate::decimal::{pow10, quotient, Decimal, DecimalView};
use vstd::arithmetic::div_mod::lemma_fundamental_div_mod_converse;
use vstd::arithmetic::power::pow;
use vstd::prelude::*;

verus! {

/// Joules in one kilowatt-hour.
pub const JOULES_PER_KWH: i64 = 3_600_000;

/// An energy: a signed count of joules. Meter registers only grow, so a
/// difference of two readings of one register is the energy used between
/// them.
#[derive(Debug, Clone, Copy, PartialEq, Eq, Structural)]
pub struct Joule(pub i64);

/// Whether `value` is an energy that 64 bits hold.
pub open spec fn fits(value: int) -> bool {
    i64::MIN <= value <= i64::MAX
}

/// The joules in `mantissa / 10^scale` kilowatt-hours, where that is a whole
/// number of joules that fits in 64 bits. Nothing is rounded: a value that is
/// no whole number of joules has none.
pub open spec fn exact_joules(mantissa: int, scale: nat) -> Option<int> {
    let scaled = mantissa * JOULES_PER_KWH;
    let unit = pow(10, scale);
    if scaled % unit == 0 && fits(scaled / unit) {
        Some(scaled / unit)
    } else {
        None
    }
}

/// The kilowatt-hours in `joules`: the count divided by 3600 and then by
/// 1000, each quotient as `rust_decimal` computes it.
pub open spec fn kwh_of(joules: int) -> Option<DecimalView> {
    let count = DecimalView { mantissa: joules, scale: 0 };
    let hour = DecimalView { mantissa: 3600, scale: 0 };
    let kilo = DecimalView { mantissa: 1000, scale: 0 };
    match quotient(count, hour) {
        Some(watt_hours) => quotient(watt_hours, kilo),
        None => None,
    }
}

impl Joule {
    /// This energy in kilowatt-hours, or `None` where a division reports an
    /// overflow.
    pub fn kwh(self) -> (kwh: Option<Decimal>)
        ensures
            kwh matches Some(d) ==> kwh_of(self.0 as int) == Some(d@),
            kwh is None ==> kwh_of(self.0 as int) is None,
    {
        let count = Decimal::from_i64(self.0);
        let hour = Decimal::from_i64(3600);
        let kilo = Decimal::from_i64(1000);
        match count.checked_div(hour) {
            Some(watt_hours) => watt_hours.checked_div(kilo),
            None => None,
        }
    }

    /// The energy of `kwh` kilowatt-hours, where that is a whole number of
    /// joules that fits in 64 bits; `None` otherwise. Nothing is rounded.
    pub fn from_kwh(kwh: Decimal) -> (energy: Option<Joule>)
        ensures
            energy matches Some(j) ==> exact_joules(kwh@.mantissa, kwh@.scale) == Some(j.0 as int),
            energy is None ==> exact_joules(kwh@.mantissa, kwh@.scale) is None,
    {
        let mantissa = kwh.mantissa();
        let unit = pow10(kwh.scale());
        let negative = mantissa < 0;
        let magnitude: u128 = if negative {
            (-mantissa) as u128
        } else {
            mantissa as u128
        };
        let scaled: u128 = magnitude * 3_600_000;
        let count: u128 = scaled / unit;
        let rest: u128 = scaled % unit;
        proof {
            lemma_signed_division(mantissa as int * JOULES_PER_KWH, unit as int);
        }
        if rest != 0 {
            None
        } else if negative {
            if count <= 0x8000_0000_0000_0000 {
                Some(Joule((-(count as i128)) as i64))
            } else {
                None
            }
        } else {
            if count <= 0x7FFF_FFFF_FFFF_FFFF {
                Some(Joule(count as i64))
            } else {
                None
            }
        }
    }

    /// Adds `rhs` to this energy.
    pub fn add_assign(&mut self, rhs: Joule)
        requires
            fits(old(self).0 + rhs.0),
        ensures
            final(self).0 == old(self).0 + rhs.0,
    {
        *self = Joule(self.0 + rhs.0);
    }

    /// Takes `rhs` from this energy.
    pub fn sub_assign(&mut self, rhs: Joule)
        requires
            fits(old(self).0 - rhs.0),
        ensures
            final(self).0 == old(self).0 - rhs.0,
    {
        *self = Joule(self.0 - rhs.0);
    }
}

impl core::ops::Sub for Joule {
    type Output = Joule;

    fn sub(self, rhs: Joule) -> (difference: Joule) {
        Joule(self.0 - rhs.0)
    }
}

impl vstd::std_specs::ops::SubSpecImpl for Joule {
    open spec fn obeys_sub_spec() -> bool {
        true
    }

    open spec fn sub_req(self, rhs: Joule) -> bool {
        fits(self.0 - rhs.0)
    }

    open spec fn sub_spec(self, rhs: Joule) -> Joule {
        Joule((self.0 - rhs.0) as i64)
    }
}

impl Default for Joule {
    fn default() -> (zero: Joule)
        ensures
            zero.0 == 0,
    {
        Joule(0)
    }
}

/// A decimal number of kilowatt-hours is `joules` joules exactly where the
/// mantissa times 3,600,000 is `joules` times `10^scale`: the conversion is
/// the multiplication itself, with nothing rounded away.
pub proof fn lemma_exact_joules(mantissa: int, scale: nat, joules: int)
    ensures
        exact_joules(mantissa, scale) == Some(joules) <==> (mantissa * JOULES_PER_KWH == joules
            * pow(10, scale) && fits(joules)),
{
    let scaled = mantissa * JOULES_PER_KWH;
    let unit = pow(10, scale);
    vstd::arithmetic::power::lemma_pow_positive(10, scale);
    vstd::arithmetic::div_mod::lemma_fundamental_div_mod(scaled, unit);
    if scaled == joules * unit {
        lemma_fundamental_div_mod_converse(scaled, unit, joules, 0);
    }
    if scaled % unit == 0 {
        assert(scaled == (scaled / unit) * unit) by (nonlinear_arith)
            requires
                scaled == unit * (scaled / unit) + scaled % unit,
                scaled % unit == 0,
        ;
    }
}

/// Division of a signed number through the division of its magnitude: where
/// the magnitude is a multiple of `unit`, so is the number, and the quotients
/// differ by the sign alone; where it is none, neither is the number.
proof fn lemma_signed_division(value: int, unit: int)
    requires
        unit > 0,
    ensures
        value < 0 && (-value) % unit == 0 ==> value % unit == 0 && value / unit == -((-value)
            / unit),
        value < 0 && (-value) % unit != 0 ==> value % unit != 0,
{
    if value < 0 {
        let magnitude = -value;
        let q = magnitude / unit;
        let r = magnitude % unit;
        vstd::arithmetic::div_mod::lemma_fundamental_div_mod(magnitude, unit);
        if r == 0 {
            assert(value == (-q) * unit + 0) by (nonlinear_arith)
                requires
                    magnitude == unit * q + r,
                    r == 0,
                    value == -magnitude,
            ;
            lemma_fundamental_div_mod_converse(value, unit, -q, 0);
        } else {
            if value % unit == 0 {
                let k = value / unit;
                vstd::arithmetic::div_mod::lemma_fundamental_div_mod(value, unit);
                assert(magnitude == (-k) * unit + 0) by (nonlinear_arith)
                    requires
                        value == unit * k + value % unit,
                        value % unit == 0,
                        value == -magnitude,
                ;
                lemma_fundamental_div_mod_converse(magnitude, unit, -k, 0);
                assert(false);
            }
        }
    }
}

} // verus!
