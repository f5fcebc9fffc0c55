//! The tariff under which a meter register counts.

use vstd::prelude::*;

verus! {

/// The billing rate of a register: the meter keeps one counter per rate.
#[derive(Debug, Hash, PartialEq, Eq, Clone, Copy, Structural)]
pub enum Rate {
    Normal,
    OffPeak,
}

/// The rate that the byte `byte` stands for: `1` is `Normal`, `2` is
/// `OffPeak`, and no other byte stands for a rate.
pub open spec fn rate_of(byte: u8) -> Option<Rate> {
    if byte == 1 {
        Some(Rate::Normal)
    } else if byte == 2 {
        Some(Rate::OffPeak)
    } else {
        None
    }
}

impl Rate {
    /// The byte that stands for this rate, in a stored record and in the
    /// meter's tariff indicator.
    pub open spec fn spec_discriminant(self) -> u8 {
        match self {
            Rate::Normal => 1,
            Rate::OffPeak => 2,
        }
    }

    /// The byte that stands for this rate: `1` for `Normal`, `2` for
    /// `OffPeak`.
    #[verifier::when_used_as_spec(spec_discriminant)]
    pub fn discriminant(self) -> (byte: u8)
        ensures
            byte == self.spec_discriminant(),
    {
        match self {
            Rate::Normal => 1,
            Rate::OffPeak => 2,
        }
    }

    /// The place of this rate where the two are listed: `0` for `Normal`,
    /// `1` for `OffPeak`.
    pub fn index(self) -> (place: usize)
        ensures
            place == self.spec_discriminant() - 1,
    {
        match self {
            Rate::Normal => 0,
            Rate::OffPeak => 1,
        }
    }

    /// Whether this is the normal rate: the flag that stands for the rate in
    /// a row of a table.
    pub fn is_normal(self) -> (normal: bool)
        ensures
            normal == (self == Rate::Normal),
    {
        match self {
            Rate::Normal => true,
            Rate::OffPeak => false,
        }
    }

    /// The rate that the flag `normal` stands for.
    pub fn from_flag(normal: bool) -> (rate: Rate)
        ensures
            rate == (if normal {
                Rate::Normal
            } else {
                Rate::OffPeak
            }),
    {
        if normal {
            Rate::Normal
        } else {
            Rate::OffPeak
        }
    }

    /// The rate that `byte` stands for, if any.
    pub fn from_discriminant(byte: u8) -> (rate: Option<Rate>)
        ensures
            rate == rate_of(byte),
    {
        if byte == 1 {
            Some(Rate::Normal)
        } else if byte == 2 {
            Some(Rate::OffPeak)
        } else {
            None
        }
    }
}

/// A rate is found again from its byte, and a byte from its rate.
pub proof fn lemma_discriminant_round_trip(rate: Rate, byte: u8)
    ensures
        rate_of(rate.spec_discriminant()) == Some(rate),
        rate_of(byte) == Some(rate) <==> byte == rate.spec_discriminant(),
{
}

} // verus!
