//! Readings from a table of past counter values, and the rows under which
//! readings go into a table.

use crate::decimal::{Decimal, DecimalView};
use crate::joule::{exact_joules, fits, Joule};
use crate::rate::Rate;
use crate::state::{fingerprint, State};
use vstd::prelude::*;

verus! {

/// The row for a reading: its fingerprint, the flag of its rate, its energy
/// and its time.
#[derive(Debug)]
pub struct NewHistory {
    pub checksum: String,
    pub rate: bool,
    pub energy: Joule,
    pub time: i64,
}

/// The energy that a rate has used in all: what was imported less what was
/// exported, where both are whole numbers of joules and the difference is an
/// energy that 64 bits hold.
pub open spec fn net_joules(imported: DecimalView, exported: DecimalView) -> Option<int> {
    match (
        exact_joules(imported.mantissa, imported.scale),
        exact_joules(exported.mantissa, exported.scale),
    ) {
        (Some(taken), Some(given)) => if fits(taken - given) {
            Some(taken - given)
        } else {
            None
        },
        _ => None,
    }
}

/// The reading of `rate` at `time` with the energy `joules`, if there is
/// one.
pub open spec fn reading_of(rate: Rate, time: i64, joules: Option<int>) -> Option<State> {
    match joules {
        Some(energy) => Some(State { rate, energy: Joule(energy as i64), time }),
        None => None,
    }
}

/// The row under which `state` goes into a table.
pub fn history_row(state: &State) -> (row: NewHistory)
    ensures
        row.checksum@ == fingerprint(*state),
        row.rate == (state.rate == Rate::Normal),
        row.energy == state.energy,
        row.time == state.time,
{
    NewHistory {
        checksum: state.checksum(),
        rate: state.rate.is_normal(),
        energy: state.energy,
        time: state.time,
    }
}

/// The reading of `rate` at `time` from the two counters of that rate, in
/// kilowatt-hours: the energy imported less the energy exported. `None` where
/// a counter is no whole number of joules or the difference is more than 64
/// bits hold.
pub fn net_reading(rate: Rate, time: i64, imported: Decimal, exported: Decimal) -> (reading:
    Option<State>)
    ensures
        reading == reading_of(rate, time, net_joules(imported@, exported@)),
{
    match (Joule::from_kwh(imported), Joule::from_kwh(exported)) {
        (Some(taken), Some(given)) => {
            let net = taken.0 as i128 - given.0 as i128;
            if -0x8000_0000_0000_0000 <= net && net <= 0x7FFF_FFFF_FFFF_FFFF {
                Some(State { rate, energy: Joule(net as i64), time })
            } else {
                None
            }
        },
        _ => None,
    }
}

/// The two readings of one line of a table of past counter values, the
/// normal rate first. `None` where either has none.
pub fn readings_of_row(
    time: i64,
    t1_import: Decimal,
    t1_export: Decimal,
    t2_import: Decimal,
    t2_export: Decimal,
) -> (readings: Option<(State, State)>)
    ensures
        readings == (match (
            reading_of(Rate::Normal, time, net_joules(t1_import@, t1_export@)),
            reading_of(Rate::OffPeak, time, net_joules(t2_import@, t2_export@)),
        ) {
            (Some(normal), Some(off_peak)) => Some((normal, off_peak)),
            _ => None,
        }),
{
    match (
        net_reading(Rate::Normal, time, t1_import, t1_export),
        net_reading(Rate::OffPeak, time, t2_import, t2_export),
    ) {
        (Some(normal), Some(off_peak)) => Some((normal, off_peak)),
        _ => None,
    }
}

} // verus!
