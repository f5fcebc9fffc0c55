//! Usage over a span of time: for each rate, the energy between the earliest
//! and the latest reading of the span.
//!
//! A register only grows, so what was used in a span is the last reading less
//! the first. Readings between the two play no part, and a gap in them does
//! no harm.

use crate::joule::{fits, Joule};
use crate::rate::Rate;
use crate::state::State;
use crate::state_list::{
    earliest, is_earliest, is_latest, latest, lemma_extremes, lemma_extremes_unique,
    lemma_normalized_ends, StateList,
};
use vstd::prelude::*;

verus! {

/// The usage of a span: one energy for each rate, and their sum.
#[derive(Debug, Clone, Copy, PartialEq, Eq, Structural)]
pub struct Report {
    pub normal: Joule,
    pub off_peak: Joule,
    pub total: Joule,
}

/// The test that a reading is of `rate` and was taken from `start` to `end`,
/// both included.
pub open spec fn in_group(rate: Rate, start: i64, end: i64) -> spec_fn(State) -> bool {
    |state: State| state.rate == rate && start <= state.time <= end
}

/// The readings of `rate` taken from `start` to `end`, both included, in the
/// order in which they stand in `readings`.
pub open spec fn group(readings: Seq<State>, rate: Rate, start: i64, end: i64) -> Seq<State> {
    readings.filter(in_group(rate, start, end))
}

/// The energy used over the readings of one register: the latest reading less
/// the earliest. Without readings nothing is known to be used.
pub open spec fn usage(states: Seq<State>) -> int {
    if states.len() == 0 {
        0
    } else {
        states[latest(states)].energy.0 - states[earliest(states)].energy.0
    }
}

/// Whether the usage of each rate and their sum are energies that 64 bits
/// hold.
pub open spec fn reportable(readings: Seq<State>, start: i64, end: i64) -> bool {
    let normal = usage(group(readings, Rate::Normal, start, end));
    let off_peak = usage(group(readings, Rate::OffPeak, start, end));
    fits(normal) && fits(off_peak) && fits(normal + off_peak)
}

/// Whether `report` is the usage of `readings` from `start` to `end`.
pub open spec fn reports(report: Report, readings: Seq<State>, start: i64, end: i64) -> bool {
    &&& report.normal.0 == usage(group(readings, Rate::Normal, start, end))
    &&& report.off_peak.0 == usage(group(readings, Rate::OffPeak, start, end))
    &&& report.total.0 == report.normal.0 + report.off_peak.0
}

impl Report {
    /// The usage of `rate`.
    pub fn usage(&self, rate: Rate) -> (energy: Joule)
        ensures
            energy == (match rate {
                Rate::Normal => self.normal,
                Rate::OffPeak => self.off_peak,
            }),
    {
        match rate {
            Rate::Normal => self.normal,
            Rate::OffPeak => self.off_peak,
        }
    }
}

/// The usage of each rate over the readings taken from `span_start` to
/// `span_end`, both included, and the sum of the two. A rate with fewer than
/// two readings in the span has used nothing.
pub fn report(span_start: i64, span_end: i64, readings: &[State]) -> (result: Report)
    requires
        reportable(readings@, span_start, span_end),
    ensures
        reports(result, readings@, span_start, span_end),
{
    let normal = usage_of(collect(readings, Rate::Normal, span_start, span_end));
    let off_peak = usage_of(collect(readings, Rate::OffPeak, span_start, span_end));
    Report {
        normal: Joule(normal as i64),
        off_peak: Joule(off_peak as i64),
        total: Joule((normal + off_peak) as i64),
    }
}

/// As `report`, for readings of which it is not known that their usage fits:
/// `None` where the usage of a rate, or the sum, is no energy that 64 bits
/// hold.
pub fn checked_report(span_start: i64, span_end: i64, readings: &[State]) -> (result: Option<
    Report,
>)
    ensures
        result is Some <==> reportable(readings@, span_start, span_end),
        result matches Some(found) ==> reports(found, readings@, span_start, span_end),
{
    let normal = usage_of(collect(readings, Rate::Normal, span_start, span_end));
    let off_peak = usage_of(collect(readings, Rate::OffPeak, span_start, span_end));
    let total = normal + off_peak;
    if holds(normal) && holds(off_peak) && holds(total) {
        Some(
            Report {
                normal: Joule(normal as i64),
                off_peak: Joule(off_peak as i64),
                total: Joule(total as i64),
            },
        )
    } else {
        None
    }
}

/// Whether `value` is an energy that 64 bits hold.
fn holds(value: i128) -> (held: bool)
    ensures
        held == fits(value as int),
{
    -0x8000_0000_0000_0000 <= value && value <= 0x7FFF_FFFF_FFFF_FFFF
}

/// The readings of `rate` in the span, in the order of `readings`.
fn collect(readings: &[State], rate: Rate, start: i64, end: i64) -> (found: Vec<State>)
    ensures
        found@ == group(readings@, rate, start, end),
{
    let ghost test = in_group(rate, start, end);
    let mut found: Vec<State> = Vec::new();
    let mut i: usize = 0;
    proof {
        reveal(Seq::filter);
        assert(readings@.take(0).filter(test) == Seq::<State>::empty());
    }
    while i < readings.len()
        invariant
            i <= readings.len(),
            test == in_group(rate, start, end),
            found@ == readings@.take(i as int).filter(test),
        decreases readings.len() - i,
    {
        let state = readings[i];
        proof {
            reveal(Seq::filter);
            assert(readings@.take(i + 1).drop_last() == readings@.take(i as int));
        }
        if same_rate(state.rate, rate) && start <= state.time && state.time <= end {
            found.push(state);
        }
        i += 1;
    }
    assert(readings@.take(i as int) == readings@);
    found
}

/// Whether two rates are one.
fn same_rate(left: Rate, right: Rate) -> (same: bool)
    ensures
        same == (left == right),
{
    match (left, right) {
        (Rate::Normal, Rate::Normal) => true,
        (Rate::OffPeak, Rate::OffPeak) => true,
        _ => false,
    }
}

/// The usage over `states`: they are put in the order of their times, and
/// the first is taken from the last.
fn usage_of(states: Vec<State>) -> (used: i128)
    ensures
        used == usage(states@),
{
    let ghost before = states@;
    let mut states = states;
    states.normalize();
    if states.len() == 0 {
        0
    } else {
        proof {
            lemma_normalized_ends(before, states@);
        }
        let first = states[0].energy.0;
        let last = states[states.len() - 1].energy.0;
        last as i128 - first as i128
    }
}

/// A rate with a single reading in the span has used nothing.
pub proof fn lemma_single_reading_uses_nothing(states: Seq<State>)
    requires
        states.len() == 1,
    ensures
        usage(states) == 0,
{
}

/// The usage is that between the earliest and the latest reading, whatever
/// the readings between them show: another energy in any other place leaves
/// the usage as it was.
pub proof fn lemma_usage_ignores_intermediate(states: Seq<State>, place: int, energy: Joule)
    requires
        0 <= place < states.len(),
        place != earliest(states),
        place != latest(states),
    ensures
        usage(states.update(place, State { energy, ..states[place] })) == usage(states),
{
    let changed = states.update(place, State { energy, ..states[place] });
    lemma_extremes(states);
    assert(is_earliest(changed, earliest(states)));
    assert(is_latest(changed, latest(states)));
    lemma_extremes_unique(changed, earliest(states), latest(states));
}

} // verus!
