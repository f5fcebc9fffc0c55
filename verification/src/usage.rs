//! What a meter has delivered and received, as a poller stores it: one row
//! whenever the two counters of the rate in force have changed.

use crate::joule::Joule;
use crate::rate::{rate_of, Rate};
use vstd::prelude::*;

verus! {

/// A row to store: the counters of one rate at one instant, in seconds since
/// the Unix epoch.
#[derive(Debug, Clone, Copy, PartialEq, Eq, Structural)]
pub struct NewUsage {
    pub rate: Rate,
    pub delivered: Joule,
    pub received: Joule,
    pub created_at: i64,
}

/// A stored row, with the number that the store gave it.
#[derive(Debug, Clone, Copy, PartialEq, Eq, Structural)]
pub struct Usage {
    pub id: i32,
    pub rate: Rate,
    pub delivered: Joule,
    pub received: Joule,
    pub created_at: i64,
}

/// The counters of the row that was stored last, if any was.
#[derive(Debug, Clone, Copy, PartialEq, Eq, Structural)]
pub struct LastSeen {
    pub delivered: Option<Joule>,
    pub received: Option<Joule>,
}

/// Whether `usage` repeats what was seen last: both counters stand as they
/// stood.
pub open spec fn repeats(last: LastSeen, usage: NewUsage) -> bool {
    last.delivered == Some(usage.delivered) && last.received == Some(usage.received)
}

/// What was seen last once `usage` has been observed.
pub open spec fn seen(usage: NewUsage) -> LastSeen {
    LastSeen { delivered: Some(usage.delivered), received: Some(usage.received) }
}

impl NewUsage {
    /// The row for the tariff indicator `indicator` and the counters of its
    /// rate; `None` where the indicator is neither `1` nor `2`.
    pub fn new(indicator: u8, delivered: Joule, received: Joule, created_at: i64) -> (row: Option<
        NewUsage,
    >)
        ensures
            row == (match rate_of(indicator) {
                Some(rate) => Some(NewUsage { rate, delivered, received, created_at }),
                None => None,
            }),
    {
        match Rate::from_discriminant(indicator) {
            Some(rate) => Some(NewUsage { rate, delivered, received, created_at }),
            None => None,
        }
    }
}

impl LastSeen {
    /// Nothing seen yet.
    pub fn new() -> (last: LastSeen)
        ensures
            last == (LastSeen { delivered: None, received: None }),
    {
        LastSeen { delivered: None, received: None }
    }

    /// Takes note of `usage` and tells whether it is to be stored: it is,
    /// unless it repeats what was seen last. Afterwards `usage` is what was
    /// seen last.
    pub fn observe(&mut self, usage: &NewUsage) -> (store: bool)
        ensures
            store == !repeats(*old(self), *usage),
            *final(self) == seen(*usage),
    {
        let repeated = same(self.delivered, usage.delivered) && same(self.received, usage.received);
        self.delivered = Some(usage.delivered);
        self.received = Some(usage.received);
        !repeated
    }
}

/// Whether `last` holds `now`.
fn same(last: Option<Joule>, now: Joule) -> (same: bool)
    ensures
        same == (last == Some(now)),
{
    match last {
        Some(energy) => energy.0 == now.0,
        None => false,
    }
}

/// A row that is observed twice in a row is stored at most once: the second
/// observation repeats the first.
pub proof fn lemma_repeated_usage_not_stored(usage: NewUsage, again: NewUsage)
    requires
        again.delivered == usage.delivered,
        again.received == usage.received,
    ensures
        repeats(seen(usage), again),
{
}

} // verus!
