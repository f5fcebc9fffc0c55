//! A reading of one register at one instant, its stored form and its
//! fingerprint.

use crate::digest::{hex_digest, sha256_hex};
use crate::joule::Joule;
use crate::rate::{rate_of, Rate};
use vstd::prelude::*;

verus! {

/// One observation: the energy that the register of `rate` showed at `time`,
/// in seconds since the Unix epoch.
#[derive(Debug, Clone, Copy, PartialEq, Eq, Structural)]
pub struct State {
    pub rate: Rate,
    pub energy: Joule,
    pub time: i64,
}

/// The length of a stored record: one byte of rate, eight of energy, eight
/// of time.
pub const RECORD_LEN: usize = 17;

/// The length of the part of a record that the fingerprint covers: rate and
/// energy.
pub const KEY_LEN: usize = 9;

/// The unsigned 64-bit word with the bits of `value` in two's complement.
pub open spec fn word_of(value: i64) -> int {
    if value < 0 {
        value + 0x1_0000_0000_0000_0000
    } else {
        value as int
    }
}

/// The signed number whose two's complement is `word`.
pub open spec fn value_of(word: int) -> int {
    if word >= 0x8000_0000_0000_0000 {
        word - 0x1_0000_0000_0000_0000
    } else {
        word
    }
}

/// The eight bytes of `word`, the lowest first.
pub open spec fn le_bytes(word: int) -> Seq<u8> {
    seq![
        (word % 0x100) as u8,
        (word / 0x100 % 0x100) as u8,
        (word / 0x1_0000 % 0x100) as u8,
        (word / 0x100_0000 % 0x100) as u8,
        (word / 0x1_0000_0000 % 0x100) as u8,
        (word / 0x100_0000_0000 % 0x100) as u8,
        (word / 0x1_0000_0000_0000 % 0x100) as u8,
        (word / 0x100_0000_0000_0000 % 0x100) as u8,
    ]
}

/// The word whose bytes, the lowest first, are the eight bytes of `bytes`
/// from `at` on.
pub open spec fn le_word(bytes: Seq<u8>, at: int) -> int {
    bytes[at] + 0x100 * bytes[at + 1] + 0x1_0000 * bytes[at + 2] + 0x100_0000 * bytes[at + 3]
        + 0x1_0000_0000 * bytes[at + 4] + 0x100_0000_0000 * bytes[at + 5] + 0x1_0000_0000_0000
        * bytes[at + 6] + 0x100_0000_0000_0000 * bytes[at + 7]
}

/// The part of a record that identifies a reading: the byte of its rate and
/// its energy, the lowest byte first. The time is no part of it.
pub open spec fn key_bytes(state: State) -> Seq<u8> {
    seq![state.rate.spec_discriminant()] + le_bytes(word_of(state.energy.0))
}

/// The stored form of a reading: its key bytes, then its time, the lowest
/// byte first.
pub open spec fn record_bytes(state: State) -> Seq<u8> {
    key_bytes(state) + le_bytes(word_of(state.time))
}

/// The reading that `bytes` is the stored form of, if it is one: seventeen
/// bytes, the first of them the byte of a rate.
pub open spec fn record_state(bytes: Seq<u8>) -> Option<State> {
    if bytes.len() != RECORD_LEN {
        None
    } else {
        match rate_of(bytes[0]) {
            None => None,
            Some(rate) => Some(
                State {
                    rate,
                    energy: Joule(value_of(le_word(bytes, 1)) as i64),
                    time: value_of(le_word(bytes, 9)) as i64,
                },
            ),
        }
    }
}

/// The fingerprint of a reading: the SHA-256 digest, in hexadecimal, of its
/// key bytes.
pub open spec fn fingerprint(state: State) -> Seq<char> {
    sha256_hex(key_bytes(state))
}

impl State {
    /// The stored form of this reading, seventeen bytes.
    pub fn to_record(&self) -> (bytes: Vec<u8>)
        ensures
            bytes@ == record_bytes(*self),
    {
        let mut bytes: Vec<u8> = Vec::new();
        bytes.push(self.rate.discriminant());
        push_le(&mut bytes, self.energy.0);
        push_le(&mut bytes, self.time);
        bytes
    }

    /// The reading that `bytes` is the stored form of; `None` where `bytes`
    /// is not seventeen bytes long or does not begin with the byte of a rate.
    pub fn from_record(bytes: &[u8]) -> (state: Option<State>)
        ensures
            state == record_state(bytes@),
    {
        if bytes.len() != RECORD_LEN {
            return None;
        }
        match Rate::from_discriminant(bytes[0]) {
            None => None,
            Some(rate) => Some(
                State { rate, energy: Joule(read_le(bytes, 1)), time: read_le(bytes, 9) },
            ),
        }
    }

    /// The fingerprint of this reading: the SHA-256 digest, in hexadecimal,
    /// of its rate and its energy. Two readings of one counter value have one
    /// fingerprint, whenever they were taken.
    pub fn checksum(&self) -> (hex: String)
        ensures
            hex@ == fingerprint(*self),
    {
        let mut key: Vec<u8> = Vec::new();
        key.push(self.rate.discriminant());
        push_le(&mut key, self.energy.0);
        hex_digest(key.as_slice())
    }
}

impl<'a> From<&'a State> for Vec<u8> {
    /// The stored form of `state`.
    fn from(state: &'a State) -> (bytes: Vec<u8>)
        ensures
            bytes@ == record_bytes(*state),
    {
        state.to_record()
    }
}

/// What `from` returns is said by its own `ensures`, over the bytes of the
/// vector: a vector is known by its bytes alone.
impl<'a> vstd::std_specs::convert::FromSpecImpl<&'a State> for Vec<u8> {
    open spec fn obeys_from_spec() -> bool {
        false
    }

    open spec fn from_spec(state: &'a State) -> Vec<u8> {
        choose|bytes: Vec<u8>| bytes@ == record_bytes(*state)
    }
}

/// Appends the eight bytes of `value` in two's complement, the lowest first.
fn push_le(bytes: &mut Vec<u8>, value: i64)
    ensures
        final(bytes)@ == old(bytes)@ + le_bytes(word_of(value)),
{
    let word: u64 = if value < 0 {
        (value as i128 + 0x1_0000_0000_0000_0000) as u64
    } else {
        value as u64
    };
    bytes.push((word % 0x100) as u8);
    bytes.push((word / 0x100 % 0x100) as u8);
    bytes.push((word / 0x1_0000 % 0x100) as u8);
    bytes.push((word / 0x100_0000 % 0x100) as u8);
    bytes.push((word / 0x1_0000_0000 % 0x100) as u8);
    bytes.push((word / 0x100_0000_0000 % 0x100) as u8);
    bytes.push((word / 0x1_0000_0000_0000 % 0x100) as u8);
    bytes.push((word / 0x100_0000_0000_0000 % 0x100) as u8);
    assert(bytes@ =~= old(bytes)@ + le_bytes(word_of(value)));
}

/// Reads the signed number whose two's complement is held by the eight bytes
/// from `at` on, the lowest first.
fn read_le(bytes: &[u8], at: usize) -> (value: i64)
    requires
        at + 8 <= bytes.len(),
    ensures
        value == value_of(le_word(bytes@, at as int)),
{
    let word: u64 = bytes[at] as u64 + 0x100 * (bytes[at + 1] as u64) + 0x1_0000 * (bytes[at
        + 2] as u64) + 0x100_0000 * (bytes[at + 3] as u64) + 0x1_0000_0000 * (bytes[at + 4] as u64)
        + 0x100_0000_0000 * (bytes[at + 5] as u64) + 0x1_0000_0000_0000 * (bytes[at + 6] as u64)
        + 0x100_0000_0000_0000 * (bytes[at + 7] as u64);
    if word >= 0x8000_0000_0000_0000 {
        (word as i128 - 0x1_0000_0000_0000_0000) as i64
    } else {
        word as i64
    }
}

/// The eight bytes of a word give the word back.
pub proof fn lemma_le_round_trip(word: int)
    requires
        0 <= word < 0x1_0000_0000_0000_0000,
    ensures
        le_bytes(word).len() == 8,
        le_word(le_bytes(word), 0) == word,
{
    let w1 = word / 0x100;
    let w2 = w1 / 0x100;
    let w3 = w2 / 0x100;
    let w4 = w3 / 0x100;
    let w5 = w4 / 0x100;
    let w6 = w5 / 0x100;
    let w7 = w6 / 0x100;
    assert(word / 0x1_0000 == w2);
    assert(word / 0x100_0000 == w3);
    assert(word / 0x1_0000_0000 == w4);
    assert(word / 0x100_0000_0000 == w5);
    assert(word / 0x1_0000_0000_0000 == w6);
    assert(word / 0x100_0000_0000_0000 == w7);
    assert(w7 < 0x100);
    let bytes = le_bytes(word);
    assert(bytes[0] == word % 0x100);
    assert(bytes[1] == w1 % 0x100);
    assert(bytes[2] == w2 % 0x100);
    assert(bytes[3] == w3 % 0x100);
    assert(bytes[4] == w4 % 0x100);
    assert(bytes[5] == w5 % 0x100);
    assert(bytes[6] == w6 % 0x100);
    assert(bytes[7] == w7);
}

/// The two's complement of a number gives the number back.
pub proof fn lemma_word_round_trip(value: i64)
    ensures
        0 <= word_of(value) < 0x1_0000_0000_0000_0000,
        value_of(word_of(value)) == value,
{
}

/// A stored record reads back as the reading that it was written from.
pub proof fn lemma_record_round_trip(state: State)
    ensures
        record_bytes(state).len() == RECORD_LEN,
        record_state(record_bytes(state)) == Some(state),
{
    let energy = word_of(state.energy.0);
    let time = word_of(state.time);
    let bytes = record_bytes(state);
    lemma_word_round_trip(state.energy.0);
    lemma_word_round_trip(state.time);
    lemma_le_round_trip(energy);
    lemma_le_round_trip(time);
    assert(bytes[0] == state.rate.spec_discriminant());
    assert forall|i: int| 0 <= i < 8 implies bytes[1 + i] == le_bytes(energy)[i] && bytes[9 + i]
        == le_bytes(time)[i] by {}
    assert(le_word(bytes, 1) == le_word(le_bytes(energy), 0));
    assert(le_word(bytes, 9) == le_word(le_bytes(time), 0));
}

/// The word of eight bytes has those bytes.
pub proof fn lemma_le_bytes_of_word(bytes: Seq<u8>, at: int)
    requires
        0 <= at,
        at + 8 <= bytes.len(),
    ensures
        0 <= le_word(bytes, at) < 0x1_0000_0000_0000_0000,
        le_bytes(le_word(bytes, at)) == bytes.subrange(at, at + 8),
{
    let word = le_word(bytes, at);
    // The word without its lowest byte, without its two lowest bytes, and so
    // on.
    let t7 = bytes[at + 7] as int;
    let t6 = bytes[at + 6] + 0x100 * t7;
    let t5 = bytes[at + 5] + 0x100 * t6;
    let t4 = bytes[at + 4] + 0x100 * t5;
    let t3 = bytes[at + 3] + 0x100 * t4;
    let t2 = bytes[at + 2] + 0x100 * t3;
    let t1 = bytes[at + 1] + 0x100 * t2;
    assert(word == bytes[at] + 0x100 * t1);
    assert(word / 0x100 == t1 && word % 0x100 == bytes[at]);
    assert(t1 / 0x100 == t2 && t1 % 0x100 == bytes[at + 1]);
    assert(t2 / 0x100 == t3 && t2 % 0x100 == bytes[at + 2]);
    assert(t3 / 0x100 == t4 && t3 % 0x100 == bytes[at + 3]);
    assert(t4 / 0x100 == t5 && t4 % 0x100 == bytes[at + 4]);
    assert(t5 / 0x100 == t6 && t5 % 0x100 == bytes[at + 5]);
    assert(t6 / 0x100 == t7 && t6 % 0x100 == bytes[at + 6]);
    assert(word / 0x1_0000 == t2);
    assert(word / 0x100_0000 == t3);
    assert(word / 0x1_0000_0000 == t4);
    assert(word / 0x100_0000_0000 == t5);
    assert(word / 0x1_0000_0000_0000 == t6);
    assert(word / 0x100_0000_0000_0000 == t7);
    assert(le_bytes(word) =~= bytes.subrange(at, at + 8));
}

/// Only the record of a reading reads as that reading: the bytes that
/// `record_state` takes for `state` are `record_bytes(state)`.
pub proof fn lemma_record_is_unique(bytes: Seq<u8>, state: State)
    requires
        record_state(bytes) == Some(state),
    ensures
        bytes == record_bytes(state),
{
    lemma_le_bytes_of_word(bytes, 1);
    lemma_le_bytes_of_word(bytes, 9);
    let energy = le_word(bytes, 1);
    let time = le_word(bytes, 9);
    assert(word_of(value_of(energy) as i64) == energy);
    assert(word_of(value_of(time) as i64) == time);
    assert(bytes =~= seq![bytes[0]] + bytes.subrange(1, 9) + bytes.subrange(9, 17));
}

/// Readings of one rate and one energy have one fingerprint, whatever their
/// times.
pub proof fn lemma_fingerprint_ignores_time(first: State, second: State)
    requires
        first.rate == second.rate,
        first.energy == second.energy,
    ensures
        key_bytes(first) == key_bytes(second),
        fingerprint(first) == fingerprint(second),
{
}

} // verus!
