//! The parser of telegrams: from the tokens of a telegram to the readings
//! that it holds.
//!
//! A telegram is a comment and then, any number of times, the code of a
//! register with its values. Four registers count energy: for each of the two
//! rates one counts what was imported and one what was exported. A fifth
//! tells which rate is in force. Registers of any other code are passed over
//! with all their values.

use crate::decimal::{parsed_decimal, Decimal};
use crate::joule::{exact_joules, fits, Joule};
use crate::lexer::{is_digit, lexemes, LexError, Lexeme, Lexer, Token};
use crate::rate::Rate;
use crate::state::State;
use vstd::prelude::*;
use vstd::slice::slice_subrange;
use vstd::string::StringSliceAdditionalSpecFns;

verus! {

/// Why a telegram holds no readings.
#[derive(Debug, Clone, Copy, PartialEq, Eq, Structural)]
pub enum ParseError {
    /// The text is no list of tokens in the order of a telegram.
    Lex(LexError),
    /// No register told which rate is in force.
    MissingTariffIndicator,
    /// The rate in force is neither `1` nor `2`.
    UnknownTariff,
    /// A value is not of the form that its register asks for.
    InvalidValue,
    /// An energy is no whole number of joules that 64 bits hold.
    PrecisionError,
}

impl ParseError {
    /// The name of the error.
    pub fn name(&self) -> (name: &'static str)
        ensures
            name@ == (match self {
                ParseError::Lex(LexError::Eof) => "Eof"@,
                ParseError::Lex(LexError::UnexpectedToken) => "UnexpectedToken"@,
                ParseError::MissingTariffIndicator => "MissingTariffIndicator"@,
                ParseError::UnknownTariff => "UnknownTariff"@,
                ParseError::InvalidValue => "InvalidValue"@,
                ParseError::PrecisionError => "PrecisionError"@,
            }),
    {
        match self {
            ParseError::Lex(error) => error.name(),
            ParseError::MissingTariffIndicator => "MissingTariffIndicator",
            ParseError::UnknownTariff => "UnknownTariff",
            ParseError::InvalidValue => "InvalidValue",
            ParseError::PrecisionError => "PrecisionError",
        }
    }
}

/// The registers that the parser knows, and `Unknown` for all others.
#[derive(Debug, Clone, Copy, PartialEq, Eq, Structural)]
pub enum Register {
    /// Energy imported under the normal rate, code `1-0:2.8.1`.
    Import1,
    /// Energy exported under the normal rate, code `1-0:1.8.1`.
    Export1,
    /// Energy imported under the off-peak rate, code `1-0:2.8.2`.
    Import2,
    /// Energy exported under the off-peak rate, code `1-0:1.8.2`.
    Export2,
    /// The rate in force, code `0-0:96.14.0`.
    TariffIndicator,
    /// Any other register.
    Unknown,
}

/// What the parser has gathered from the registers of a telegram: for each
/// rate the energy imported less the energy exported, whether a register of
/// that rate was met at all, and the rate in force if it was told.
pub struct Tally {
    pub normal: int,
    pub off_peak: int,
    pub normal_seen: bool,
    pub off_peak_seen: bool,
    pub indicator: Option<Rate>,
}

/// The tally before any register.
pub open spec fn empty_tally() -> Tally {
    Tally { normal: 0, off_peak: 0, normal_seen: false, off_peak_seen: false, indicator: None }
}

/// The register of a code.
pub open spec fn register_of(code: Seq<u8>) -> Register {
    if code == "1-0:2.8.1".spec_bytes() {
        Register::Import1
    } else if code == "1-0:1.8.1".spec_bytes() {
        Register::Export1
    } else if code == "1-0:2.8.2".spec_bytes() {
        Register::Import2
    } else if code == "1-0:1.8.2".spec_bytes() {
        Register::Export2
    } else if code == "0-0:96.14.0".spec_bytes() {
        Register::TariffIndicator
    } else {
        Register::Unknown
    }
}

/// Whether `text` ends with `suffix`.
pub open spec fn ends_with(text: Seq<u8>, suffix: Seq<u8>) -> bool {
    text.len() >= suffix.len() && text.skip(text.len() - suffix.len()) == suffix
}

/// The energy that the value of an energy register states: the value ends
/// with `*kWh`, and what stands before is a decimal number of kilowatt-hours
/// that is a whole number of joules.
pub open spec fn kwh_value(value: Seq<u8>) -> Result<int, ParseError> {
    let unit = "*kWh".spec_bytes();
    if !ends_with(value, unit) {
        Err(ParseError::InvalidValue)
    } else {
        match parsed_decimal(value.take(value.len() - unit.len())) {
            None => Err(ParseError::InvalidValue),
            Some(kwh) => match exact_joules(kwh.mantissa, kwh.scale) {
                None => Err(ParseError::PrecisionError),
                Some(joules) => Ok(joules),
            },
        }
    }
}

/// Whether `text` is an unsigned integer literal: digits, and at least one.
pub open spec fn is_literal(text: Seq<u8>) -> bool {
    text.len() > 0 && forall|i: int| 0 <= i < text.len() ==> is_digit(text[i])
}

/// The number that the digits of `text` write.
pub open spec fn literal_value(text: Seq<u8>) -> nat
    decreases text.len(),
{
    if text.len() == 0 {
        0
    } else {
        (literal_value(text.drop_last()) * 10 + (text.last() - 0x30)) as nat
    }
}

/// The rate that the value of the tariff indicator states: the value is an
/// unsigned integer literal, `1` for the normal rate and `2` for the off-peak
/// rate.
pub open spec fn indicated(value: Seq<u8>) -> Result<Rate, ParseError> {
    if !is_literal(value) {
        Err(ParseError::InvalidValue)
    } else if literal_value(value) == 1 {
        Ok(Rate::Normal)
    } else if literal_value(value) == 2 {
        Ok(Rate::OffPeak)
    } else {
        Err(ParseError::UnknownTariff)
    }
}

/// The tally after a register with its value: an import adds to the energy
/// of its rate, an export takes from it, the indicator sets the rate in
/// force, and any other register changes nothing.
pub open spec fn tallied(tally: Tally, register: Register, value: Seq<u8>) -> Result<
    Tally,
    ParseError,
> {
    match register {
        Register::Import1 => match kwh_value(value) {
            Err(error) => Err(error),
            Ok(joules) => Ok(Tally { normal: tally.normal + joules, normal_seen: true, ..tally }),
        },
        Register::Export1 => match kwh_value(value) {
            Err(error) => Err(error),
            Ok(joules) => Ok(Tally { normal: tally.normal - joules, normal_seen: true, ..tally }),
        },
        Register::Import2 => match kwh_value(value) {
            Err(error) => Err(error),
            Ok(joules) => Ok(
                Tally { off_peak: tally.off_peak + joules, off_peak_seen: true, ..tally },
            ),
        },
        Register::Export2 => match kwh_value(value) {
            Err(error) => Err(error),
            Ok(joules) => Ok(
                Tally { off_peak: tally.off_peak - joules, off_peak_seen: true, ..tally },
            ),
        },
        Register::TariffIndicator => match indicated(value) {
            Err(error) => Err(error),
            Ok(rate) => Ok(Tally { indicator: Some(rate), ..tally }),
        },
        Register::Unknown => Ok(tally),
    }
}

/// The tally of the registers in `rest`, the lexemes behind the comment,
/// begun with `tally`. `after_unknown` tells that the last code was unknown:
/// then further values belong to it and are passed over.
///
/// The first thing that is wrong ends the parse: an invalid lexeme or a
/// lexeme out of place is `UnexpectedToken`, a code at the very end is `Eof`,
/// and a value that its register cannot take is the error of `tallied`.
pub open spec fn registers(rest: Seq<Lexeme>, tally: Tally, after_unknown: bool) -> Result<
    Tally,
    ParseError,
>
    decreases rest.len(),
{
    if rest.len() == 0 {
        Ok(tally)
    } else {
        match rest[0] {
            Lexeme::Value(_) => if after_unknown {
                registers(rest.skip(1), tally, true)
            } else {
                Err(ParseError::Lex(LexError::UnexpectedToken))
            },
            Lexeme::Code(code) => if rest.len() == 1 {
                Err(ParseError::Lex(LexError::Eof))
            } else {
                match rest[1] {
                    Lexeme::Value(value) => match tallied(tally, register_of(code), value) {
                        Err(error) => Err(error),
                        Ok(next) => registers(
                            rest.skip(2),
                            next,
                            register_of(code) == Register::Unknown,
                        ),
                    },
                    _ => Err(ParseError::Lex(LexError::UnexpectedToken)),
                }
            },
            _ => Err(ParseError::Lex(LexError::UnexpectedToken)),
        }
    }
}

/// The readings of a tally, taken at `time`: one for each rate of which a
/// register was met, the normal rate first. Without a rate in force there are
/// none, and none where an energy is more than 64 bits hold.
pub open spec fn readings(tally: Tally, time: i64) -> Result<Seq<State>, ParseError> {
    if tally.indicator is None {
        Err(ParseError::MissingTariffIndicator)
    } else if (tally.normal_seen && !fits(tally.normal)) || (tally.off_peak_seen && !fits(
        tally.off_peak,
    )) {
        Err(ParseError::PrecisionError)
    } else {
        let normal = if tally.normal_seen {
            seq![State { rate: Rate::Normal, energy: Joule(tally.normal as i64), time }]
        } else {
            Seq::<State>::empty()
        };
        let off_peak = if tally.off_peak_seen {
            seq![State { rate: Rate::OffPeak, energy: Joule(tally.off_peak as i64), time }]
        } else {
            Seq::<State>::empty()
        };
        Ok(normal + off_peak)
    }
}

/// The readings of a telegram given by its lexemes, taken at `time`. The
/// first lexeme has to be a comment: `Eof` where there is none at all,
/// `UnexpectedToken` where another one stands first.
pub open spec fn telegram(all: Seq<Lexeme>, time: i64) -> Result<Seq<State>, ParseError> {
    if all.len() == 0 {
        Err(ParseError::Lex(LexError::Eof))
    } else {
        match all[0] {
            Lexeme::Comment(_) => match registers(all.skip(1), empty_tally(), false) {
                Err(error) => Err(error),
                Ok(tally) => readings(tally, time),
            },
            _ => Err(ParseError::Lex(LexError::UnexpectedToken)),
        }
    }
}

/// The readings of the telegram with the bytes `raw`, taken at `time`.
pub open spec fn telegram_readings(raw: Seq<u8>, time: i64) -> Result<Seq<State>, ParseError> {
    telegram(lexemes(raw, 0), time)
}

/// The register of `code`.
pub fn classify(code: &[u8]) -> (register: Register)
    ensures
        register == register_of(code@),
{
    if same_bytes(code, "1-0:2.8.1".as_bytes()) {
        Register::Import1
    } else if same_bytes(code, "1-0:1.8.1".as_bytes()) {
        Register::Export1
    } else if same_bytes(code, "1-0:2.8.2".as_bytes()) {
        Register::Import2
    } else if same_bytes(code, "1-0:1.8.2".as_bytes()) {
        Register::Export2
    } else if same_bytes(code, "0-0:96.14.0".as_bytes()) {
        Register::TariffIndicator
    } else {
        Register::Unknown
    }
}

/// The energy that the value of an energy register states. `InvalidValue`
/// where the value does not end with `*kWh` or no decimal number stands
/// before; `PrecisionError` where the number is no whole number of joules
/// that 64 bits hold.
pub fn parse_kwh(value: &[u8]) -> (energy: Result<Joule, ParseError>)
    ensures
        energy matches Ok(joules) ==> kwh_value(value@) == Ok::<int, ParseError>(joules.0 as int),
        energy matches Err(error) ==> kwh_value(value@) == Err::<int, ParseError>(error),
{
    let unit = "*kWh".as_bytes();
    if !has_suffix(value, unit) {
        return Err(ParseError::InvalidValue);
    }
    let number = slice_subrange(value, 0, value.len() - unit.len());
    match Decimal::parse(number) {
        None => Err(ParseError::InvalidValue),
        Some(kwh) => match Joule::from_kwh(kwh) {
            None => Err(ParseError::PrecisionError),
            Some(joules) => Ok(joules),
        },
    }
}

/// The rate that the value of the tariff indicator states. `InvalidValue`
/// where the value is no unsigned integer literal; `UnknownTariff` where it
/// is one, but neither `1` nor `2`.
pub fn parse_indicator(value: &[u8]) -> (rate: Result<Rate, ParseError>)
    ensures
        rate == indicated(value@),
{
    if value.len() == 0 {
        return Err(ParseError::InvalidValue);
    }
    // The number that the digits write, or 3 where it is more.
    let mut number: u8 = 0;
    let mut i: usize = 0;
    assert(value@.take(0).len() == 0);
    while i < value.len()
        invariant
            i <= value.len(),
            forall|k: int| 0 <= k < i ==> is_digit(value@[k]),
            number <= 3,
            number < 3 ==> literal_value(value@.take(i as int)) == number,
            number == 3 ==> literal_value(value@.take(i as int)) >= 3,
        decreases value.len() - i,
    {
        let byte = value[i];
        if byte < 0x30 || byte > 0x39 {
            return Err(ParseError::InvalidValue);
        }
        proof {
            assert(value@.take(i + 1).drop_last() == value@.take(i as int));
        }
        let next = number * 10 + (byte - 0x30);
        number = if next > 3 {
            3
        } else {
            next
        };
        i += 1;
    }
    assert(value@.take(i as int) == value@);
    if number == 1 {
        Ok(Rate::Normal)
    } else if number == 2 {
        Ok(Rate::OffPeak)
    } else {
        Err(ParseError::UnknownTariff)
    }
}

/// The tally as the parser holds it while it reads a telegram.
struct Totals {
    normal: i128,
    off_peak: i128,
    normal_seen: bool,
    off_peak_seen: bool,
    indicator: Option<Rate>,
}

impl Totals {
    /// The tally that this stands for.
    spec fn tally(self) -> Tally {
        Tally {
            normal: self.normal as int,
            off_peak: self.off_peak as int,
            normal_seen: self.normal_seen,
            off_peak_seen: self.off_peak_seen,
            indicator: self.indicator,
        }
    }

    /// Whether each energy is at most what `count` values can add up to.
    spec fn within(self, count: int) -> bool {
        &&& -count * 0x8000_0000_0000_0000 <= self.normal <= count * 0x8000_0000_0000_0000
        &&& -count * 0x8000_0000_0000_0000 <= self.off_peak <= count * 0x8000_0000_0000_0000
    }

    /// The tally after `register` with `value`. `count` bounds the number of
    /// values tallied so far, so that the sums stay within 128 bits.
    fn record(self, register: Register, value: &[u8], count: Ghost<int>) -> (next: Result<
        Totals,
        ParseError,
    >)
        requires
            0 <= count@ < 0xFFFF_FFFF_FFFF_FFFF,
            self.within(count@),
        ensures
            next matches Ok(totals) ==> tallied(self.tally(), register, value@) == Ok::<
                Tally,
                ParseError,
            >(totals.tally()) && totals.within(count@ + 1),
            next matches Err(error) ==> tallied(self.tally(), register, value@) == Err::<
                Tally,
                ParseError,
            >(error),
    {
        match register {
            Register::Import1 => match parse_kwh(value) {
                Err(error) => Err(error),
                Ok(joules) => Ok(
                    Totals {
                        normal: self.normal + joules.0 as i128,
                        normal_seen: true,
                        off_peak: self.off_peak,
                        off_peak_seen: self.off_peak_seen,
                        indicator: self.indicator,
                    },
                ),
            },
            Register::Export1 => match parse_kwh(value) {
                Err(error) => Err(error),
                Ok(joules) => Ok(
                    Totals {
                        normal: self.normal - joules.0 as i128,
                        normal_seen: true,
                        off_peak: self.off_peak,
                        off_peak_seen: self.off_peak_seen,
                        indicator: self.indicator,
                    },
                ),
            },
            Register::Import2 => match parse_kwh(value) {
                Err(error) => Err(error),
                Ok(joules) => Ok(
                    Totals {
                        off_peak: self.off_peak + joules.0 as i128,
                        off_peak_seen: true,
                        normal: self.normal,
                        normal_seen: self.normal_seen,
                        indicator: self.indicator,
                    },
                ),
            },
            Register::Export2 => match parse_kwh(value) {
                Err(error) => Err(error),
                Ok(joules) => Ok(
                    Totals {
                        off_peak: self.off_peak - joules.0 as i128,
                        off_peak_seen: true,
                        normal: self.normal,
                        normal_seen: self.normal_seen,
                        indicator: self.indicator,
                    },
                ),
            },
            Register::TariffIndicator => match parse_indicator(value) {
                Err(error) => Err(error),
                Ok(rate) => Ok(
                    Totals {
                        indicator: Some(rate),
                        normal: self.normal,
                        normal_seen: self.normal_seen,
                        off_peak: self.off_peak,
                        off_peak_seen: self.off_peak_seen,
                    },
                ),
            },
            Register::Unknown => Ok(self),
        }
    }

    /// The readings of the tally, taken at `time`.
    fn finish(self, time: i64) -> (found: Result<Vec<State>, ParseError>)
        ensures
            found matches Ok(states) ==> readings(self.tally(), time) == Ok::<
                Seq<State>,
                ParseError,
            >(states@),
            found matches Err(error) ==> readings(self.tally(), time) == Err::<
                Seq<State>,
                ParseError,
            >(error),
    {
        if self.indicator.is_none() {
            return Err(ParseError::MissingTariffIndicator);
        }
        if (self.normal_seen && !holds(self.normal)) || (self.off_peak_seen && !holds(
            self.off_peak,
        )) {
            return Err(ParseError::PrecisionError);
        }
        let mut states: Vec<State> = Vec::new();
        if self.normal_seen {
            states.push(State { rate: Rate::Normal, energy: Joule(self.normal as i64), time });
        }
        if self.off_peak_seen {
            states.push(State { rate: Rate::OffPeak, energy: Joule(self.off_peak as i64), time });
        }
        assert(readings(self.tally(), time) matches Ok(all) && all =~= states@);
        Ok(states)
    }
}

/// The readings that the telegram with the bytes `raw` holds, each taken at
/// `time`: one for each rate of which the telegram holds a register, with
/// the energy imported less the energy exported. A telegram with anything
/// wrong holds none: the first thing wrong is its error.
pub fn parse_telegram(raw: &[u8], time: i64) -> (parsed: Result<Vec<State>, ParseError>)
    ensures
        parsed matches Ok(states) ==> telegram_readings(raw@, time) == Ok::<
            Seq<State>,
            ParseError,
        >(states@),
        parsed matches Err(error) ==> telegram_readings(raw@, time) == Err::<
            Seq<State>,
            ParseError,
        >(error),
{
    let length = raw.len();
    let mut lexer = Lexer::new(raw);
    match lexer.next() {
        Err(error) => {
            return Err(ParseError::Lex(error));
        },
        Ok(Token::Comment(_)) => {},
        Ok(_) => {
            return Err(ParseError::Lex(LexError::UnexpectedToken));
        },
    }
    let ghost goal = registers(lexemes(raw@, 0).skip(1), empty_tally(), false);
    let mut totals = Totals {
        normal: 0,
        off_peak: 0,
        normal_seen: false,
        off_peak_seen: false,
        indicator: None,
    };
    let mut after_unknown = false;
    loop
        invariant
            lexer.source() == raw@,
            raw@.len() == length,
            0 <= lexer.position() <= raw@.len(),
            totals.within(lexer.position()),
            registers(lexer.remaining(), totals.tally(), after_unknown) == goal,
            telegram_readings(raw@, time) == (match goal {
                Err(error) => Err(error),
                Ok(tally) => readings(tally, time),
            }),
        ensures
            goal == Ok::<Tally, ParseError>(totals.tally()),
            telegram_readings(raw@, time) == readings(totals.tally(), time),
        decreases raw@.len() - lexer.position(),
    {
        let ghost rest = lexer.remaining();
        let ghost count = lexer.position();
        match lexer.next_token() {
            None => {
                break ;
            },
            Some(Ok(Token::Value(_))) => {
                if !after_unknown {
                    return Err(ParseError::Lex(LexError::UnexpectedToken));
                }
            },
            Some(Ok(Token::Code(code))) => {
                let value = match lexer.next() {
                    Err(error) => {
                        return Err(ParseError::Lex(error));
                    },
                    Ok(Token::Value(value)) => value,
                    Ok(_) => {
                        return Err(ParseError::Lex(LexError::UnexpectedToken));
                    },
                };
                assert(rest.skip(1).skip(1) == rest.skip(2));
                let register = classify(code.as_slice());
                match totals.record(register, value.as_slice(), Ghost(count)) {
                    Err(error) => {
                        return Err(error);
                    },
                    Ok(next) => {
                        totals = next;
                        after_unknown = is_unknown(register);
                    },
                }
            },
            Some(_) => {
                return Err(ParseError::Lex(LexError::UnexpectedToken));
            },
        }
    }
    totals.finish(time)
}

/// Whether `register` is none of the registers that the parser knows.
fn is_unknown(register: Register) -> (unknown: bool)
    ensures
        unknown == (register == Register::Unknown),
{
    match register {
        Register::Unknown => true,
        _ => false,
    }
}

/// Whether `value` is an energy that 64 bits hold.
fn holds(value: i128) -> (held: bool)
    ensures
        held == fits(value as int),
{
    -0x8000_0000_0000_0000 <= value && value <= 0x7FFF_FFFF_FFFF_FFFF
}

/// Whether two texts hold the same bytes.
fn same_bytes(left: &[u8], right: &[u8]) -> (same: bool)
    ensures
        same == (left@ == right@),
{
    if left.len() != right.len() {
        return false;
    }
    let mut i: usize = 0;
    while i < left.len()
        invariant
            left.len() == right.len(),
            i <= left.len(),
            forall|k: int| 0 <= k < i ==> left@[k] == right@[k],
        decreases left.len() - i,
    {
        if left[i] != right[i] {
            return false;
        }
        i += 1;
    }
    assert(left@ =~= right@);
    true
}

/// Whether `text` ends with `suffix`.
fn has_suffix(text: &[u8], suffix: &[u8]) -> (has: bool)
    ensures
        has == ends_with(text@, suffix@),
{
    if text.len() < suffix.len() {
        return false;
    }
    same_bytes(slice_subrange(text, text.len() - suffix.len(), text.len()), suffix)
}

/// An unknown code and the values behind it can be left out of a telegram:
/// where `count` values follow the code and no further value follows them,
/// the registers behind them are tallied as if the parse began there.
pub proof fn lemma_unknown_register_skipped(
    rest: Seq<Lexeme>,
    tally: Tally,
    after_unknown: bool,
    count: int,
)
    requires
        1 <= count < rest.len(),
        rest[0] matches Lexeme::Code(code) && register_of(code) == Register::Unknown,
        forall|i: int| 1 <= i <= count ==> rest[i] is Value,
        count + 1 < rest.len() ==> !(rest[count + 1] is Value),
    ensures
        registers(rest, tally, after_unknown) == registers(rest.skip(count + 1), tally, false),
{
    assert(rest.skip(2) == rest.skip(1).skip(1));
    lemma_values_skipped(rest.skip(2), tally, count - 1);
    assert(rest.skip(2).skip(count - 1) == rest.skip(count + 1));
}

/// Behind an unknown code, values are passed over: where `count` values
/// stand first and no further value follows them, the tally goes on behind
/// them.
proof fn lemma_values_skipped(rest: Seq<Lexeme>, tally: Tally, count: int)
    requires
        0 <= count <= rest.len(),
        forall|i: int| 0 <= i < count ==> rest[i] is Value,
        count < rest.len() ==> !(rest[count] is Value),
    ensures
        registers(rest, tally, true) == registers(rest.skip(count), tally, false),
    decreases count,
{
    if count == 0 {
        assert(rest.skip(0) == rest);
    } else {
        lemma_values_skipped(rest.skip(1), tally, count - 1);
        assert(rest.skip(1).skip(count - 1) == rest.skip(count));
    }
}

} // verus!
