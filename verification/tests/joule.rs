use energy_meter::decimal::Decimal;
use energy_meter::joule::{Joule, JOULES_PER_KWH};

fn decimal(mantissa: i128, scale: u32) -> Decimal {
    Decimal::new(mantissa, scale).unwrap()
}

#[test]
fn from_kwh_is_exact() {
    assert_eq!(Joule::from_kwh(decimal(1234, 3)), Some(Joule(4_442_400)));
    assert_eq!(Joule::from_kwh(decimal(1, 0)), Some(Joule(JOULES_PER_KWH)));
    assert_eq!(Joule::from_kwh(decimal(0, 5)), Some(Joule(0)));
}

#[test]
fn from_kwh_keeps_the_sign() {
    assert_eq!(Joule::from_kwh(decimal(-5, 1)), Some(Joule(-1_800_000)));
}

#[test]
fn from_kwh_takes_the_smallest_whole_joule() {
    // 1 J is 25/9 * 10^-7 kWh, no finite decimal; 9 J is 0.0000025 kWh.
    assert_eq!(Joule::from_kwh(decimal(25, 7)), Some(Joule(9)));
}

#[test]
fn from_kwh_rejects_a_fraction_of_a_joule() {
    // 0.0000001 kWh is 0.36 J.
    assert_eq!(Joule::from_kwh(decimal(1, 7)), None);
    // 0.0000003 kWh is 1.08 J: nothing is rounded.
    assert_eq!(Joule::from_kwh(decimal(3, 7)), None);
}

#[test]
fn from_kwh_rejects_what_64_bits_do_not_hold() {
    // 2562047788015 kWh is 9223372036854000000 J and fits; one more does not.
    assert_eq!(
        Joule::from_kwh(decimal(2_562_047_788_015, 0)),
        Some(Joule(9_223_372_036_854_000_000))
    );
    assert_eq!(Joule::from_kwh(decimal(2_562_047_788_016, 0)), None);
    assert_eq!(
        Joule::from_kwh(decimal(-2_562_047_788_015, 0)),
        Some(Joule(-9_223_372_036_854_000_000))
    );
    assert_eq!(Joule::from_kwh(decimal(-2_562_047_788_016, 0)), None);
}

#[test]
fn from_kwh_takes_the_largest_decimal() {
    let largest = decimal(0xFFFF_FFFF_FFFF_FFFF_FFFF_FFFF, 28);
    // 7.9228162514264337593543950335 kWh is no whole number of joules.
    assert_eq!(Joule::from_kwh(largest), None);
    assert_eq!(Joule::from_kwh(decimal(10_000_000_000_000_000_000_000_000_000, 28)), Some(Joule(3_600_000)));
}

/// The number that `d` stands for, without zeros at the end of its digits.
fn reduced(d: Decimal) -> (i128, u32) {
    let (mut mantissa, mut scale) = (d.mantissa(), d.scale());
    while scale > 0 && mantissa % 10 == 0 {
        mantissa /= 10;
        scale -= 1;
    }
    (mantissa, scale)
}

#[test]
fn kwh_divides_by_3600000() {
    assert_eq!(reduced(Joule(3_600_000).kwh().unwrap()), (1, 0));
    assert_eq!(reduced(Joule(1_800_000).kwh().unwrap()), (5, 1));
    assert_eq!(reduced(Joule(-4_442_400).kwh().unwrap()), (-1234, 3));
    assert_eq!(reduced(Joule(36).kwh().unwrap()), (1, 5));
    assert_eq!(reduced(Joule(0).kwh().unwrap()), (0, 0));
}

#[test]
fn kwh_of_one_joule_is_rounded() {
    // 1 J is 0.000000277... kWh: the digits behind the 28th are lost.
    let kwh = Joule(1).kwh().unwrap();
    assert!(kwh.scale() <= 28);
    let digits = kwh.mantissa().to_string();
    assert!(digits.starts_with("2777777"), "{digits}");
    assert_eq!(Joule::from_kwh(kwh), None);
}

#[test]
fn kwh_and_from_kwh_agree_on_whole_watt_hours() {
    for joules in [0i64, 3_600, 7_200, 3_600_000, -3_600, 123_456 * 3_600] {
        let kwh = Joule(joules).kwh().unwrap();
        assert_eq!(Joule::from_kwh(kwh), Some(Joule(joules)));
    }
}

#[test]
fn joule_arithmetic() {
    assert_eq!(Joule(200) - Joule(100), Joule(100));
    assert_eq!(Joule(100) - Joule(200), Joule(-100));
    let mut energy = Joule(10);
    energy.add_assign(Joule(5));
    assert_eq!(energy, Joule(15));
    energy.sub_assign(Joule(20));
    assert_eq!(energy, Joule(-5));
    assert_eq!(Joule::default(), Joule(0));
}
