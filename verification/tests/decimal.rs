use energy_meter::decimal::{pow10, Decimal, MAX_MANTISSA, MAX_SCALE};

#[test]
fn decimal_new_keeps_mantissa_and_scale() {
    let d = Decimal::new(-1234, 3).unwrap();
    assert_eq!(d.mantissa(), -1234);
    assert_eq!(d.scale(), 3);
    let whole = Decimal::from_i64(i64::MIN);
    assert_eq!(whole.mantissa(), i64::MIN as i128);
    assert_eq!(whole.scale(), 0);
}

#[test]
fn decimal_new_holds_96_bits_and_28_digits() {
    assert!(Decimal::new(MAX_MANTISSA, MAX_SCALE).is_some());
    assert!(Decimal::new(-MAX_MANTISSA, 0).is_some());
    assert!(Decimal::new(MAX_MANTISSA + 1, 0).is_none());
    assert!(Decimal::new(-MAX_MANTISSA - 1, 0).is_none());
    assert!(Decimal::new(0, MAX_SCALE + 1).is_none());
}

#[test]
fn decimal_parse_reads_digits_and_point() {
    let d = Decimal::parse(b"001.234").unwrap();
    assert_eq!((d.mantissa(), d.scale()), (1234, 3));
    let d = Decimal::parse(b"-0.50").unwrap();
    assert_eq!((d.mantissa(), d.scale()), (-50, 2));
    let d = Decimal::parse(b"42").unwrap();
    assert_eq!((d.mantissa(), d.scale()), (42, 0));
}

#[test]
fn decimal_parse_rejects_what_is_no_number() {
    assert!(Decimal::parse(b"").is_none());
    assert!(Decimal::parse(b"not_a_number").is_none());
    assert!(Decimal::parse(b"1.2.3").is_none());
    assert!(Decimal::parse(b"12 ").is_none());
    assert!(Decimal::parse(&[0x31, 0xC3, 0xA9]).is_none());
    assert!(Decimal::parse(&[0xFF]).is_none());
}

#[test]
fn decimal_parse_does_not_round() {
    // 28 digits behind the point are held, a 29th is refused.
    let d = Decimal::parse(b"0.0000000000000000000000000001").unwrap();
    assert_eq!((d.mantissa(), d.scale()), (1, 28));
    assert!(Decimal::parse(b"0.00000000000000000000000000001").is_none());
}

#[test]
fn pow10_is_the_power_of_ten() {
    assert_eq!(pow10(0), 1);
    assert_eq!(pow10(1), 10);
    assert_eq!(pow10(5), 100_000);
    assert_eq!(pow10(28), 10_000_000_000_000_000_000_000_000_000);
}
