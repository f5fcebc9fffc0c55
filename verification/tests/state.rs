use energy_meter::joule::Joule;
use energy_meter::rate::Rate;
use energy_meter::state::{State, KEY_LEN, RECORD_LEN};

fn state(rate: Rate, energy: i64, time: i64) -> State {
    State { rate, energy: Joule(energy), time }
}

#[test]
fn rate_discriminants() {
    assert_eq!(Rate::Normal.discriminant(), 1);
    assert_eq!(Rate::OffPeak.discriminant(), 2);
    assert_eq!(Rate::from_discriminant(1), Some(Rate::Normal));
    assert_eq!(Rate::from_discriminant(2), Some(Rate::OffPeak));
    assert_eq!(Rate::from_discriminant(0), None);
    assert_eq!(Rate::from_discriminant(3), None);
    assert_eq!(Rate::from_discriminant(255), None);
    assert_eq!(Rate::Normal.index(), 0);
    assert_eq!(Rate::OffPeak.index(), 1);
    assert!(Rate::Normal.is_normal());
    assert!(!Rate::OffPeak.is_normal());
    assert_eq!(Rate::from_flag(true), Rate::Normal);
    assert_eq!(Rate::from_flag(false), Rate::OffPeak);
}

#[test]
fn record_layout() {
    let bytes = state(Rate::Normal, 100, 1_700_000_000).to_record();
    assert_eq!(bytes.len(), RECORD_LEN);
    assert_eq!(
        bytes,
        vec![1, 100, 0, 0, 0, 0, 0, 0, 0, 0, 241, 83, 101, 0, 0, 0, 0]
    );
    let bytes = state(Rate::OffPeak, 0x0102030405060708, -2).to_record();
    assert_eq!(
        bytes,
        vec![2, 8, 7, 6, 5, 4, 3, 2, 1, 254, 255, 255, 255, 255, 255, 255, 255]
    );
}

#[test]
fn record_from_conversion_is_the_record() {
    let reading = state(Rate::OffPeak, -1, 42);
    let bytes: Vec<u8> = Vec::from(&reading);
    assert_eq!(bytes, reading.to_record());
    let bytes: Vec<u8> = (&reading).into();
    assert_eq!(bytes[0], 2);
    assert_eq!(&bytes[1..9], &[255u8; 8]);
}

#[test]
fn record_round_trip() {
    let cases = [
        state(Rate::Normal, 0, 0),
        state(Rate::Normal, 100, 1_700_000_000),
        state(Rate::OffPeak, -1, -1),
        state(Rate::OffPeak, i64::MAX, i64::MIN),
        state(Rate::Normal, i64::MIN, i64::MAX),
        state(Rate::OffPeak, 0x0102030405060708, 0x1112131415161718),
    ];
    for reading in cases {
        assert_eq!(State::from_record(&reading.to_record()), Some(reading));
    }
}

#[test]
fn record_of_wrong_shape_is_refused() {
    let good = state(Rate::Normal, 5, 6).to_record();
    assert_eq!(State::from_record(&good[..16]), None);
    assert_eq!(State::from_record(&[]), None);
    let mut long = good.clone();
    long.push(0);
    assert_eq!(State::from_record(&long), None);
    let mut bad_rate = good.clone();
    bad_rate[0] = 0;
    assert_eq!(State::from_record(&bad_rate), None);
    bad_rate[0] = 3;
    assert_eq!(State::from_record(&bad_rate), None);
}

#[test]
fn checksum_is_sha256_of_rate_and_energy() {
    assert_eq!(KEY_LEN, 9);
    assert_eq!(
        state(Rate::Normal, 100, 0).checksum(),
        "49553002468041c81499b8f8e456be11963941d77c5cb3bff40a83d140160826"
    );
    assert_eq!(
        state(Rate::OffPeak, 100, 0).checksum(),
        "f02fc670e9e8706f1c34b4431f50f7bd9abb1cc3b018c1ed659682a95e6716c9"
    );
    assert_eq!(
        state(Rate::Normal, -1, 0).checksum(),
        "1272f520cf7ca5cf117a0b5a3116518371bf20fb7fac043ac1be568b8c55b96c"
    );
    assert_eq!(
        state(Rate::Normal, 0, 0).checksum(),
        "a536aa3cede6ea3c1f3e0357c3c60e0f216a8c89b853df13b29daa8f85065dfb"
    );
}

#[test]
fn checksum_ignores_the_time() {
    let first = state(Rate::OffPeak, 4_442_400, 1_700_000_000);
    let later = state(Rate::OffPeak, 4_442_400, 1_700_003_600);
    assert_eq!(first.checksum(), later.checksum());
    assert_eq!(
        first.checksum(),
        "6dbee41c59ae4d5e930530b2e4818a878b8aa5a476d90291584090eb28092537"
    );
    assert_ne!(first.to_record(), later.to_record());
}

#[test]
fn checksum_tells_rate_and_energy_apart() {
    assert_ne!(
        state(Rate::Normal, 100, 0).checksum(),
        state(Rate::OffPeak, 100, 0).checksum()
    );
    assert_ne!(
        state(Rate::Normal, 100, 0).checksum(),
        state(Rate::Normal, 101, 0).checksum()
    );
}
