use energy_meter::decimal::Decimal;
use energy_meter::history::{history_row, net_reading, readings_of_row};
use energy_meter::joule::Joule;
use energy_meter::rate::Rate;
use energy_meter::state::State;
use energy_meter::usage::{LastSeen, NewUsage, Usage};

fn decimal(mantissa: i128, scale: u32) -> Decimal {
    Decimal::new(mantissa, scale).unwrap()
}

#[test]
fn new_usage_takes_the_rate_of_the_indicator() {
    assert_eq!(
        NewUsage::new(1, Joule(10), Joule(2), 99),
        Some(NewUsage { rate: Rate::Normal, delivered: Joule(10), received: Joule(2), created_at: 99 })
    );
    assert_eq!(
        NewUsage::new(2, Joule(10), Joule(2), 99).map(|row| row.rate),
        Some(Rate::OffPeak)
    );
    assert_eq!(NewUsage::new(0, Joule(10), Joule(2), 99), None);
    assert_eq!(NewUsage::new(3, Joule(10), Joule(2), 99), None);
}

#[test]
fn last_seen_stores_what_has_changed() {
    let row = |delivered: i64, received: i64, at: i64| NewUsage {
        rate: Rate::Normal,
        delivered: Joule(delivered),
        received: Joule(received),
        created_at: at,
    };
    let mut last = LastSeen::new();
    assert_eq!(last, LastSeen { delivered: None, received: None });
    assert!(last.observe(&row(10, 2, 1)));
    assert_eq!(last, LastSeen { delivered: Some(Joule(10)), received: Some(Joule(2)) });
    // The same counters, later: not stored.
    assert!(!last.observe(&row(10, 2, 2)));
    assert!(!last.observe(&row(10, 2, 3)));
    // Either counter that moves is stored.
    assert!(last.observe(&row(11, 2, 4)));
    assert!(last.observe(&row(11, 3, 5)));
    assert!(!last.observe(&row(11, 3, 6)));
    // Counters that come back after another row are stored again.
    assert!(last.observe(&row(10, 2, 7)));
}

#[test]
fn usage_row_holds_its_fields() {
    let row = Usage { id: 7, rate: Rate::OffPeak, delivered: Joule(1), received: Joule(2), created_at: 3 };
    assert_eq!(row, row.clone());
    assert_eq!(row.id, 7);
}

#[test]
fn history_row_of_a_reading() {
    let reading = State { rate: Rate::Normal, energy: Joule(100), time: 12 };
    let row = history_row(&reading);
    assert_eq!(
        row.checksum,
        "49553002468041c81499b8f8e456be11963941d77c5cb3bff40a83d140160826"
    );
    assert!(row.rate);
    assert_eq!(row.energy, Joule(100));
    assert_eq!(row.time, 12);
    let reading = State { rate: Rate::OffPeak, energy: Joule(100), time: 12 };
    assert!(!history_row(&reading).rate);
}

#[test]
fn net_reading_is_import_less_export() {
    assert_eq!(
        net_reading(Rate::Normal, 5, decimal(1500, 3), decimal(250, 3)),
        Some(State { rate: Rate::Normal, energy: Joule(4_500_000), time: 5 })
    );
    assert_eq!(
        net_reading(Rate::OffPeak, 5, decimal(0, 0), decimal(1, 0)),
        Some(State { rate: Rate::OffPeak, energy: Joule(-3_600_000), time: 5 })
    );
    assert_eq!(net_reading(Rate::Normal, 5, decimal(1, 7), decimal(0, 0)), None);
    assert_eq!(net_reading(Rate::Normal, 5, decimal(0, 0), decimal(1, 7)), None);
    // Each counter fits, the difference does not.
    assert_eq!(
        net_reading(
            Rate::Normal,
            5,
            decimal(2_562_047_788_015, 0),
            decimal(-2_562_047_788_015, 0)
        ),
        None
    );
}

#[test]
fn readings_of_row_are_one_for_each_rate() {
    let readings = readings_of_row(
        77,
        decimal(10, 0),
        decimal(4, 0),
        decimal(25, 1),
        decimal(5, 1),
    );
    assert_eq!(
        readings,
        Some((
            State { rate: Rate::Normal, energy: Joule(6 * 3_600_000), time: 77 },
            State { rate: Rate::OffPeak, energy: Joule(2 * 3_600_000), time: 77 },
        ))
    );
    assert_eq!(
        readings_of_row(77, decimal(10, 0), decimal(4, 0), decimal(1, 7), decimal(0, 0)),
        None
    );
    assert_eq!(
        readings_of_row(77, decimal(1, 7), decimal(4, 0), decimal(1, 0), decimal(0, 0)),
        None
    );
}
