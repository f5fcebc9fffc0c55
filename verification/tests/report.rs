use energy_meter::joule::Joule;
use energy_meter::rate::Rate;
use energy_meter::report::{checked_report, report, Report};
use energy_meter::state::State;

fn normal(energy: i64, time: i64) -> State {
    State { rate: Rate::Normal, energy: Joule(energy), time }
}

fn off_peak(energy: i64, time: i64) -> State {
    State { rate: Rate::OffPeak, energy: Joule(energy), time }
}

#[test]
fn usage_is_last_less_first() {
    // The reading in the middle that runs backwards plays no part.
    let readings = [normal(100, 0), normal(150, 1), normal(130, 2), normal(200, 3)];
    let result = report(0, 3, &readings);
    assert_eq!(result.normal, Joule(100));
    assert_eq!(result.off_peak, Joule(0));
    assert_eq!(result.total, Joule(100));
}

#[test]
fn usage_does_not_depend_on_readings_between() {
    let with = [normal(100, 0), normal(150, 1), normal(130, 2), normal(200, 3)];
    let other = [normal(100, 0), normal(-7, 1), normal(9_999, 2), normal(200, 3)];
    let without = [normal(100, 0), normal(200, 3)];
    assert_eq!(report(0, 3, &with), report(0, 3, &other));
    assert_eq!(report(0, 3, &with), report(0, 3, &without));
}

#[test]
fn usage_of_a_single_reading_is_nothing() {
    let result = report(0, 10, &[normal(100, 5)]);
    assert_eq!(
        result,
        Report { normal: Joule(0), off_peak: Joule(0), total: Joule(0) }
    );
}

#[test]
fn usage_without_readings_is_nothing() {
    let result = report(0, 10, &[]);
    assert_eq!(
        result,
        Report { normal: Joule(0), off_peak: Joule(0), total: Joule(0) }
    );
    // Readings out of the span count as none.
    let result = report(0, 10, &[normal(1, -1), normal(500, 11)]);
    assert_eq!(result.total, Joule(0));
}

#[test]
fn usage_takes_readings_in_any_order() {
    let readings = [normal(200, 3), normal(100, 0), normal(130, 2), normal(150, 1)];
    assert_eq!(report(0, 3, &readings).normal, Joule(100));
}

#[test]
fn usage_is_kept_apart_by_rate_and_summed() {
    let readings = [
        normal(100, 0),
        off_peak(1_000, 0),
        normal(180, 5),
        off_peak(1_025, 6),
        off_peak(1_010, 3),
    ];
    let result = report(0, 10, &readings);
    assert_eq!(result.normal, Joule(80));
    assert_eq!(result.off_peak, Joule(25));
    assert_eq!(result.total, Joule(105));
    assert_eq!(result.usage(Rate::Normal), Joule(80));
    assert_eq!(result.usage(Rate::OffPeak), Joule(25));
}

#[test]
fn span_includes_both_ends() {
    let readings = [normal(10, 99), normal(20, 100), normal(50, 200), normal(90, 201)];
    assert_eq!(report(100, 200, &readings).normal, Joule(30));
    assert_eq!(report(99, 201, &readings).normal, Joule(80));
    assert_eq!(report(101, 199, &readings).normal, Joule(0));
    assert_eq!(report(100, 100, &readings).normal, Joule(0));
    // A span that ends before it begins holds nothing.
    assert_eq!(report(200, 100, &readings).total, Joule(0));
}

#[test]
fn readings_of_one_instant_count_in_their_order() {
    // Of the earliest instant the first reading counts, of the latest the last.
    let readings = [normal(7, 10), normal(5, 0), normal(6, 0), normal(8, 10)];
    assert_eq!(report(0, 10, &readings).normal, Joule(8 - 5));
}

#[test]
fn usage_may_be_negative() {
    let readings = [normal(100, 0), normal(40, 1)];
    assert_eq!(report(0, 1, &readings).normal, Joule(-60));
}

#[test]
fn checked_report_agrees_where_the_usage_fits() {
    let readings = [normal(100, 0), off_peak(5, 1), normal(200, 3), off_peak(9, 2)];
    assert_eq!(checked_report(0, 3, &readings), Some(report(0, 3, &readings)));
    assert_eq!(
        checked_report(0, 3, &readings),
        Some(Report { normal: Joule(100), off_peak: Joule(4), total: Joule(104) })
    );
}

#[test]
fn checked_report_refuses_what_64_bits_do_not_hold() {
    let readings = [normal(i64::MIN, 0), normal(i64::MAX, 1)];
    assert_eq!(checked_report(0, 1, &readings), None);
    // Each usage fits, the sum does not.
    let readings = [
        normal(0, 0),
        normal(i64::MAX, 1),
        off_peak(0, 0),
        off_peak(1, 1),
    ];
    assert_eq!(checked_report(0, 1, &readings), None);
    let readings = [normal(0, 0), normal(i64::MAX, 1), off_peak(0, 0), off_peak(0, 1)];
    assert_eq!(
        checked_report(0, 1, &readings),
        Some(Report { normal: Joule(i64::MAX), off_peak: Joule(0), total: Joule(i64::MAX) })
    );
}
