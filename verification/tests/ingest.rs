use energy_meter::ingest::{ingest, ingested, insertion, Store, StoreError};
use energy_meter::joule::Joule;
use energy_meter::rate::Rate;
use energy_meter::report::report;
use energy_meter::state::State;
use energy_meter::telegram::parse_telegram;

fn state(rate: Rate, energy: i64, time: i64) -> State {
    State { rate, energy: Joule(energy), time }
}

#[test]
fn ingest_twice_is_new_then_duplicate() {
    let mut store = Store::new();
    let reading = state(Rate::Normal, 100, 10);
    assert_eq!(ingest(&mut store, reading), Ok(Some(reading)));
    assert_eq!(ingest(&mut store, reading), Ok(None));
    assert_eq!(ingest(&mut store, reading), Ok(None));
    assert_eq!(store.len(), 1);
}

#[test]
fn ingest_knows_a_counter_value_again_at_any_time() {
    let mut store = Store::new();
    let first = state(Rate::OffPeak, 4_442_400, 1_700_000_000);
    let later = state(Rate::OffPeak, 4_442_400, 1_700_003_600);
    assert_eq!(ingest(&mut store, first), Ok(Some(first)));
    assert_eq!(ingest(&mut store, later), Ok(None));
    // The time that is kept is that of the first observation.
    assert_eq!(store.states(), vec![first]);
}

#[test]
fn ingest_keeps_rates_and_energies_apart() {
    let mut store = Store::new();
    let readings = [
        state(Rate::Normal, 100, 1),
        state(Rate::OffPeak, 100, 1),
        state(Rate::Normal, 101, 1),
        state(Rate::Normal, -100, 1),
    ];
    for reading in readings {
        assert_eq!(ingest(&mut store, reading), Ok(Some(reading)));
    }
    assert_eq!(store.len(), 4);
    assert_eq!(store.states(), readings.to_vec());
    for reading in readings {
        assert_eq!(ingest(&mut store, reading), Ok(None));
    }
    assert_eq!(store.len(), 4);
}

#[test]
fn insertion_is_record_under_fingerprint() {
    let reading = state(Rate::Normal, 100, 1_700_000_000);
    let request = insertion(&reading);
    assert_eq!(
        request.key,
        "49553002468041c81499b8f8e456be11963941d77c5cb3bff40a83d140160826"
    );
    assert_eq!(request.key, reading.checksum());
    assert_eq!(request.value, reading.to_record());
    assert_eq!(request.value.len(), 17);
}

#[test]
fn ingested_reads_the_answer_of_the_store() {
    let reading = state(Rate::Normal, 1, 2);
    assert_eq!(ingested(reading, Ok(true)), Ok(Some(reading)));
    assert_eq!(ingested(reading, Ok(false)), Ok(None));
    assert_eq!(ingested(reading, Err(StoreError::Io)), Err(StoreError::Io));
    assert_eq!(
        ingested(reading, Err(StoreError::Corruption)),
        Err(StoreError::Corruption)
    );
}

#[test]
fn store_inserts_if_absent() {
    let mut store = Store::new();
    assert_eq!(store.len(), 0);
    assert!(!store.contains_key(&"a".to_string()));
    assert!(store.insert_if_absent("a".to_string(), vec![1]));
    assert!(store.contains_key(&"a".to_string()));
    assert!(!store.contains_key(&"b".to_string()));
    assert!(!store.insert_if_absent("a".to_string(), vec![2]));
    assert!(store.insert_if_absent("b".to_string(), vec![3]));
    assert!(store.insert_if_absent("".to_string(), vec![]));
    assert!(!store.insert_if_absent("".to_string(), vec![4]));
    assert_eq!(store.len(), 3);
}

#[test]
fn store_states_leaves_out_what_is_no_record() {
    let mut store = Store::new();
    let reading = state(Rate::OffPeak, 7, 8);
    assert!(store.insert_if_absent("junk".to_string(), vec![1, 2, 3]));
    assert!(store.insert_if_absent("good".to_string(), reading.to_record()));
    let mut bad_rate = reading.to_record();
    bad_rate[0] = 9;
    assert!(store.insert_if_absent("bad".to_string(), bad_rate));
    assert_eq!(store.states(), vec![reading]);
}

#[test]
fn telegrams_go_through_store_to_report() {
    let mut store = Store::new();
    let polls: [(&[u8], i64); 5] = [
        (b"/m\n0-0:96.14.0(1)\n1-0:2.8.1(10.000*kWh)\n1-0:2.8.2(5.000*kWh)\n!\n", 100),
        // Nothing has changed.
        (b"/m\n0-0:96.14.0(1)\n1-0:2.8.1(10.000*kWh)\n1-0:2.8.2(5.000*kWh)\n!\n", 101),
        (b"/m\n0-0:96.14.0(1)\n1-0:2.8.1(10.500*kWh)\n1-0:2.8.2(5.000*kWh)\n!\n", 102),
        // A telegram that is cut off holds nothing.
        (b"/m\n0-0:96.14.0(1)\n1-0:2.8.1(11.000*kWh)\n1-0:2.8.2", 103),
        (b"/m\n0-0:96.14.0(2)\n1-0:2.8.1(10.500*kWh)\n1-0:2.8.2(5.250*kWh)\n!\n", 104),
    ];
    let mut new = 0;
    for (raw, time) in polls {
        if let Ok(readings) = parse_telegram(raw, time) {
            for reading in readings {
                if ingest(&mut store, reading).unwrap().is_some() {
                    new += 1;
                }
            }
        }
    }
    assert_eq!(new, 4);
    assert_eq!(store.len(), 4);
    let result = report(100, 104, &store.states());
    assert_eq!(result.normal, Joule(1_800_000));
    assert_eq!(result.off_peak, Joule(900_000));
    assert_eq!(result.total, Joule(2_700_000));
}
