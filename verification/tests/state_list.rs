use energy_meter::joule::Joule;
use energy_meter::rate::Rate;
use energy_meter::state::State;
use energy_meter::state_list::StateList;

fn state(energy: i64, time: i64) -> State {
    State { rate: Rate::Normal, energy: Joule(energy), time }
}

fn energies(states: &[State]) -> Vec<i64> {
    states.iter().map(|s| s.energy.0).collect()
}

#[test]
fn normalize_sorts_by_time() {
    let mut states = vec![state(3, 30), state(1, 10), state(4, 40), state(2, 20)];
    states.normalize();
    assert_eq!(energies(&states), vec![1, 2, 3, 4]);
    assert_eq!(states[0].time, 10);
    assert_eq!(states[3].time, 40);
}

#[test]
fn normalize_keeps_the_order_of_one_instant() {
    let mut states = vec![
        state(1, 20),
        state(2, 10),
        state(3, 20),
        state(4, 10),
        state(5, 20),
        state(6, -5),
    ];
    states.normalize();
    assert_eq!(energies(&states), vec![6, 2, 4, 1, 3, 5]);
}

#[test]
fn normalize_of_nothing_and_of_one() {
    let mut none: Vec<State> = vec![];
    none.normalize();
    assert!(none.is_empty());
    let mut one = vec![state(7, 7)];
    one.normalize();
    assert_eq!(one, vec![state(7, 7)]);
}

#[test]
fn normalize_leaves_a_sorted_list_alone() {
    let sorted = vec![state(1, i64::MIN), state(2, 0), state(3, 0), state(4, i64::MAX)];
    let mut states = sorted.clone();
    states.normalize();
    assert_eq!(states, sorted);
}

#[test]
fn normalize_turns_a_reversed_list() {
    let mut states: Vec<State> = (0..50).map(|i| state(i, 100 - i)).collect();
    states.normalize();
    let times: Vec<i64> = states.iter().map(|s| s.time).collect();
    let expected: Vec<i64> = (51..=100).collect();
    assert_eq!(times, expected);
}
