//! Lists of readings in the order of their times.

use crate::state::State;
use vstd::prelude::*;

verus! {

/// Whether the readings stand in the order of their times, the earliest
/// first.
pub open spec fn sorted_by_time(states: Seq<State>) -> bool {
    forall|i: int, j: int| 0 <= i <= j < states.len() ==> states[i].time <= states[j].time
}

/// The test that a reading was taken at `time`.
pub open spec fn taken_at(time: i64) -> spec_fn(State) -> bool {
    |state: State| state.time == time
}

/// The readings of `states` taken at `time`, in the order in which they
/// stand in `states`.
pub open spec fn at_instant(states: Seq<State>, time: i64) -> Seq<State> {
    states.filter(taken_at(time))
}

/// Whether `after` is `before` in normal form: the same readings in the order
/// of their times, those of one instant in the order that they had. There is
/// one such list for each `before` (`lemma_normal_form_unique`).
pub open spec fn normalized(before: Seq<State>, after: Seq<State>) -> bool {
    &&& after.len() == before.len()
    &&& sorted_by_time(after)
    &&& forall|time: i64| #[trigger] at_instant(after, time) == at_instant(before, time)
}

/// Whether `i` is the place of the earliest reading: none is earlier, and of
/// those of the same time it stands first.
pub open spec fn is_earliest(states: Seq<State>, i: int) -> bool {
    &&& 0 <= i < states.len()
    &&& forall|k: int| 0 <= k < states.len() ==> states[i].time <= states[k].time
    &&& forall|k: int| 0 <= k < i ==> states[i].time < states[k].time
}

/// Whether `i` is the place of the latest reading: none is later, and of
/// those of the same time it stands last.
pub open spec fn is_latest(states: Seq<State>, i: int) -> bool {
    &&& 0 <= i < states.len()
    &&& forall|k: int| 0 <= k < states.len() ==> states[k].time <= states[i].time
    &&& forall|k: int| i < k < states.len() ==> states[k].time < states[i].time
}

/// The place of the earliest reading of a list that is not empty.
pub open spec fn earliest(states: Seq<State>) -> int
    decreases states.len(),
{
    if states.len() <= 1 {
        0
    } else {
        let before = earliest(states.drop_last());
        if states.last().time < states[before].time {
            states.len() - 1
        } else {
            before
        }
    }
}

/// The place of the latest reading of a list that is not empty.
pub open spec fn latest(states: Seq<State>) -> int
    decreases states.len(),
{
    if states.len() <= 1 {
        0
    } else {
        let before = latest(states.drop_last());
        if states.last().time >= states[before].time {
            states.len() - 1
        } else {
            before
        }
    }
}

/// A list of readings that can be brought into the order of their times.
pub trait StateList {
    /// The readings of the list, in its order.
    spec fn states(&self) -> Seq<State>;

    /// Sorts the readings by time, the earliest first. Readings of one
    /// instant keep the order they had.
    fn normalize(&mut self)
        ensures
            normalized(old(self).states(), final(self).states()),
    ;
}

impl StateList for Vec<State> {
    open spec fn states(&self) -> Seq<State> {
        self@
    }

    fn normalize(&mut self) {
        let ghost before = self@;
        let n = self.len();
        let mut i: usize = 0;
        while i < n
            invariant
                self.len() == n,
                before.len() == n,
                i <= n,
                sorted_by_time(self@.take(i as int)),
                forall|time: i64| #[trigger] at_instant(self@, time) == at_instant(before, time),
            decreases n - i,
        {
            let mut j: usize = i;
            proof {
                assert forall|a: int, b: int| 0 <= a <= b < i implies self@[a].time
                    <= self@[b].time by {
                    assert(self@.take(i as int)[a].time <= self@.take(i as int)[b].time);
                }
            }
            while j > 0 && self[j - 1].time > self[j].time
                invariant
                    self.len() == n,
                    j <= i < n,
                    forall|a: int, b: int|
                        0 <= a <= b <= i && a != j && b != j ==> self@[a].time <= self@[b].time,
                    forall|b: int| j < b <= i ==> self@[j as int].time < self@[b].time,
                    forall|time: i64|
                        #[trigger] at_instant(self@, time) == at_instant(before, time),
                decreases j,
            {
                let ghost unswapped = self@;
                let earlier = self[j - 1];
                let later = self[j];
                self.set(j - 1, later);
                self.set(j, earlier);
                proof {
                    assert forall|time: i64| #[trigger]
                        at_instant(self@, time) == at_instant(before, time) by {
                        lemma_swap_keeps_instants(unswapped, j as int, time);
                        assert(at_instant(unswapped, time) == at_instant(before, time));
                    }
                }
                j -= 1;
            }
            i += 1;
            proof {
                assert forall|a: int, b: int| 0 <= a <= b < i implies self@.take(i as int)[a].time
                    <= self@.take(i as int)[b].time by {
                    if a != j && b != j {
                    } else if a == j && b != j {
                    } else if b == j && a != j {
                        // Either nothing stands before `j`, or the loop ended
                        // on a reading before `j` that is no later.
                        assert(j > 0);
                        assert(self@[j - 1].time <= self@[j as int].time);
                        assert(self@[a].time <= self@[j - 1].time);
                    }
                }
            }
        }
        assert(self@.take(n as int) == self@);
    }
}

/// Two neighbours of different times can change places without a change to
/// the readings of any instant.
proof fn lemma_swap_keeps_instants(states: Seq<State>, j: int, time: i64)
    requires
        0 < j < states.len(),
        states[j - 1].time != states[j].time,
    ensures
        at_instant(states.update(j - 1, states[j]).update(j, states[j - 1]), time) == at_instant(
            states,
            time,
        ),
{
    let test = taken_at(time);
    let swapped = states.update(j - 1, states[j]).update(j, states[j - 1]);
    let head = states.take(j - 1);
    let tail = states.skip(j + 1);
    let pair = seq![states[j - 1], states[j]];
    let turned = seq![states[j], states[j - 1]];
    assert(states == head + pair + tail);
    assert(swapped == head + turned + tail);
    Seq::filter_distributes_over_add(head + pair, tail, test);
    Seq::filter_distributes_over_add(head, pair, test);
    Seq::filter_distributes_over_add(head + turned, tail, test);
    Seq::filter_distributes_over_add(head, turned, test);
    assert(pair.filter(test) == turned.filter(test)) by {
        reveal_with_fuel(Seq::filter, 3);
        assert(pair.drop_last() == seq![states[j - 1]]);
        assert(turned.drop_last() == seq![states[j]]);
        assert(seq![states[j - 1]].drop_last() == Seq::<State>::empty());
        assert(seq![states[j]].drop_last() == Seq::<State>::empty());
    }
}

/// In a list that is not empty, `earliest` and `latest` are the places of
/// the earliest and of the latest reading.
pub proof fn lemma_extremes(states: Seq<State>)
    requires
        states.len() > 0,
    ensures
        is_earliest(states, earliest(states)),
        is_latest(states, latest(states)),
    decreases states.len(),
{
    if states.len() > 1 {
        let rest = states.drop_last();
        lemma_extremes(rest);
        let first = earliest(rest);
        let last = latest(rest);
        assert(forall|k: int| 0 <= k < rest.len() ==> rest[k] == states[k]);
        assert(rest[first] == states[first]);
        assert(rest[last] == states[last]);
    }
}

/// There is one place of the earliest reading and one of the latest.
pub proof fn lemma_extremes_unique(states: Seq<State>, first: int, last: int)
    requires
        is_earliest(states, first),
        is_latest(states, last),
    ensures
        first == earliest(states),
        last == latest(states),
{
    lemma_extremes(states);
    let e = earliest(states);
    let l = latest(states);
    if first < e {
        assert(states[e].time < states[first].time);
    } else if e < first {
        assert(states[first].time < states[e].time);
    }
    if last < l {
        assert(states[last].time < states[l].time);
    } else if l < last {
        assert(states[l].time < states[last].time);
    }
}

/// The first reading that passes a test is the first of those that pass it.
proof fn lemma_filter_first(states: Seq<State>, test: spec_fn(State) -> bool, place: int)
    requires
        0 <= place < states.len(),
        test(states[place]),
        forall|k: int| 0 <= k < place ==> !test(states[k]),
    ensures
        states.filter(test).len() > 0,
        states.filter(test)[0] == states[place],
    decreases states.len(),
{
    reveal(Seq::filter);
    let rest = states.drop_last();
    if place == states.len() - 1 {
        rest.lemma_all_neg_filter_empty(test);
    } else {
        lemma_filter_first(rest, test, place);
    }
}

/// The last reading that passes a test is the last of those that pass it.
proof fn lemma_filter_last(states: Seq<State>, test: spec_fn(State) -> bool, place: int)
    requires
        0 <= place < states.len(),
        test(states[place]),
        forall|k: int| place < k < states.len() ==> !test(states[k]),
    ensures
        states.filter(test).len() > 0,
        states.filter(test).last() == states[place],
    decreases states.len(),
{
    reveal(Seq::filter);
    let rest = states.drop_last();
    if place < states.len() - 1 {
        lemma_filter_last(rest, test, place);
    }
}

/// A list in normal form begins with the earliest reading of the list that
/// it was made from, and ends with the latest.
pub proof fn lemma_normalized_ends(before: Seq<State>, after: Seq<State>)
    requires
        normalized(before, after),
        before.len() > 0,
    ensures
        after[0] == before[earliest(before)],
        after.last() == before[latest(before)],
{
    lemma_extremes(before);
    lemma_end(before, after, earliest(before), 0);
    lemma_end(before, after, latest(before), after.len() - 1);
}

/// The reading at an end of a list in normal form is the reading at the same
/// end, by time, of the list that it was made from.
proof fn lemma_end(before: Seq<State>, after: Seq<State>, place: int, end: int)
    requires
        normalized(before, after),
        before.len() > 0,
        (end == 0 && is_earliest(before, place)) || (end == after.len() - 1 && is_latest(
            before,
            place,
        )),
    ensures
        after[end] == before[place],
{
    let time = before[place].time;
    let reached = after[end].time;
    // What stands at the end of `after` is a reading of `before`, and the
    // reading at `place` is one of `after`: the two are of one time.
    after.lemma_filter_contains(taken_at(reached), end);
    assert(at_instant(after, reached) == at_instant(before, reached));
    before.lemma_filter_contains_rev(taken_at(reached), after[end]);
    let k = choose|k: int| 0 <= k < before.len() && before[k] == after[end];
    before.lemma_filter_contains(taken_at(time), place);
    assert(at_instant(after, time) == at_instant(before, time));
    after.lemma_filter_contains_rev(taken_at(time), before[place]);
    let m = choose|m: int| 0 <= m < after.len() && after[m] == before[place];
    assert(before[k].time == reached);
    assert(after[m].time == time);
    assert(time == reached);
    if end == 0 {
        lemma_filter_first(before, taken_at(time), place);
        lemma_filter_first(after, taken_at(time), 0);
    } else {
        lemma_filter_last(before, taken_at(time), place);
        lemma_filter_last(after, taken_at(time), end);
    }
}

/// Without the latest reading, a list in normal form is the normal form of
/// the list that it was made from without that reading.
proof fn lemma_normalized_without_latest(before: Seq<State>, after: Seq<State>)
    requires
        normalized(before, after),
        before.len() > 0,
    ensures
        normalized(before.remove(latest(before)), after.drop_last()),
{
    lemma_extremes(before);
    lemma_normalized_ends(before, after);
    let place = latest(before);
    let last = before[place];
    let rest = before.remove(place);
    let head = before.take(place);
    let tail = before.skip(place + 1);
    let front = after.drop_last();
    assert(before == head + seq![last] + tail);
    assert(rest == head + tail);
    assert(after == front.push(last));
    assert forall|i: int, j: int| 0 <= i <= j < front.len() implies front[i].time
        <= front[j].time by {
        assert(after[i].time <= after[j].time);
    }
    assert forall|time: i64| #[trigger] at_instant(front, time) == at_instant(rest, time) by {
        let test = taken_at(time);
        Seq::filter_distributes_over_add(head + seq![last], tail, test);
        Seq::filter_distributes_over_add(head, seq![last], test);
        Seq::filter_distributes_over_add(head, tail, test);
        assert(at_instant(after, time) == at_instant(before, time));
        assert(after.filter(test) == if test(last) {
            front.filter(test).push(last)
        } else {
            front.filter(test)
        }) by {
            reveal(Seq::filter);
        }
        assert(seq![last].filter(test) == if test(last) {
            seq![last]
        } else {
            Seq::<State>::empty()
        }) by {
            reveal_with_fuel(Seq::filter, 2);
            assert(seq![last].drop_last() == Seq::<State>::empty());
        }
        if test(last) {
            assert forall|k: int| 0 <= k < tail.len() implies !test(tail[k]) by {
                assert(tail[k] == before[place + 1 + k]);
            }
            tail.lemma_all_neg_filter_empty(test);
            assert(tail.filter(test) == Seq::<State>::empty());
            assert(front.filter(test).push(last) == head.filter(test).push(last));
            assert(front.filter(test) == front.filter(test).push(last).drop_last());
            assert(head.filter(test) == head.filter(test).push(last).drop_last());
            assert(rest.filter(test) == head.filter(test));
        } else {
            assert(before.filter(test) == head.filter(test) + tail.filter(test));
        }
    }
}

/// A list has one normal form: two lists that both are the normal form of
/// `before` are one list.
pub proof fn lemma_normal_form_unique(before: Seq<State>, first: Seq<State>, second: Seq<State>)
    requires
        normalized(before, first),
        normalized(before, second),
    ensures
        first == second,
    decreases before.len(),
{
    if before.len() == 0 {
        assert(first =~= second);
    } else {
        lemma_normalized_ends(before, first);
        lemma_normalized_ends(before, second);
        lemma_normalized_without_latest(before, first);
        lemma_normalized_without_latest(before, second);
        lemma_normal_form_unique(
            before.remove(latest(before)),
            first.drop_last(),
            second.drop_last(),
        );
        assert(first == first.drop_last().push(first.last()));
        assert(second == second.drop_last().push(second.last()));
    }
}

} // verus!
