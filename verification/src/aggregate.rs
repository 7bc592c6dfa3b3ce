//! Grouping a batch of events by day.

use std::collections::HashMap;
use vstd::prelude::*;
use vstd::seq_lib::{to_multiset_contains, to_multiset_len, to_multiset_remove};
use crate::calendar::{day_of, day_of_timestamp};
use crate::records::Event;

verus! {

broadcast use vstd::std_specs::hash::group_hash_axioms;

/// The UTC calendar day on which `event` was created.
pub open spec fn event_day(event: Event) -> i64 {
    day_of(event.created_at)
}

/// What `event` adds to the total of `day`: its sentiment on its own day,
/// nothing on any other.
pub open spec fn share_of(event: Event, day: i64) -> int {
    if event_day(event) == day {
        event.sentiment as int
    } else {
        0
    }
}

/// The sum of the sentiment of the events of `events` that fall on `day`.
pub open spec fn day_sum(events: Seq<Event>, day: i64) -> int
    decreases events.len(),
{
    if events.len() == 0 {
        0
    } else {
        day_sum(events.drop_last(), day) + share_of(events.last(), day)
    }
}

/// The distinct days of `events`, each at the place of its first event.
pub open spec fn days_seen(events: Seq<Event>) -> Seq<i64>
    decreases events.len(),
{
    if events.len() == 0 {
        Seq::empty()
    } else {
        let earlier = days_seen(events.drop_last());
        let day = event_day(events.last());
        if earlier.contains(day) {
            earlier
        } else {
            earlier.push(day)
        }
    }
}

/// The day buckets of a batch: each day on which an event of the batch falls,
/// with the sum of the sentiment of the batch's events of that day.
pub open spec fn day_sums(events: Seq<Event>) -> Map<i64, i128> {
    Map::new(
        |day: i64| days_seen(events).contains(day),
        |day: i64| day_sum(events, day) as i128,
    )
}

/// No day is listed twice.
pub proof fn lemma_days_seen_distinct(events: Seq<Event>)
    ensures
        days_seen(events).no_duplicates(),
    decreases events.len(),
{
    if events.len() > 0 {
        lemma_days_seen_distinct(events.drop_last());
    }
}

/// The days listed are those on which an event of the batch falls.
pub proof fn lemma_days_seen_complete(events: Seq<Event>, day: i64)
    ensures
        days_seen(events).contains(day) <==> exists|i: int|
            0 <= i < events.len() && event_day(#[trigger] events[i]) == day,
    decreases events.len(),
{
    if events.len() > 0 {
        let earlier = events.drop_last();
        lemma_days_seen_complete(earlier, day);
        let last = event_day(events.last());
        if days_seen(events).contains(day) {
            if days_seen(earlier).contains(day) {
                let i = choose|i: int|
                    0 <= i < earlier.len() && event_day(#[trigger] earlier[i]) == day;
                assert(events[i] == earlier[i]);
            } else {
                assert(day == last);
                assert(event_day(events[events.len() - 1]) == day);
            }
        }
        if exists|i: int| 0 <= i < events.len() && event_day(#[trigger] events[i]) == day {
            let i = choose|i: int| 0 <= i < events.len() && event_day(#[trigger] events[i]) == day;
            if i < earlier.len() {
                assert(earlier[i] == events[i]);
                assert(days_seen(earlier).contains(day));
                let j = choose|j: int|
                    0 <= j < days_seen(earlier).len() && days_seen(earlier)[j] == day;
                assert(days_seen(events)[j] == day);
            } else {
                assert(day == last);
                if !days_seen(earlier).contains(day) {
                    assert(days_seen(events).last() == day);
                }
            }
        }
    }
}

/// A day on which no event of the batch falls has the sum zero.
pub proof fn lemma_day_sum_absent(events: Seq<Event>, day: i64)
    requires
        !days_seen(events).contains(day),
    ensures
        day_sum(events, day) == 0,
    decreases events.len(),
{
    if events.len() > 0 {
        let earlier = days_seen(events.drop_last());
        if earlier.contains(day) {
            let k = choose|k: int| 0 <= k < earlier.len() && earlier[k] == day;
            assert(days_seen(events)[k] == day);
        }
        if event_day(events.last()) == day {
            if !earlier.contains(day) {
                assert(days_seen(events).last() == day);
            }
        }
        lemma_day_sum_absent(events.drop_last(), day);
    }
}

/// A day's sum is no larger in size than as many extreme scores as the batch
/// has events: the sum of a batch that a `Vec` can hold fits an `i128`.
pub proof fn lemma_day_sum_bounds(events: Seq<Event>, day: i64)
    ensures
        -0x8000_0000_0000_0000 * events.len() <= day_sum(events, day),
        day_sum(events, day) <= 0x7fff_ffff_ffff_ffff * events.len(),
        events.len() <= usize::MAX ==> i128::MIN <= day_sum(events, day) <= i128::MAX,
    decreases events.len(),
{
    if events.len() > 0 {
        lemma_day_sum_bounds(events.drop_last(), day);
    }
}

/// Taking one event out of a batch takes its share out of the sum.
proof fn lemma_day_sum_remove(events: Seq<Event>, k: int, day: i64)
    requires
        0 <= k < events.len(),
    ensures
        day_sum(events, day) == day_sum(events.remove(k), day) + share_of(events[k], day),
    decreases events.len(),
{
    if k == events.len() - 1 {
        assert(events.remove(k) =~= events.drop_last());
    } else {
        lemma_day_sum_remove(events.drop_last(), k, day);
        assert(events.remove(k).drop_last() =~= events.drop_last().remove(k));
        assert(events.remove(k).last() == events.last());
    }
}

/// The order of a batch does not matter to a day's sum: two batches of the
/// same events, each as often in one as in the other, give every day the
/// same sum.
pub proof fn law_day_sum_ignores_order(first: Seq<Event>, second: Seq<Event>, day: i64)
    requires
        first.to_multiset() == second.to_multiset(),
    ensures
        day_sum(first, day) == day_sum(second, day),
    decreases first.len(),
{
    to_multiset_len(first);
    to_multiset_len(second);
    if first.len() > 0 {
        let last = first.last();
        assert(first[first.len() - 1] == last);
        to_multiset_contains(first, last);
        to_multiset_contains(second, last);
        let k = choose|k: int| 0 <= k < second.len() && second[k] == last;
        to_multiset_remove(first, first.len() - 1);
        to_multiset_remove(second, k);
        assert(first.remove(first.len() - 1) =~= first.drop_last());
        law_day_sum_ignores_order(first.drop_last(), second.remove(k), day);
        lemma_day_sum_remove(second, k, day);
    }
}

/// The order of a batch does not matter to its day buckets.
pub proof fn law_day_sums_ignore_order(first: Seq<Event>, second: Seq<Event>)
    requires
        first.to_multiset() == second.to_multiset(),
    ensures
        day_sums(first) == day_sums(second),
{
    assert forall|day: i64|
        (#[trigger] day_sums(first).dom().contains(day)) == day_sums(second).dom().contains(day)
            && day_sum(first, day) == day_sum(second, day) by {
        law_day_sum_ignores_order(first, second, day);
        lemma_days_seen_complete(first, day);
        lemma_days_seen_complete(second, day);
        if exists|i: int| 0 <= i < first.len() && event_day(#[trigger] first[i]) == day {
            let i = choose|i: int| 0 <= i < first.len() && event_day(#[trigger] first[i]) == day;
            to_multiset_contains(first, first[i]);
            to_multiset_contains(second, first[i]);
            let j = choose|j: int| 0 <= j < second.len() && second[j] == first[i];
            assert(event_day(second[j]) == day);
        }
        if exists|i: int| 0 <= i < second.len() && event_day(#[trigger] second[i]) == day {
            let i = choose|i: int| 0 <= i < second.len() && event_day(#[trigger] second[i]) == day;
            to_multiset_contains(first, second[i]);
            to_multiset_contains(second, second[i]);
            let j = choose|j: int| 0 <= j < first.len() && first[j] == second[i];
            assert(event_day(first[j]) == day);
        }
    }
    assert(day_sums(first) =~= day_sums(second));
}

/// The sum over one event more.
proof fn lemma_day_sum_step(events: Seq<Event>, count: int, day: i64)
    requires
        0 <= count < events.len(),
    ensures
        day_sum(events.take(count + 1), day) == day_sum(events.take(count), day) + share_of(
            events[count],
            day,
        ),
{
    assert(events.take(count + 1).drop_last() =~= events.take(count));
}

/// The days over one event more.
proof fn lemma_days_seen_step(events: Seq<Event>, count: int)
    requires
        0 <= count < events.len(),
    ensures
        days_seen(events.take(count + 1)) == if days_seen(events.take(count)).contains(
            event_day(events[count]),
        ) {
            days_seen(events.take(count))
        } else {
            days_seen(events.take(count)).push(event_day(events[count]))
        },
{
    assert(events.take(count + 1).drop_last() =~= events.take(count));
}

/// Groups a batch by UTC calendar day and sums each day's sentiment.
///
/// The result maps each day on which an event of the batch falls to the
/// exact sum of the sentiment of the batch's events of that day; an empty
/// batch gives an empty map.
pub fn get_rollups(events: &Vec<Event>) -> (rollups: HashMap<i64, i128>)
    ensures
        rollups@ == day_sums(events@),
{
    let mut rollups: HashMap<i64, i128> = HashMap::new();
    let mut count: usize = 0;
    while count < events.len()
        invariant
            count <= events.len(),
            rollups@ =~= day_sums(events@.take(count as int)),
        decreases events.len() - count,
    {
        let ghost before = events@.take(count as int);
        let ghost after = events@.take(count + 1);
        // Create a key
        let date: i64 = day_of_timestamp(events[count].created_at);
        let sentiment: i64 = events[count].sentiment;
        proof {
            lemma_days_seen_step(events@, count as int);
            lemma_day_sum_bounds(before, date);
            lemma_day_sum_bounds(after, date);
            lemma_day_sum_step(events@, count as int, date);
            if !days_seen(before).contains(date) {
                lemma_day_sum_absent(before, date);
            }
        }

        // Calculate sentiment value
        let current_value = rollups.get(&date);
        let next_value: i128 = match current_value {
            Some(v) => *v + sentiment as i128,
            None => sentiment as i128,
        };

        // Add key/value to map
        rollups.insert(date, next_value);
        proof {
            assert forall|day: i64| #[trigger] days_seen(after).contains(day) <==> (day == date
                || days_seen(before).contains(day)) by {
                if days_seen(before).contains(day) {
                    let k = choose|k: int|
                        0 <= k < days_seen(before).len() && days_seen(before)[k] == day;
                    assert(days_seen(after)[k] == day);
                }
                if day == date && !days_seen(before).contains(date) {
                    assert(days_seen(after).last() == date);
                }
            }
            assert forall|day: i64| day != date implies day_sum(after, day) == day_sum(
                before,
                day,
            ) by {
                lemma_day_sum_step(events@, count as int, day);
            }
            assert(rollups@ =~= day_sums(after));
        }
        count = count + 1;
    }
    assert(events@.take(count as int) =~= events@);
    rollups
}

/// The distinct days of a batch, in the order in which they first occur.
pub fn days_in_order(events: &Vec<Event>) -> (days: Vec<i64>)
    ensures
        days@ == days_seen(events@),
{
    let mut days: Vec<i64> = Vec::new();
    let mut count: usize = 0;
    while count < events.len()
        invariant
            count <= events.len(),
            days@ == days_seen(events@.take(count as int)),
        decreases events.len() - count,
    {
        let day: i64 = day_of_timestamp(events[count].created_at);
        proof {
            lemma_days_seen_step(events@, count as int);
        }
        let mut at: usize = 0;
        while at < days.len() && days[at] != day
            invariant
                at <= days.len(),
                forall|k: int| 0 <= k < at ==> days@[k] != day,
            decreases days.len() - at,
        {
            at = at + 1;
        }
        if at == days.len() {
            days.push(day);
        }
        count = count + 1;
    }
    assert(events@.take(count as int) =~= events@);
    days
}

} // verus!
