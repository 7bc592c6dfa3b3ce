use std::collections::HashMap;

use sentiment_rollup::aggregate::{days_in_order, get_rollups};
use sentiment_rollup::records::{Event, SENTIMENT_SCALE};

const DAY: i64 = 86_400;
const JUNE_10: i64 = 19_518;

fn event(id: i32, sentiment: i64, created_at: i64) -> Event {
    Event { id, event_id: format!("e{}", id), sentiment, created_at }
}

fn units(sentiment: f64) -> i64 {
    (sentiment * SENTIMENT_SCALE as f64).round() as i64
}

fn five_events() -> Vec<Event> {
    vec![
        event(1, units(-0.01), JUNE_10 * DAY + 28),
        event(2, units(-0.10), JUNE_10 * DAY + 99),
        event(3, units(0.22), (JUNE_10 + 2) * DAY + 120),
        event(4, units(-0.20), (JUNE_10 + 4) * DAY + 120),
        event(5, units(0.53), (JUNE_10 + 4) * DAY + 126),
    ]
}

#[test]
fn empty_batch_has_no_bucket() {
    assert_eq!(get_rollups(&Vec::new()), HashMap::new());
    assert_eq!(days_in_order(&Vec::new()), Vec::<i64>::new());
}

#[test]
fn one_event_makes_one_bucket() {
    let events = vec![event(1, 250_000, JUNE_10 * DAY + 5)];
    assert_eq!(get_rollups(&events), HashMap::from([(JUNE_10, 250_000)]));
    assert_eq!(days_in_order(&events), vec![JUNE_10]);
}

#[test]
fn five_events_on_three_days() {
    assert_eq!(
        get_rollups(&five_events()),
        HashMap::from([(JUNE_10, -110_000), (JUNE_10 + 2, 220_000), (JUNE_10 + 4, 330_000)])
    );
    assert_eq!(days_in_order(&five_events()), vec![JUNE_10, JUNE_10 + 2, JUNE_10 + 4]);
}

#[test]
fn days_come_in_order_of_first_event() {
    let events = vec![
        event(1, 3, 7 * DAY),
        event(2, 5, 2 * DAY + 1),
        event(3, 7, 7 * DAY + 2),
        event(4, 11, 4 * DAY),
        event(5, 13, 2 * DAY + 86_399),
    ];
    assert_eq!(days_in_order(&events), vec![7, 2, 4]);
    assert_eq!(get_rollups(&events), HashMap::from([(7, 10), (2, 18), (4, 11)]));
}

#[test]
fn every_day_in_order_has_a_bucket() {
    let events = five_events();
    let rollups = get_rollups(&events);
    let days = days_in_order(&events);
    assert_eq!(days.len(), rollups.len());
    for day in days {
        assert!(rollups.contains_key(&day));
    }
}

#[test]
fn order_within_a_day_does_not_change_the_sum() {
    let forward = vec![event(1, 17, 10), event(2, -40, 20), event(3, 5, 30)];
    let backward = vec![event(3, 5, 30), event(2, -40, 20), event(1, 17, 10)];
    assert_eq!(get_rollups(&forward), HashMap::from([(0, -18)]));
    assert_eq!(get_rollups(&forward), get_rollups(&backward));
}

#[test]
fn midnight_parts_the_days() {
    let events = vec![event(1, 1, DAY - 1), event(2, 10, DAY), event(3, 100, -1)];
    assert_eq!(get_rollups(&events), HashMap::from([(0, 1), (1, 10), (-1, 100)]));
    assert_eq!(days_in_order(&events), vec![0, 1, -1]);
}

#[test]
fn scores_that_cancel_leave_a_zero_bucket() {
    let events = vec![event(1, 500, 0), event(2, -500, 1)];
    assert_eq!(get_rollups(&events), HashMap::from([(0, 0)]));
}

#[test]
fn sums_beyond_sixty_four_bits_are_exact() {
    let events = vec![event(1, i64::MAX, 0), event(2, i64::MAX, 1), event(3, 2, 2)];
    assert_eq!(get_rollups(&events), HashMap::from([(0, 2 * (i64::MAX as i128) + 2)]));
    let events = vec![event(1, i64::MIN, 0), event(2, i64::MIN, 1)];
    assert_eq!(get_rollups(&events), HashMap::from([(0, 2 * (i64::MIN as i128))]));
}
