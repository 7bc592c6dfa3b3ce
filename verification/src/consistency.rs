//! What a run does to the store.
//!
//! The store is modelled as a map from days to rollups and a set of event
//! identifiers. `answers` says how a store that keeps its word replies to a
//! request and what the request does to it; nothing but the requests of the
//! one run changes the store, so no two runs may overlap. `tallies` relates the state of a
//! run to the store as the run found it and as it is now. It holds when a run
//! begins and every answered request keeps it, so it holds throughout every
//! run; the laws at the end of this module read off what it says of rollups
//! and events.

use vstd::prelude::*;
use crate::aggregate::{day_sum, event_day, lemma_days_seen_complete, lemma_days_seen_distinct};
use crate::machine::{
    any_reconciled, fits_rollup, lemma_advance_wf, lemma_start_wf, reconciled_day, retiring, Cause,
    DayOutcome, Phase, Reply, Request, State,
};
use crate::records::Event;

verus! {

/// A rollup as the store holds it.
pub struct StoredRollup {
    pub sentiment: i64,
    pub price: Option<i32>,
}

/// The store: one rollup a day at most, and the identifiers of the events.
pub struct Store {
    pub rollups: Map<i64, StoredRollup>,
    pub events: Set<i32>,
}

impl Store {
    /// The rollup of `day`, if there is one.
    pub open spec fn rollup(self, day: i64) -> Option<StoredRollup> {
        if self.rollups.contains_key(day) {
            Some(self.rollups[day])
        } else {
            None
        }
    }
}

/// Whether `reply` is what a store that holds `before`, or the price service,
/// may give to `request`, and `after` is the store that the request leaves.
/// `retiring` lists the events that a deletion is to delete.
///
/// A request that fails leaves the store as it was. The price service may
/// give any price, or none.
pub open spec fn answers(
    before: Store,
    request: Request,
    retiring: Seq<i32>,
    reply: Reply,
    after: Store,
) -> bool {
    match request {
        Request::FetchRollup { day } => {
            &&& after == before
            &&& reply != Reply::Failed ==> match before.rollup(day) {
                Some(stored) => {
                    &&& reply matches Reply::RollupFound(rollup)
                    &&& rollup.date == day
                    &&& rollup.sentiment == stored.sentiment
                    &&& rollup.price == stored.price
                },
                None => reply == Reply::RollupAbsent,
            }
        },
        Request::LookupPrice { day } => {
            &&& after == before
            &&& reply is Price || reply == Reply::PriceUnavailable || reply == Reply::Failed
        },
        Request::InsertRollup { day, sentiment, price } => {
            ||| reply == Reply::Failed && after == before
            ||| {
                &&& reply == Reply::Done
                &&& after == Store {
                    rollups: before.rollups.insert(
                        day,
                        StoredRollup { sentiment, price: Some(price) },
                    ),
                    ..before
                }
            }
        },
        Request::UpdateRollup { day, sentiment } => {
            ||| reply == Reply::Failed && after == before
            ||| {
                &&& reply == Reply::Done
                &&& after == Store {
                    rollups: before.rollups.insert(
                        day,
                        StoredRollup { sentiment, price: before.rollups[day].price },
                    ),
                    ..before
                }
            }
        },
        Request::DeleteEvents => {
            ||| reply == Reply::Failed && after == before
            ||| {
                &&& reply == Reply::Done
                &&& after == Store { events: before.events.difference(retiring.to_set()), ..before }
            }
        },
        Request::Finish => after == before,
    }
}

/// How the reconciliation of `day` ended, if it has.
pub open spec fn settled(state: State, day: i64) -> Option<DayOutcome> {
    if exists|i: int| 0 <= i < state.outcomes.len() && #[trigger] state.days()[i] == day {
        let i = choose|i: int| 0 <= i < state.outcomes.len() && #[trigger] state.days()[i] == day;
        Some(state.outcomes[i])
    } else {
        None
    }
}

/// The rollup that the store holds for `day` at `state` of a run that found
/// the store as `first`.
pub open spec fn expected_rollup(state: State, first: Store, day: i64) -> Option<StoredRollup> {
    match settled(state, day) {
        Some(DayOutcome::Created { sentiment, price }) => Some(
            StoredRollup { sentiment, price: Some(price) },
        ),
        Some(DayOutcome::Accumulated { sentiment }) => Some(
            StoredRollup { sentiment, price: first.rollups[day].price },
        ),
        _ => first.rollup(day),
    }
}

/// Whether the outcome of the `i`th day says what was written: a new rollup
/// holds the day's sum, an old one its earlier sentiment and the day's sum.
pub open spec fn outcome_tallies(state: State, first: Store, i: int) -> bool {
    let day = state.days()[i];
    match state.outcomes[i] {
        DayOutcome::Created { sentiment, price } => {
            &&& first.rollup(day) is None
            &&& sentiment == day_sum(state.events, day)
        },
        DayOutcome::Accumulated { sentiment } => {
            &&& first.rollup(day) is Some
            &&& sentiment == first.rollups[day].sentiment + day_sum(state.events, day)
        },
        _ => true,
    }
}

/// Whether the request that is due fits the store: nothing is priced or
/// inserted for a day that had a rollup, and an update writes the day's
/// earlier sentiment and the day's sum.
pub open spec fn phase_tallies(state: State, first: Store) -> bool {
    match state.phase {
        Phase::Pricing => first.rollup(state.day()) is None,
        Phase::Inserting { price } => first.rollup(state.day()) is None,
        Phase::Updating { sentiment } => {
            &&& first.rollup(state.day()) is Some
            &&& sentiment == first.rollups[state.day()].sentiment + state.delta()
        },
        _ => true,
    }
}

/// The events that the store holds at `state` of a run that found the store
/// as `first`.
pub open spec fn expected_events(state: State, first: Store) -> Set<i32> {
    if state.retirement is Retired {
        first.events.difference(state.retiring_ids().to_set())
    } else {
        first.events
    }
}

/// Whether the store `now` is what the run at `state` has made of the store
/// `first`.
pub open spec fn tallies(state: State, first: Store, now: Store) -> bool {
    &&& state.wf()
    &&& phase_tallies(state, first)
    &&& forall|i: int| 0 <= i < state.outcomes.len() ==> #[trigger] outcome_tallies(state, first, i)
    &&& forall|day: i64| #[trigger] now.rollup(day) == expected_rollup(state, first, day)
    &&& now.events == expected_events(state, first)
}

/// The outcome of a day that has been taken is the one listed at its place.
proof fn lemma_settled_at(state: State, i: int)
    requires
        state.wf(),
        0 <= i < state.outcomes.len(),
    ensures
        settled(state, state.days()[i]) == Some(state.outcomes[i]),
{
    lemma_days_seen_distinct(state.events);
    let day = state.days()[i];
    let j = choose|j: int| 0 <= j < state.outcomes.len() && #[trigger] state.days()[j] == day;
    assert(j == i);
}

/// A day is reconciled when its outcome says so.
proof fn lemma_reconciled_settled(state: State, day: i64)
    requires
        state.wf(),
    ensures
        state.reconciled(day) <==> (settled(state, day) matches Some(outcome)
            && outcome.is_reconciled()),
{
    lemma_days_seen_distinct(state.events);
    if state.reconciled(day) {
        let i = choose|i: int|
            0 <= i < state.outcomes.len() && i < state.days().len() && #[trigger] state.days()[i]
                == day && state.outcomes[i].is_reconciled();
        assert(state.days()[i] == day);
        lemma_settled_at(state, i);
    }
    if settled(state, day) matches Some(outcome) && outcome.is_reconciled() {
        let i = choose|i: int| 0 <= i < state.outcomes.len() && #[trigger] state.days()[i] == day;
        assert(state.days()[i] == day && state.outcomes[i].is_reconciled());
    }
}

/// Once the current day has ended, it has its outcome and every other day
/// has the outcome that it had.
proof fn lemma_settled_after(state: State, outcome: DayOutcome, day: i64)
    requires
        state.wf(),
        state.working(),
    ensures
        settled(state.settle(outcome), day) == if day == state.day() {
            Some(outcome)
        } else {
            settled(state, day)
        },
{
    lemma_days_seen_distinct(state.events);
    let next = state.settle(outcome);
    let n = state.outcomes.len() as int;
    assert(next.outcomes == state.outcomes.push(outcome));
    assert(next.days() == state.days());
    if day == state.day() {
        assert(state.days()[n] == day);
        let j = choose|j: int| 0 <= j < next.outcomes.len() && #[trigger] next.days()[j] == day;
        assert(j == n);
    } else if exists|i: int| 0 <= i < state.outcomes.len() && #[trigger] state.days()[i] == day {
        let i = choose|i: int| 0 <= i < state.outcomes.len() && #[trigger] state.days()[i] == day;
        assert(next.days()[i] == day);
        let j = choose|j: int| 0 <= j < next.outcomes.len() && #[trigger] next.days()[j] == day;
        assert(j == i);
    } else {
        if exists|j: int| 0 <= j < next.outcomes.len() && #[trigger] next.days()[j] == day {
            let j = choose|j: int| 0 <= j < next.outcomes.len() && #[trigger] next.days()[j] == day;
            assert(j < n);
            assert(state.days()[j] == day);
        }
    }
}

/// A day that is still being reconciled has no outcome.
proof fn lemma_current_unsettled(state: State)
    requires
        state.wf(),
        state.working(),
    ensures
        settled(state, state.day()) is None,
{
    lemma_days_seen_distinct(state.events);
    if exists|i: int| 0 <= i < state.outcomes.len() && #[trigger] state.days()[i] == state.day() {
        let i = choose|i: int|
            0 <= i < state.outcomes.len() && #[trigger] state.days()[i] == state.day();
        assert(state.days()[state.outcomes.len() as int] == state.day());
    }
}

/// Ending the current day without a write keeps what `tallies` says.
proof fn lemma_settle_unwritten(state: State, outcome: DayOutcome, first: Store, now: Store)
    requires
        tallies(state, first, now),
        state.working(),
        !outcome.is_reconciled(),
    ensures
        tallies(state.settle(outcome), first, now),
{
    let next = state.settle(outcome);
    lemma_settle_wf(state, outcome);
    assert forall|i: int| 0 <= i < next.outcomes.len() implies #[trigger] outcome_tallies(
        next,
        first,
        i,
    ) by {
        if i < state.outcomes.len() {
            assert(outcome_tallies(state, first, i));
        }
    }
    assert forall|day: i64| #[trigger] now.rollup(day) == expected_rollup(next, first, day) by {
        lemma_settled_after(state, outcome, day);
        lemma_current_unsettled(state);
        assert(now.rollup(day) == expected_rollup(state, first, day));
    }
}

/// Ending the current day keeps `wf`.
proof fn lemma_settle_wf(state: State, outcome: DayOutcome)
    requires
        state.wf(),
        state.working(),
    ensures
        state.settle(outcome).wf(),
        state.settle(outcome).retirement == state.retirement,
        state.settle(outcome).events == state.events,
        state.settle(outcome).outcomes == state.outcomes.push(outcome),
{
    let next = state.settle(outcome);
    if outcome.is_reconciled() {
        assert(next.outcomes[next.outcomes.len() - 1].is_reconciled());
    }
    if any_reconciled(state.outcomes) {
        let i = choose|i: int|
            0 <= i < state.outcomes.len() && (#[trigger] state.outcomes[i]).is_reconciled();
        assert(next.outcomes[i].is_reconciled());
    }
}

/// Stopping the run keeps what `tallies` says.
proof fn lemma_stop_tallies(state: State, cause: Cause, first: Store, now: Store)
    requires
        tallies(state, first, now),
        state.working(),
    ensures
        tallies(state.stop(cause), first, now),
{
    let next = state.stop(cause);
    assert(next.outcomes == state.outcomes);
    assert forall|i: int| 0 <= i < next.outcomes.len() implies #[trigger] outcome_tallies(
        next,
        first,
        i,
    ) by {
        assert(outcome_tallies(state, first, i));
    }
    assert forall|day: i64| #[trigger] now.rollup(day) == expected_rollup(next, first, day) by {
        assert(now.rollup(day) == expected_rollup(state, first, day));
        assert(settled(next, day) == settled(state, day));
    }
}

/// Ending the current day with a write keeps what `tallies` says, where the
/// store now holds the rollup that the outcome names.
proof fn lemma_settle_written(
    state: State,
    outcome: DayOutcome,
    first: Store,
    now: Store,
    after: Store,
    written: StoredRollup,
)
    requires
        tallies(state, first, now),
        state.working(),
        after == (Store { rollups: now.rollups.insert(state.day(), written), ..now }),
        match outcome {
            DayOutcome::Created { sentiment, price } => {
                &&& first.rollup(state.day()) is None
                &&& sentiment == state.delta()
                &&& written == StoredRollup { sentiment, price: Some(price) }
            },
            DayOutcome::Accumulated { sentiment } => {
                &&& first.rollup(state.day()) is Some
                &&& sentiment == first.rollups[state.day()].sentiment + state.delta()
                &&& written == StoredRollup { sentiment, price: first.rollups[state.day()].price }
            },
            _ => false,
        },
    ensures
        tallies(state.settle(outcome), first, after),
{
    let next = state.settle(outcome);
    lemma_settle_wf(state, outcome);
    assert forall|i: int| 0 <= i < next.outcomes.len() implies #[trigger] outcome_tallies(
        next,
        first,
        i,
    ) by {
        if i < state.outcomes.len() {
            assert(outcome_tallies(state, first, i));
        }
    }
    assert forall|day: i64| #[trigger] after.rollup(day) == expected_rollup(next, first, day) by {
        lemma_settled_after(state, outcome, day);
        assert(now.rollup(day) == expected_rollup(state, first, day));
    }
}

/// A run begins with the store as it found it.
pub proof fn lemma_start_tallies(events: Seq<Event>, first: Store)
    requires
        events.len() <= usize::MAX,
    ensures
        tallies(State::start(events), first, first),
{
    lemma_start_wf(events);
    let state = State::start(events);
    assert forall|day: i64| #[trigger] first.rollup(day) == expected_rollup(state, first, day) by {
        assert(settled(state, day) is None);
    }
}

/// A reply to the reading of the current day's rollup keeps `tallies`.
proof fn lemma_read_tallies(state: State, first: Store, now: Store, reply: Reply)
    requires
        tallies(state, first, now),
        state.phase is Reading,
        answers(now, state.pending(), state.retiring_ids(), reply, now),
    ensures
        tallies(state.advance(reply), first, now),
{
    let next = state.advance(reply);
    lemma_advance_wf(state, reply);
    lemma_current_unsettled(state);
    let day = state.day();
    assert(now.rollup(day) == expected_rollup(state, first, day));
    assert(now.rollup(day) == first.rollup(day));
    match reply {
        Reply::RollupAbsent => {
            if fits_rollup(state.delta()) {
                lemma_same_outcomes_tally(state, next, first, now);
            } else {
                lemma_settle_unwritten(state, DayOutcome::OutOfRange, first, now);
            }
        },
        Reply::RollupFound(rollup) => {
            if rollup.date != state.day() {
                lemma_stop_tallies(state, Cause::UnexpectedReply, first, now);
            } else if fits_rollup(rollup.sentiment + state.delta()) {
                lemma_same_outcomes_tally(state, next, first, now);
            } else {
                lemma_settle_unwritten(state, DayOutcome::OutOfRange, first, now);
            }
        },
        Reply::RollupConflict => {
            lemma_stop_tallies(state, Cause::DuplicateRollups, first, now);
        },
        Reply::Failed => {
            lemma_stop_tallies(state, Cause::Unreachable, first, now);
        },
        _ => {
            lemma_stop_tallies(state, Cause::UnexpectedReply, first, now);
        },
    }
}

/// A reply to the price lookup of the current day keeps `tallies`.
proof fn lemma_price_tallies(state: State, first: Store, now: Store, reply: Reply)
    requires
        tallies(state, first, now),
        state.phase is Pricing,
    ensures
        tallies(state.advance(reply), first, now),
{
    let next = state.advance(reply);
    lemma_advance_wf(state, reply);
    match reply {
        Reply::Price(price) => {
            lemma_same_outcomes_tally(state, next, first, now);
        },
        Reply::PriceUnavailable => {
            lemma_settle_unwritten(state, DayOutcome::PriceUnavailable, first, now);
        },
        Reply::Failed => {
            lemma_stop_tallies(state, Cause::Unreachable, first, now);
        },
        _ => {
            lemma_stop_tallies(state, Cause::UnexpectedReply, first, now);
        },
    }
}

/// A reply to the write of the current day's rollup keeps `tallies`.
proof fn lemma_write_tallies(state: State, first: Store, now: Store, reply: Reply, after: Store)
    requires
        tallies(state, first, now),
        state.phase is Inserting || state.phase is Updating,
        answers(now, state.pending(), state.retiring_ids(), reply, after),
    ensures
        tallies(state.advance(reply), first, after),
{
    lemma_advance_wf(state, reply);
    lemma_current_unsettled(state);
    let day = state.day();
    assert(now.rollup(day) == expected_rollup(state, first, day));
    assert(now.rollup(day) == first.rollup(day));
    match reply {
        Reply::Done => {
            match state.phase {
                Phase::Inserting { price } => {
                    let sentiment = state.delta() as i64;
                    lemma_settle_written(
                        state,
                        DayOutcome::Created { sentiment, price },
                        first,
                        now,
                        after,
                        StoredRollup { sentiment, price: Some(price) },
                    );
                },
                Phase::Updating { sentiment } => {
                    lemma_settle_written(
                        state,
                        DayOutcome::Accumulated { sentiment },
                        first,
                        now,
                        after,
                        StoredRollup { sentiment, price: first.rollups[day].price },
                    );
                },
                _ => {},
            }
        },
        Reply::Failed => {
            lemma_stop_tallies(state, Cause::Unreachable, first, now);
        },
        _ => {
            lemma_stop_tallies(state, Cause::UnexpectedReply, first, now);
        },
    }
}

/// A reply to the deletion, or to nothing, keeps `tallies`.
proof fn lemma_retire_tallies(state: State, first: Store, now: Store, reply: Reply, after: Store)
    requires
        tallies(state, first, now),
        !state.working(),
        answers(now, state.pending(), state.retiring_ids(), reply, after),
    ensures
        tallies(state.advance(reply), first, after),
{
    let next = state.advance(reply);
    lemma_advance_wf(state, reply);
    lemma_same_outcomes_tally(state, next, first, now);
    assert(after.rollups == now.rollups);
    assert forall|day: i64| #[trigger] after.rollup(day) == expected_rollup(next, first, day) by {
        assert(now.rollup(day) == expected_rollup(next, first, day));
    }
}

/// Every answered request keeps the store as `tallies` says: where the store
/// answers the request that is due, the state that follows the reply tallies
/// with the store that the request leaves.
pub proof fn lemma_advance_tallies(
    state: State,
    first: Store,
    now: Store,
    reply: Reply,
    after: Store,
)
    requires
        tallies(state, first, now),
        answers(now, state.pending(), state.retiring_ids(), reply, after),
    ensures
        tallies(state.advance(reply), first, after),
{
    match state.phase {
        Phase::Reading => {
            lemma_read_tallies(state, first, now, reply);
        },
        Phase::Pricing => {
            lemma_price_tallies(state, first, now, reply);
        },
        Phase::Inserting { .. } | Phase::Updating { .. } => {
            lemma_write_tallies(state, first, now, reply, after);
        },
        _ => {
            lemma_retire_tallies(state, first, now, reply, after);
        },
    }
}

/// A state with the same batch and outcomes settles and expects the same.
proof fn lemma_same_outcomes_tally(state: State, next: State, first: Store, now: Store)
    requires
        tallies(state, first, now),
        next.events == state.events,
        next.outcomes == state.outcomes,
    ensures
        forall|i: int| 0 <= i < next.outcomes.len() ==> #[trigger] outcome_tallies(next, first, i),
        forall|day: i64| #[trigger] now.rollup(day) == expected_rollup(next, first, day),
{
    assert forall|i: int| 0 <= i < next.outcomes.len() implies #[trigger] outcome_tallies(
        next,
        first,
        i,
    ) by {
        assert(outcome_tallies(state, first, i));
    }
    assert forall|day: i64| #[trigger] now.rollup(day) == expected_rollup(next, first, day) by {
        assert(now.rollup(day) == expected_rollup(state, first, day));
        assert(settled(next, day) == settled(state, day));
    }
}

/// Whether every reply of a run is one that the store, or the price service,
/// may give: `replies` are the replies in the order in which they came, and
/// `stores` holds, for each, the store that its request left. The run goes
/// from `state`, with the store as `store`.
pub open spec fn faithful_run(state: State, store: Store, replies: Seq<Reply>, stores: Seq<Store>) -> bool
    decreases replies.len(),
{
    &&& replies.len() == stores.len()
    &&& replies.len() > 0 ==> {
        &&& answers(store, state.pending(), state.retiring_ids(), replies[0], stores[0])
        &&& faithful_run(
            state.advance(replies[0]),
            stores[0],
            replies.drop_first(),
            stores.drop_first(),
        )
    }
}

/// The state that `replies`, taken in order, lead to from `state`.
pub open spec fn after_replies(state: State, replies: Seq<Reply>) -> State
    decreases replies.len(),
{
    if replies.len() == 0 {
        state
    } else {
        after_replies(state.advance(replies[0]), replies.drop_first())
    }
}

/// The store at the end of a run that began with `store`.
pub open spec fn last_store(store: Store, stores: Seq<Store>) -> Store {
    if stores.len() == 0 {
        store
    } else {
        stores.last()
    }
}

/// A run that is answered faithfully keeps `tallies` from any state on.
pub proof fn lemma_run_tallies(
    state: State,
    first: Store,
    now: Store,
    replies: Seq<Reply>,
    stores: Seq<Store>,
)
    requires
        tallies(state, first, now),
        faithful_run(state, now, replies, stores),
    ensures
        tallies(after_replies(state, replies), first, last_store(now, stores)),
    decreases replies.len(),
{
    if replies.len() > 0 {
        lemma_advance_tallies(state, first, now, replies[0], stores[0]);
        lemma_run_tallies(
            state.advance(replies[0]),
            first,
            stores[0],
            replies.drop_first(),
            stores.drop_first(),
        );
        if stores.len() > 1 {
            assert(stores.drop_first().last() == stores.last());
        }
    }
}

/// Throughout every run of a batch that is answered faithfully, from its
/// first request on, the store is what `tallies` says of the state reached.
pub proof fn law_every_run_tallies(
    events: Seq<Event>,
    first: Store,
    replies: Seq<Reply>,
    stores: Seq<Store>,
)
    requires
        events.len() <= usize::MAX,
        faithful_run(State::start(events), first, replies, stores),
    ensures
        tallies(after_replies(State::start(events), replies), first, last_store(first, stores)),
{
    lemma_start_tallies(events, first);
    lemma_run_tallies(State::start(events), first, first, replies, stores);
}

/// A day that had no rollup and was reconciled has a rollup whose sentiment
/// is the sum of the sentiment of the batch's events of that day, and whose
/// price is the one that was looked up.
pub proof fn law_new_rollup_holds_day_sum(state: State, first: Store, now: Store, day: i64)
    requires
        tallies(state, first, now),
        state.reconciled(day),
        first.rollup(day) is None,
    ensures
        now.rollup(day) is Some,
        now.rollups[day].sentiment == day_sum(state.events, day),
        settled(state, day) matches Some(DayOutcome::Created { sentiment, price })
            && now.rollups[day].price == Some(price),
{
    lemma_reconciled_settled(state, day);
    let i = choose|i: int| 0 <= i < state.outcomes.len() && #[trigger] state.days()[i] == day;
    lemma_settled_at(state, i);
    assert(outcome_tallies(state, first, i));
    assert(now.rollup(day) == expected_rollup(state, first, day));
}

/// A day that had a rollup and was reconciled has a rollup whose sentiment
/// is the earlier sentiment and the sum of the batch's events of that day.
pub proof fn law_old_rollup_accumulates(state: State, first: Store, now: Store, day: i64)
    requires
        tallies(state, first, now),
        state.reconciled(day),
        first.rollup(day) is Some,
    ensures
        now.rollup(day) is Some,
        now.rollups[day].sentiment == first.rollups[day].sentiment + day_sum(state.events, day),
{
    lemma_reconciled_settled(state, day);
    let i = choose|i: int| 0 <= i < state.outcomes.len() && #[trigger] state.days()[i] == day;
    lemma_settled_at(state, i);
    assert(outcome_tallies(state, first, i));
    assert(now.rollup(day) == expected_rollup(state, first, day));
}

/// A day that was not reconciled has the rollup that it had, or none as
/// before.
pub proof fn law_unreconciled_day_untouched(state: State, first: Store, now: Store, day: i64)
    requires
        tallies(state, first, now),
        !state.reconciled(day),
    ensures
        now.rollup(day) == first.rollup(day),
{
    lemma_reconciled_settled(state, day);
    assert(now.rollup(day) == expected_rollup(state, first, day));
}

/// The price of a rollup is set when the rollup is created and never again:
/// a rollup that the run found has the price that it had.
pub proof fn law_price_is_kept(state: State, first: Store, now: Store, day: i64)
    requires
        tallies(state, first, now),
        first.rollup(day) is Some,
    ensures
        now.rollup(day) is Some,
        now.rollups[day].price == first.rollups[day].price,
{
    assert(now.rollup(day) == expected_rollup(state, first, day));
    if settled(state, day) is Some {
        let i = choose|i: int| 0 <= i < state.outcomes.len() && #[trigger] state.days()[i] == day;
        lemma_settled_at(state, i);
        assert(outcome_tallies(state, first, i));
    }
}

/// The price service is asked, and a rollup is inserted, only for a day for
/// which the store holds no rollup: no day ever gets a second one.
pub proof fn law_insert_only_where_absent(state: State, first: Store, now: Store)
    requires
        tallies(state, first, now),
        state.pending() is LookupPrice || state.pending() is InsertRollup,
    ensures
        first.rollup(state.day()) is None,
        now.rollup(state.day()) is None,
        state.pending() matches Request::LookupPrice { day } ==> day == state.day(),
        state.pending() matches Request::InsertRollup { day, sentiment, .. } ==> day == state.day()
            && sentiment == day_sum(state.events, state.day()),
{
    lemma_current_unsettled(state);
    assert(now.rollup(state.day()) == expected_rollup(state, first, state.day()));
}

/// A rollup is updated only where the store holds one for the day, and to
/// its sentiment and the sum of the batch's events of that day.
pub proof fn law_update_adds_to_stored(state: State, first: Store, now: Store)
    requires
        tallies(state, first, now),
        state.pending() is UpdateRollup,
    ensures
        now.rollup(state.day()) is Some,
        state.pending() matches Request::UpdateRollup { day, sentiment } ==> day == state.day()
            && sentiment == now.rollups[state.day()].sentiment + day_sum(
            state.events,
            state.day(),
        ),
{
    lemma_current_unsettled(state);
    assert(now.rollup(state.day()) == expected_rollup(state, first, state.day()));
}

/// No event is deleted before its day is written: an event of the batch that
/// is gone from the store fell on a reconciled day.
pub proof fn law_no_event_lost(state: State, first: Store, now: Store, k: int)
    requires
        tallies(state, first, now),
        distinct_ids(state.events),
        0 <= k < state.events.len(),
        first.events.contains(state.events[k].id),
        !now.events.contains(state.events[k].id),
    ensures
        state.reconciled(event_day(state.events[k])),
{
    let event = state.events[k];
    lemma_retiring_exact(state.events, state.outcomes, state.events, event.id);
    assert(state.retiring_ids().contains(event.id));
    let j = choose|j: int|
        0 <= j < state.events.len() && (#[trigger] state.events[j]).id == event.id
            && reconciled_day(state.events, state.outcomes, event_day(state.events[j]));
    assert(j == k);
}

/// A deletion is asked for at least one event.
pub proof fn law_deletion_has_events(state: State)
    requires
        state.wf(),
        state.phase is Retiring,
    ensures
        state.retiring_ids().len() > 0,
{
    let i = choose|i: int|
        0 <= i < state.outcomes.len() && (#[trigger] state.outcomes[i]).is_reconciled();
    let day = state.days()[i];
    assert(state.days().contains(day));
    lemma_days_seen_complete(state.events, day);
    let k = choose|k: int| 0 <= k < state.events.len() && event_day(#[trigger] state.events[k]) == day;
    assert(state.days()[i] == day && state.outcomes[i].is_reconciled());
    assert(state.reconciled(day));
    lemma_retiring_exact(state.events, state.outcomes, state.events, state.events[k].id);
    assert(state.retiring_ids().contains(state.events[k].id));
}

/// Whether no two events of the batch share an identifier.
pub open spec fn distinct_ids(events: Seq<Event>) -> bool {
    forall|i: int, j: int|
        0 <= i < j < events.len() ==> (#[trigger] events[i]).id != (#[trigger] events[j]).id
}

/// The identifiers listed for retirement are those of the events that fall on
/// a reconciled day.
pub proof fn lemma_retiring_exact(
    batch: Seq<Event>,
    outcomes: Seq<DayOutcome>,
    events: Seq<Event>,
    id: i32,
)
    ensures
        retiring(batch, outcomes, events).contains(id) <==> exists|k: int|
            0 <= k < events.len() && (#[trigger] events[k]).id == id && reconciled_day(
                batch,
                outcomes,
                event_day(events[k]),
            ),
    decreases events.len(),
{
    if events.len() > 0 {
        let earlier = events.drop_last();
        let last = events.last();
        let listed = retiring(batch, outcomes, events);
        let listed_earlier = retiring(batch, outcomes, earlier);
        lemma_retiring_exact(batch, outcomes, earlier, id);
        if listed.contains(id) {
            let at = choose|at: int| 0 <= at < listed.len() && listed[at] == id;
            if at < listed_earlier.len() {
                assert(listed_earlier[at] == id);
                let k = choose|k: int|
                    0 <= k < earlier.len() && (#[trigger] earlier[k]).id == id && reconciled_day(
                        batch,
                        outcomes,
                        event_day(earlier[k]),
                    );
                assert(events[k] == earlier[k]);
            } else {
                assert(events[events.len() - 1].id == id);
            }
        }
        if exists|k: int|
            0 <= k < events.len() && (#[trigger] events[k]).id == id && reconciled_day(
                batch,
                outcomes,
                event_day(events[k]),
            ) {
            let k = choose|k: int|
                0 <= k < events.len() && (#[trigger] events[k]).id == id && reconciled_day(
                    batch,
                    outcomes,
                    event_day(events[k]),
                );
            if k < earlier.len() {
                assert(earlier[k] == events[k]);
                let at = choose|at: int| 0 <= at < listed_earlier.len() && listed_earlier[at] == id;
                assert(listed[at] == id);
            } else {
                assert(listed.last() == id);
            }
        }
    }
}

/// Once a run is over and its deletion, if it asked for one, was carried out,
/// an event of the batch is gone from the store if its day was reconciled,
/// and is still there if its day was not.
pub proof fn law_retired_iff_reconciled(state: State, first: Store, now: Store, k: int)
    requires
        tallies(state, first, now),
        state.phase is Finished,
        !(state.retirement is Failed),
        distinct_ids(state.events),
        0 <= k < state.events.len(),
        first.events.contains(state.events[k].id),
    ensures
        now.events.contains(state.events[k].id) <==> !state.reconciled(event_day(state.events[k])),
{
    let event = state.events[k];
    lemma_retiring_exact(state.events, state.outcomes, state.events, event.id);
    if state.retiring_ids().contains(event.id) {
        let j = choose|j: int|
            0 <= j < state.events.len() && (#[trigger] state.events[j]).id == event.id
                && reconciled_day(state.events, state.outcomes, event_day(state.events[j]));
        assert(j == k);
    }
    if state.reconciled(event_day(event)) {
        let day = event_day(event);
        let i = choose|i: int|
            0 <= i < state.outcomes.len() && i < state.days().len() && #[trigger] state.days()[i]
                == day && state.outcomes[i].is_reconciled();
        assert(state.outcomes[i].is_reconciled());
        assert(any_reconciled(state.outcomes));
    }
}

/// Until a deletion is carried out, and for good where it fails, the store
/// holds every event that it held when the run began.
pub proof fn law_events_kept_unless_retired(state: State, first: Store, now: Store)
    requires
        tallies(state, first, now),
        !(state.retirement is Retired),
    ensures
        now.events == first.events,
{
}

} // verus!
