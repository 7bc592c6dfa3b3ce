//! The run of one batch, as requests and replies.
//!
//! The pipeline reaches neither the store nor the price service. It names the
//! one request that is due; the caller carries it out and hands back the
//! reply; the pipeline then names the next request. This module says, over
//! mathematical values, which request is due in each state and which state
//! follows each reply.
//!
//! Days are taken in the order in which the batch first mentions them. For
//! each day the stored rollup is read. Where there is one, the day's sum is
//! added to its sentiment and the rollup is updated. Where there is none, the
//! day's closing price is looked up and a new rollup is inserted. When the
//! days are done, or the run has been stopped, the events of the days that
//! were written are deleted.

use vstd::prelude::*;
use crate::aggregate::{day_sum, days_seen, event_day};
use crate::records::{Event, Rollup};

verus! {

/// What the caller is asked to do next.
#[derive(Debug, Clone, Copy, PartialEq, Eq)]
pub enum Request {
    /// Read the rollups stored for `day`.
    FetchRollup { day: i64 },
    /// Ask the price service for the closing price of `day`.
    LookupPrice { day: i64 },
    /// Store a new rollup for `day`.
    InsertRollup { day: i64, sentiment: i64, price: i32 },
    /// Set the sentiment of the rollup of `day`, and nothing else of it.
    UpdateRollup { day: i64, sentiment: i64 },
    /// Delete the events whose identifiers the pipeline lists for retirement.
    DeleteEvents,
    /// Nothing: the run is over.
    Finish,
}

/// What came of a request.
#[derive(Debug, Clone, Copy, PartialEq, Eq)]
pub enum Reply {
    /// The store holds no rollup for the day.
    RollupAbsent,
    /// The store holds this one rollup for the day.
    RollupFound(Rollup),
    /// The store holds more than one rollup for the day.
    RollupConflict,
    /// The closing price of the day.
    Price(i32),
    /// The price service has no closing price for the day.
    PriceUnavailable,
    /// The write or the deletion was carried out.
    Done,
    /// The store or the price service could not be reached.
    Failed,
}

/// How the reconciliation of one day ended.
#[derive(Debug, Clone, Copy, PartialEq, Eq)]
pub enum DayOutcome {
    /// A new rollup was inserted with this sentiment and price.
    Created { sentiment: i64, price: i32 },
    /// The rollup of the day was updated to this sentiment.
    Accumulated { sentiment: i64 },
    /// The day has no rollup yet and no closing price could be had: nothing
    /// was written.
    PriceUnavailable,
    /// The sentiment to store is beyond what a rollup can hold: nothing was
    /// written.
    OutOfRange,
}

/// Why a run was stopped before all its days were taken.
#[derive(Debug, Clone, Copy, PartialEq, Eq)]
pub enum Cause {
    /// The store or the price service could not be reached.
    Unreachable,
    /// The store holds more than one rollup for a day.
    DuplicateRollups,
    /// The reply does not answer the request that was due.
    UnexpectedReply,
}

/// The request at which a run was stopped, and why.
#[derive(Debug, Clone, Copy, PartialEq, Eq)]
pub struct Failure {
    pub request: Request,
    pub cause: Cause,
}

/// Where a run stands.
#[derive(Debug, Clone, Copy, PartialEq, Eq)]
pub enum Phase {
    /// The rollup of the current day is being read.
    Reading,
    /// The closing price of the current day is being looked up.
    Pricing,
    /// A new rollup for the current day is being inserted.
    Inserting { price: i32 },
    /// The rollup of the current day is being updated.
    Updating { sentiment: i64 },
    /// The events of the reconciled days are being deleted.
    Retiring,
    /// The run is over.
    Finished,
}

/// What became of the batch's events.
#[derive(Debug, Clone, Copy, PartialEq, Eq)]
pub enum Retirement {
    /// No deletion was asked for, or its reply is still due.
    NotAttempted,
    /// The events of the reconciled days were deleted.
    Retired,
    /// The deletion failed: every event of the batch is still stored, those
    /// of the reconciled days too, whose sums a later run would add again.
    Failed,
}

impl DayOutcome {
    /// Whether the day's sum was written to the store.
    pub open spec fn is_reconciled(self) -> bool {
        self is Created || self is Accumulated
    }
}

/// Whether a rollup can hold `sentiment`.
pub open spec fn fits_rollup(sentiment: int) -> bool {
    i64::MIN <= sentiment <= i64::MAX
}

/// Whether one day at least was reconciled.
pub open spec fn any_reconciled(outcomes: Seq<DayOutcome>) -> bool {
    exists|i: int| 0 <= i < outcomes.len() && (#[trigger] outcomes[i]).is_reconciled()
}

/// Whether, in a run of `batch` whose days ended as `outcomes` say, `day` was
/// reconciled.
pub open spec fn reconciled_day(batch: Seq<Event>, outcomes: Seq<DayOutcome>, day: i64) -> bool {
    exists|i: int|
        0 <= i < outcomes.len() && i < days_seen(batch).len() && #[trigger] days_seen(batch)[i]
            == day && outcomes[i].is_reconciled()
}

/// The identifiers, in order, of those of `events` that fall on a day that
/// was reconciled in a run of `batch` whose days ended as `outcomes` say.
pub open spec fn retiring(batch: Seq<Event>, outcomes: Seq<DayOutcome>, events: Seq<Event>) -> Seq<
    i32,
>
    decreases events.len(),
{
    if events.len() == 0 {
        Seq::empty()
    } else {
        let earlier = retiring(batch, outcomes, events.drop_last());
        if reconciled_day(batch, outcomes, event_day(events.last())) {
            earlier.push(events.last().id)
        } else {
            earlier
        }
    }
}

/// The state of a run.
pub struct State {
    /// The batch.
    pub events: Seq<Event>,
    /// How the days taken so far ended, in the order of `days_seen`.
    pub outcomes: Seq<DayOutcome>,
    pub phase: Phase,
    /// Set where the run was stopped early.
    pub stopped: Option<Failure>,
    pub retirement: Retirement,
}

impl State {
    /// The days of the batch, in the order in which they are taken.
    pub open spec fn days(self) -> Seq<i64> {
        days_seen(self.events)
    }

    /// The day that is being reconciled.
    pub open spec fn day(self) -> i64 {
        self.days()[self.outcomes.len() as int]
    }

    /// What the batch adds to the day that is being reconciled.
    pub open spec fn delta(self) -> int {
        day_sum(self.events, self.day())
    }

    /// Whether a day is being reconciled.
    pub open spec fn working(self) -> bool {
        self.phase is Reading || self.phase is Pricing || self.phase is Inserting
            || self.phase is Updating
    }

    /// Whether `day` was reconciled: its sum was written to the store.
    pub open spec fn reconciled(self, day: i64) -> bool {
        reconciled_day(self.events, self.outcomes, day)
    }

    /// The identifiers of the events to retire: those of the batch's events
    /// that fall on a reconciled day, and no others, in batch order.
    pub open spec fn retiring_ids(self) -> Seq<i32> {
        retiring(self.events, self.outcomes, self.events)
    }

    /// What holds of every state that a run reaches.
    pub open spec fn wf(self) -> bool {
        &&& self.events.len() <= usize::MAX
        &&& self.outcomes.len() <= self.days().len()
        &&& self.working() ==> self.outcomes.len() < self.days().len()
        &&& (self.phase is Pricing || self.phase is Inserting) ==> fits_rollup(self.delta())
        &&& self.phase is Retiring ==> any_reconciled(self.outcomes)
        &&& !(self.phase is Finished) ==> self.retirement is NotAttempted
        &&& self.retirement is Retired ==> any_reconciled(self.outcomes)
        &&& (self.phase is Finished && self.retirement is NotAttempted) ==> !any_reconciled(
            self.outcomes,
        )
        &&& (!self.working() && self.stopped is None) ==> self.outcomes.len()
            == self.days().len()
    }

    /// The state in which the run of `events` begins.
    pub open spec fn start(events: Seq<Event>) -> State {
        State {
            events,
            outcomes: Seq::empty(),
            phase: if days_seen(events).len() == 0 {
                Phase::Finished
            } else {
                Phase::Reading
            },
            stopped: None,
            retirement: Retirement::NotAttempted,
        }
    }

    /// The request that is due.
    pub open spec fn pending(self) -> Request {
        match self.phase {
            Phase::Reading => Request::FetchRollup { day: self.day() },
            Phase::Pricing => Request::LookupPrice { day: self.day() },
            Phase::Inserting { price } => Request::InsertRollup {
                day: self.day(),
                sentiment: self.delta() as i64,
                price,
            },
            Phase::Updating { sentiment } => Request::UpdateRollup {
                day: self.day(),
                sentiment,
            },
            Phase::Retiring => Request::DeleteEvents,
            Phase::Finished => Request::Finish,
        }
    }

    /// The state once no more days are taken: the events of the reconciled
    /// days are to be deleted, if there are any.
    pub open spec fn wrap_up(self) -> State {
        State {
            phase: if any_reconciled(self.outcomes) {
                Phase::Retiring
            } else {
                Phase::Finished
            },
            ..self
        }
    }

    /// The state once the current day has ended with `outcome`: the next day
    /// is read, or the run wraps up.
    pub open spec fn settle(self, outcome: DayOutcome) -> State {
        let next = State { outcomes: self.outcomes.push(outcome), phase: Phase::Reading, ..self };
        if next.outcomes.len() < self.days().len() {
            next
        } else {
            next.wrap_up()
        }
    }

    /// The state once the run is stopped at the request that is due.
    pub open spec fn stop(self, cause: Cause) -> State {
        State { stopped: Some(Failure { request: self.pending(), cause }), ..self }.wrap_up()
    }

    /// The state that follows when `reply` answers the request that is due.
    pub open spec fn advance(self, reply: Reply) -> State {
        match self.phase {
            Phase::Reading => match reply {
                Reply::RollupAbsent => if fits_rollup(self.delta()) {
                    State { phase: Phase::Pricing, ..self }
                } else {
                    self.settle(DayOutcome::OutOfRange)
                },
                Reply::RollupFound(rollup) => if rollup.date != self.day() {
                    self.stop(Cause::UnexpectedReply)
                } else if fits_rollup(rollup.sentiment + self.delta()) {
                    State {
                        phase: Phase::Updating {
                            sentiment: (rollup.sentiment + self.delta()) as i64,
                        },
                        ..self
                    }
                } else {
                    self.settle(DayOutcome::OutOfRange)
                },
                Reply::RollupConflict => self.stop(Cause::DuplicateRollups),
                Reply::Failed => self.stop(Cause::Unreachable),
                _ => self.stop(Cause::UnexpectedReply),
            },
            Phase::Pricing => match reply {
                Reply::Price(price) => State { phase: Phase::Inserting { price }, ..self },
                Reply::PriceUnavailable => self.settle(DayOutcome::PriceUnavailable),
                Reply::Failed => self.stop(Cause::Unreachable),
                _ => self.stop(Cause::UnexpectedReply),
            },
            Phase::Inserting { price } => match reply {
                Reply::Done => self.settle(
                    DayOutcome::Created { sentiment: self.delta() as i64, price },
                ),
                Reply::Failed => self.stop(Cause::Unreachable),
                _ => self.stop(Cause::UnexpectedReply),
            },
            Phase::Updating { sentiment } => match reply {
                Reply::Done => self.settle(DayOutcome::Accumulated { sentiment }),
                Reply::Failed => self.stop(Cause::Unreachable),
                _ => self.stop(Cause::UnexpectedReply),
            },
            Phase::Retiring => match reply {
                Reply::Done => State {
                    phase: Phase::Finished,
                    retirement: Retirement::Retired,
                    ..self
                },
                _ => State { phase: Phase::Finished, retirement: Retirement::Failed, ..self },
            },
            Phase::Finished => self,
        }
    }
}

impl State {
    /// A bound on the replies that a run still takes before it is over: three
    /// for each day that is not settled, less what the current day has had,
    /// and one for the deletion.
    pub open spec fn steps_left(self) -> nat {
        let days_left = self.days().len() - self.outcomes.len();
        match self.phase {
            Phase::Reading => (3 * days_left + 1) as nat,
            Phase::Pricing => (3 * days_left) as nat,
            Phase::Inserting { .. } => (3 * days_left - 1) as nat,
            Phase::Updating { .. } => (3 * days_left - 1) as nat,
            Phase::Retiring => 1,
            Phase::Finished => 0,
        }
    }
}

/// Every run ends: each reply brings a run that is not over closer to its
/// end, and a run of `n` days is over after `3 * n + 1` replies at most.
pub proof fn law_every_run_ends(state: State, reply: Reply)
    requires
        state.wf(),
        !(state.phase is Finished),
    ensures
        state.advance(reply).steps_left() < state.steps_left(),
        state.steps_left() <= 3 * state.days().len() + 1,
{
}

/// A run begins in a state that `wf` admits.
pub proof fn lemma_start_wf(events: Seq<Event>)
    requires
        events.len() <= usize::MAX,
    ensures
        State::start(events).wf(),
{
}

/// Every reply leads from a state that `wf` admits to another.
pub proof fn lemma_advance_wf(state: State, reply: Reply)
    requires
        state.wf(),
    ensures
        state.advance(reply).wf(),
{
    let next = state.advance(reply);
    if state.working() {
        if next.outcomes.len() == state.outcomes.len() + 1 {
            let last = next.outcomes.last();
            if last.is_reconciled() {
                assert(next.outcomes[next.outcomes.len() - 1].is_reconciled());
            }
            if any_reconciled(state.outcomes) {
                let i = choose|i: int|
                    0 <= i < state.outcomes.len() && (#[trigger] state.outcomes[i]).is_reconciled();
                assert(next.outcomes[i].is_reconciled());
            }
        }
    }
}

} // verus!
