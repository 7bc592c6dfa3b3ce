//! The pipeline that a caller drives.
//!
//! A caller fetches the batch, starts a `Pipeline` on it, and then, until the
//! request that is due is `Request::Finish`, carries out that request and
//! hands its reply to `step`. Which request is due, and what a reply leads
//! to, is what the `machine` module says of the pipeline's view.

use std::collections::HashMap;
use vstd::prelude::*;
use crate::aggregate::{
    day_sum, day_sums, days_in_order, days_seen, get_rollups, lemma_day_sum_bounds,
    lemma_days_seen_distinct,
};
use crate::calendar::day_of_timestamp;
use crate::machine::{
    any_reconciled, lemma_advance_wf, lemma_start_wf, retiring, Cause, DayOutcome,
    Failure, Phase, Reply, Request, Retirement, State,
};
use crate::records::{Event, Rollup};

verus! {

broadcast use vstd::std_specs::hash::group_hash_axioms;

/// The run of one batch.
pub struct Pipeline {
    events: Vec<Event>,
    /// The sum of each day of the batch.
    rollups: HashMap<i64, i128>,
    /// The days of the batch, in the order in which they are taken.
    days: Vec<i64>,
    outcomes: Vec<DayOutcome>,
    phase: Phase,
    stopped: Option<Failure>,
    retirement: Retirement,
}

/// How one day of a run ended.
#[derive(Debug, Clone, Copy, PartialEq, Eq)]
pub struct DayReport {
    pub day: i64,
    pub outcome: DayOutcome,
}

/// What a run did.
#[derive(Debug)]
pub struct RunReport {
    /// The days that were taken, in order, each with its outcome.
    pub days: Vec<DayReport>,
    /// The request at which the run was stopped, if it was.
    pub stopped: Option<Failure>,
    /// What became of the events of the reconciled days.
    pub retirement: Retirement,
    /// The identifiers of the events that were deleted.
    pub retired: Vec<i32>,
}

impl RunReport {
    /// Whether this is the report of a run in `state`.
    pub open spec fn describes(&self, state: State) -> bool {
        &&& self.days@.len() == state.outcomes.len()
        &&& forall|i: int|
            0 <= i < state.outcomes.len() ==> #[trigger] self.days@[i] == (DayReport {
                day: state.days()[i],
                outcome: state.outcomes[i],
            })
        &&& self.stopped == state.stopped
        &&& self.retirement == state.retirement
        &&& self.retired@ == if state.retirement is Retired {
            state.retiring_ids()
        } else {
            Seq::empty()
        }
    }

    /// Whether the run did all of its work: it was not stopped, every day
    /// that it took was reconciled, and no deletion failed.
    pub open spec fn is_success(&self) -> bool {
        &&& self.stopped is None
        &&& !(self.retirement is Failed)
        &&& forall|i: int| 0 <= i < self.days@.len() ==> (#[trigger] self.days@[i]).outcome.is_reconciled()
    }

    /// Whether the run did all of its work.
    pub fn succeeded(&self) -> (yes: bool)
        ensures
            yes == self.is_success(),
    {
        if self.stopped.is_some() {
            return false;
        }
        match self.retirement {
            Retirement::Failed => {
                return false;
            },
            _ => {},
        }
        let mut at: usize = 0;
        while at < self.days.len()
            invariant
                at <= self.days.len(),
                forall|i: int| 0 <= i < at ==> (#[trigger] self.days@[i]).outcome.is_reconciled(),
            decreases self.days.len() - at,
        {
            if !written(self.days[at].outcome) {
                return false;
            }
            at = at + 1;
        }
        true
    }
}

impl View for Pipeline {
    type V = State;

    closed spec fn view(&self) -> State {
        State {
            events: self.events@,
            outcomes: self.outcomes@,
            phase: self.phase,
            stopped: self.stopped,
            retirement: self.retirement,
        }
    }
}

/// The reply that the rows found for a day make: none is an absent rollup,
/// one is the rollup, more are a conflict.
pub fn rollup_reply(rows: &Vec<Rollup>) -> (reply: Reply)
    ensures
        rows.len() == 0 ==> reply == Reply::RollupAbsent,
        rows.len() == 1 ==> reply == Reply::RollupFound(rows[0]),
        rows.len() > 1 ==> reply == Reply::RollupConflict,
{
    if rows.len() == 0 {
        Reply::RollupAbsent
    } else if rows.len() == 1 {
        Reply::RollupFound(rows[0])
    } else {
        Reply::RollupConflict
    }
}

/// Whether the day's sum was written to the store.
fn written(outcome: DayOutcome) -> (yes: bool)
    ensures
        yes == outcome.is_reconciled(),
{
    match outcome {
        DayOutcome::Created { .. } => true,
        DayOutcome::Accumulated { .. } => true,
        _ => false,
    }
}

/// Whether one day at least was reconciled.
fn any_written(outcomes: &Vec<DayOutcome>) -> (yes: bool)
    ensures
        yes == any_reconciled(outcomes@),
{
    let mut at: usize = 0;
    while at < outcomes.len()
        invariant
            at <= outcomes.len(),
            forall|i: int| 0 <= i < at ==> !(#[trigger] outcomes@[i]).is_reconciled(),
        decreases outcomes.len() - at,
    {
        if written(outcomes[at]) {
            return true;
        }
        at = at + 1;
    }
    false
}

impl Pipeline {
    #[verifier::type_invariant]
    spec fn inv(&self) -> bool {
        &&& self@.wf()
        &&& self.rollups@ == day_sums(self.events@)
        &&& self.days@ == days_seen(self.events@)
    }

    /// What the batch adds to `day`, a day of the batch.
    fn sum_of(&self, day: i64) -> (sum: i128)
        requires
            days_seen(self.events@).contains(day),
        ensures
            sum == day_sum(self.events@, day),
    {
        proof {
            use_type_invariant(self);
            lemma_day_sum_bounds(self.events@, day);
        }
        match self.rollups.get(&day) {
            Some(sum) => *sum,
            None => 0,
        }
    }

    /// Begins the run of a batch. An empty batch is over at once: no request
    /// is ever due.
    pub fn start(events: Vec<Event>) -> (pipeline: Pipeline)
        ensures
            pipeline@ == State::start(events@),
            pipeline@.wf(),
    {
        let rollups = get_rollups(&events);
        let days = days_in_order(&events);
        let phase = if days.len() == 0 {
            Phase::Finished
        } else {
            Phase::Reading
        };
        proof {
            assert(events@.len() == events.len());
            lemma_start_wf(events@);
        }
        Pipeline {
            events,
            rollups,
            days,
            outcomes: Vec::new(),
            phase,
            stopped: None,
            retirement: Retirement::NotAttempted,
        }
    }

    /// The request that is due.
    pub fn pending(&self) -> (request: Request)
        ensures
            request == self@.pending(),
    {
        proof {
            use_type_invariant(self);
        }
        match self.phase {
            Phase::Reading => Request::FetchRollup { day: self.days[self.outcomes.len()] },
            Phase::Pricing => Request::LookupPrice { day: self.days[self.outcomes.len()] },
            Phase::Inserting { price } => {
                let day = self.days[self.outcomes.len()];
                assert(days_seen(self.events@)[self.outcomes.len() as int] == day);
                Request::InsertRollup { day, sentiment: self.sum_of(day) as i64, price }
            },
            Phase::Updating { sentiment } => Request::UpdateRollup {
                day: self.days[self.outcomes.len()],
                sentiment,
            },
            Phase::Retiring => Request::DeleteEvents,
            Phase::Finished => Request::Finish,
        }
    }

    /// Whether the run is over.
    pub fn is_finished(&self) -> (yes: bool)
        ensures
            yes == (self@.phase is Finished),
    {
        match self.phase {
            Phase::Finished => true,
            _ => false,
        }
    }

    /// Whether `day` was reconciled.
    #[verifier::loop_isolation(false)]
    fn was_reconciled(&self, day: i64) -> (yes: bool)
        ensures
            yes == self@.reconciled(day),
    {
        proof {
            use_type_invariant(self);
            lemma_days_seen_distinct(self.events@);
        }
        let mut at: usize = 0;
        while at < self.outcomes.len()
            invariant
                at <= self.outcomes.len(),
                forall|i: int| 0 <= i < at ==> days_seen(self.events@)[i] != day,
            decreases self.outcomes.len() - at,
        {
            if self.days[at] == day {
                assert(days_seen(self.events@)[at as int] == day);
                return written(self.outcomes[at]);
            }
            at = at + 1;
        }
        false
    }

    /// The identifiers of the events to retire: those of the batch's events
    /// that fall on a reconciled day, and no others, in batch order. They are
    /// what a `Request::DeleteEvents` asks to delete.
    #[verifier::loop_isolation(false)]
    pub fn retiring_ids(&self) -> (ids: Vec<i32>)
        ensures
            ids@ == self@.retiring_ids(),
    {
        let mut ids: Vec<i32> = Vec::new();
        let mut at: usize = 0;
        while at < self.events.len()
            invariant
                at <= self.events.len(),
                ids@ == retiring(self.events@, self.outcomes@, self.events@.take(at as int)),
            decreases self.events.len() - at,
        {
            let day = day_of_timestamp(self.events[at].created_at);
            assert(self.events@.take(at + 1).drop_last() =~= self.events@.take(at as int));
            if self.was_reconciled(day) {
                ids.push(self.events[at].id);
            }
            at = at + 1;
        }
        assert(self.events@.take(at as int) =~= self.events@);
        ids
    }

    /// What the run has done so far; once the run is over, what it did.
    #[verifier::loop_isolation(false)]
    pub fn report(&self) -> (report: RunReport)
        ensures
            report.describes(self@),
    {
        proof {
            use_type_invariant(self);
        }
        let mut days: Vec<DayReport> = Vec::new();
        let mut at: usize = 0;
        while at < self.outcomes.len()
            invariant
                at <= self.outcomes.len(),
                days@.len() == at,
                forall|i: int|
                    0 <= i < at ==> #[trigger] days@[i] == (DayReport {
                        day: days_seen(self.events@)[i],
                        outcome: self.outcomes@[i],
                    }),
            decreases self.outcomes.len() - at,
        {
            days.push(DayReport { day: self.days[at], outcome: self.outcomes[at] });
            at = at + 1;
        }
        let retired = match self.retirement {
            Retirement::Retired => self.retiring_ids(),
            _ => Vec::new(),
        };
        RunReport { days, stopped: self.stopped, retirement: self.retirement, retired }
    }

    /// The same run in another phase.
    fn enter(self, phase: Phase) -> (next: Pipeline)
        requires
            (State { phase, ..self@ }).wf(),
        ensures
            next@ == (State { phase, ..self@ }),
    {
        proof {
            use_type_invariant(&self);
        }
        Pipeline {
            events: self.events,
            rollups: self.rollups,
            days: self.days,
            outcomes: self.outcomes,
            phase,
            stopped: self.stopped,
            retirement: self.retirement,
        }
    }

    /// The run once no more days are taken.
    fn wrap_up(self) -> (next: Pipeline)
        requires
            self@.wrap_up().wf(),
        ensures
            next@ == self@.wrap_up(),
    {
        let phase = if any_written(&self.outcomes) {
            Phase::Retiring
        } else {
            Phase::Finished
        };
        self.enter(phase)
    }

    /// The run once the current day has ended with `outcome`.
    fn settle(self, outcome: DayOutcome) -> (next: Pipeline)
        requires
            self@.working(),
            self@.settle(outcome).wf(),
        ensures
            next@ == self@.settle(outcome),
    {
        proof {
            use_type_invariant(&self);
        }
        let mut outcomes = self.outcomes;
        outcomes.push(outcome);
        let more = outcomes.len() < self.days.len();
        let phase = if more || any_written(&outcomes) {
            if more {
                Phase::Reading
            } else {
                Phase::Retiring
            }
        } else {
            Phase::Finished
        };
        Pipeline {
            events: self.events,
            rollups: self.rollups,
            days: self.days,
            outcomes,
            phase,
            stopped: self.stopped,
            retirement: self.retirement,
        }
    }

    /// The run once it is stopped at the request that is due.
    fn stop(self, cause: Cause) -> (next: Pipeline)
        requires
            self@.stop(cause).wf(),
        ensures
            next@ == self@.stop(cause),
    {
        proof {
            use_type_invariant(&self);
        }
        let request = self.pending();
        let phase = if any_written(&self.outcomes) {
            Phase::Retiring
        } else {
            Phase::Finished
        };
        Pipeline {
            events: self.events,
            rollups: self.rollups,
            days: self.days,
            outcomes: self.outcomes,
            phase,
            stopped: Some(Failure { request, cause }),
            retirement: self.retirement,
        }
    }

    /// The run once `retirement` is known.
    fn finish(self, retirement: Retirement) -> (next: Pipeline)
        requires
            (State { phase: Phase::Finished, retirement, ..self@ }).wf(),
        ensures
            next@ == (State { phase: Phase::Finished, retirement, ..self@ }),
    {
        proof {
            use_type_invariant(&self);
        }
        Pipeline {
            events: self.events,
            rollups: self.rollups,
            days: self.days,
            outcomes: self.outcomes,
            phase: Phase::Finished,
            stopped: self.stopped,
            retirement,
        }
    }

    /// Takes the reply to the request that is due.
    ///
    /// A reply that does not answer that request stops the run. Once the run
    /// is over a reply changes nothing.
    pub fn step(self, reply: Reply) -> (next: Pipeline)
        ensures
            next@ == self@.advance(reply),
            next@.wf(),
    {
        proof {
            use_type_invariant(&self);
            lemma_advance_wf(self@, reply);
        }
        match self.phase {
            Phase::Reading => {
                let day = self.days[self.outcomes.len()];
                assert(days_seen(self.events@)[self.outcomes.len() as int] == day);
                let sum = self.sum_of(day);
                proof {
                    lemma_day_sum_bounds(self.events@, day);
                }
                match reply {
                    Reply::RollupAbsent => {
                        if sum < i64::MIN as i128 || sum > i64::MAX as i128 {
                            self.settle(DayOutcome::OutOfRange)
                        } else {
                            self.enter(Phase::Pricing)
                        }
                    },
                    Reply::RollupFound(rollup) => {
                        if rollup.date != day {
                            self.stop(Cause::UnexpectedReply)
                        } else {
                            let merged: i128 = rollup.sentiment as i128 + sum;
                            if merged < i64::MIN as i128 || merged > i64::MAX as i128 {
                                self.settle(DayOutcome::OutOfRange)
                            } else {
                                self.enter(Phase::Updating { sentiment: merged as i64 })
                            }
                        }
                    },
                    Reply::RollupConflict => self.stop(Cause::DuplicateRollups),
                    Reply::Failed => self.stop(Cause::Unreachable),
                    _ => self.stop(Cause::UnexpectedReply),
                }
            },
            Phase::Pricing => match reply {
                Reply::Price(price) => self.enter(Phase::Inserting { price }),
                Reply::PriceUnavailable => self.settle(DayOutcome::PriceUnavailable),
                Reply::Failed => self.stop(Cause::Unreachable),
                _ => self.stop(Cause::UnexpectedReply),
            },
            Phase::Inserting { price } => match reply {
                Reply::Done => {
                    let day = self.days[self.outcomes.len()];
                    assert(days_seen(self.events@)[self.outcomes.len() as int] == day);
                    let sentiment = self.sum_of(day) as i64;
                    self.settle(DayOutcome::Created { sentiment, price })
                },
                Reply::Failed => self.stop(Cause::Unreachable),
                _ => self.stop(Cause::UnexpectedReply),
            },
            Phase::Updating { sentiment } => match reply {
                Reply::Done => self.settle(DayOutcome::Accumulated { sentiment }),
                Reply::Failed => self.stop(Cause::Unreachable),
                _ => self.stop(Cause::UnexpectedReply),
            },
            Phase::Retiring => match reply {
                Reply::Done => self.finish(Retirement::Retired),
                _ => self.finish(Retirement::Failed),
            },
            Phase::Finished => self,
        }
    }
}

} // verus!
