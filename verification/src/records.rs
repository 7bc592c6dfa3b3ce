//! The rows that the pipeline reads and writes.
//!
//! Sentiment is a fixed-point number: an `i64` that counts millionths, so
//! that sums are exact. A day is counted from 1970-01-01 in UTC.

use vstd::prelude::*;

verus! {

/// How many of the library's sentiment units make one whole unit.
pub const SENTIMENT_SCALE: i64 = 1_000_000;

/// A sentiment-scored occurrence, as an upstream producer stored it.
#[derive(Debug, Clone)]
pub struct Event {
    /// Assigned by the store; no two stored events share it.
    pub id: i32,
    /// Assigned by the producer.
    pub event_id: String,
    /// The score, in millionths.
    pub sentiment: i64,
    /// When the event was created: seconds since 1970-01-01T00:00:00Z.
    pub created_at: i64,
}

/// The stored aggregate of one calendar day.
#[derive(Debug, Clone, Copy, PartialEq, Eq)]
pub struct Rollup {
    /// Assigned by the store.
    pub id: i32,
    /// The day that the rollup is for; the store holds one rollup a day at most.
    pub date: i64,
    /// The day's closing price, set when the rollup is created.
    pub price: Option<i32>,
    /// The sum, in millionths, of every event folded into this day so far.
    pub sentiment: i64,
}

} // verus!
