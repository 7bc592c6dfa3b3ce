//! Daily sentiment rollups.
//!
//! A batch of sentiment-scored events is grouped by UTC calendar day, each
//! day's total is merged into the stored rollup of that day (a new rollup is
//! enriched with the day's closing price), and the events of every day that
//! was merged are retired. The store and the price service are reached by the
//! caller: the library decides, one request at a time, what is asked of them
//! next.
//!
//! - `records`: events and rollups, with sentiment as a fixed-point integer.
//! - `calendar`: the day of a timestamp, and the date of a day as text.
//! - `aggregate`: the sum of each day of a batch.
//! - `machine`: the requests and replies of a run, and the state that each
//!   reply leads to.
//! - `pipeline`: the run itself, which a caller drives.
//! - `consistency`: what every run does to the store, proved of `machine`.
//! - `price`: the address asked for a closing price, and reading the answer.
//! - `statement`: the statement that deletes retired events.
//! - `decimal`: whole numbers in decimal digits.

pub mod aggregate;
pub mod calendar;
pub mod consistency;
pub mod decimal;
pub mod machine;
pub mod pipeline;
pub mod price;
pub mod records;
pub mod statement;
