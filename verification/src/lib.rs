//! Orchestration of a daily report download: which calendar days to fetch,
//! which address each day's report has, when the run stops, and what the
//! observer is told while a transfer is under way.
//!
//! The library decides and formats; it performs no transfer, reads no clock
//! and prints nothing. A driver pulls one [`orchestrator::Step`] after the
//! other from the [`orchestrator::Orchestrator`], performs the fetch that a
//! step names, hands the callbacks of the transfer to the job's
//! [`reporter::SimpleReporter`], and prints the lines the library gives back.
//!
//! - [`date`]: calendar days and the bounded generator of consecutive days.
//! - [`orchestrator`]: the pass over the days, the address of a report, and
//!   the lines that tell of outcomes.
//! - [`reporter`]: the rate-limited progress reporter.
//! - [`text`]: decimal numerals.

pub mod date;
pub mod orchestrator;
pub mod reporter;
pub mod text;
