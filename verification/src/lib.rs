//! Payroll disbursements, paid through a payments platform.
//!
//! A batch of records is driven through five dependent calls per record: a
//! person and a corporation are created, then an account for each, then the
//! payment between the accounts. Every call draws from one call budget, and
//! every payment that succeeds is booked in three reports.
//!
//! - [`xml_parser`]: the records of a batch.
//! - [`amount`]: exact decimal amounts.
//! - [`signed`]: exact decimals that may be below zero.
//! - [`caller`]: the payloads, the mapping from a record to each of them, and
//!   the request that carries each.
//! - [`json`]: JSON documents, read and written by `serde_json`.
//! - [`gateway`]: what is sent for a payload, and what a reply means.
//! - [`limiter`]: the call budget.
//! - [`reports`]: the three reports.
//! - [`batch`]: the orchestrator, a state machine that its caller drives.
//!
//! The library sends nothing and reads no clock: its caller does both, and
//! hands in what came back and what time it is.

pub mod amount;
pub mod batch;
pub mod caller;
pub mod gateway;
pub mod json;
pub mod limiter;
pub mod reports;
pub mod signed;
pub mod xml_parser;

pub use crate::reports::Reports;
