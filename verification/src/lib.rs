//! A ledger engine for client accounts.
//!
//! Records (deposits, withdrawals, disputes, resolves, chargebacks) are read
//! from text, routed to one worker per client, and applied to that client's
//! account; the workers' final accounts make the report.
//!
//! - [`input`]: the input, a header line and then one record per line;
//! - [`transaction`]: the records, how a line writes one, and the router
//!   that hands each record to its client's worker;
//! - [`account`]: the accounts, and the worker that applies a client's
//!   records to its account, with what holds of every worker;
//! - [`report`]: the report, one line per account;
//! - [`amount`] and [`text`]: amounts and whole numbers as text.
//!
//! Amounts are exact. Every amount is a whole number of ten-thousandths of a
//! unit, held in a `u64`: `2.5` is 25,000 ten-thousandths. No balance is ever
//! negative, and the total of an account never exceeds what a `u64` holds.

pub mod account;
pub mod amount;
pub mod input;
pub mod report;
pub mod text;
pub mod transaction;
