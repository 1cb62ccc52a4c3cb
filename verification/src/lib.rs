//! A fee-charging escrow ledger.
//!
//! Accounts deposit currency for a named receiver. Every deposit pays the
//! current fee into a balance that only the owner can collect; the rest is
//! reserved for the receiver until the receiver withdraws it.

pub mod address;
pub mod amount;
pub mod cli;
pub mod error;
pub mod laws;
pub mod ledger;
pub mod model;
