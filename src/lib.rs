//! A ledger of client accounts driven by an ordered stream of deposit,
//! withdrawal, dispute, resolve and chargeback events.
//!
//! `ledger` states the rules over account states, each handler of
//! `Transaction` is proved to follow them, and `laws` proves what holds of
//! every account store that events can reach.

pub mod amount;
pub mod client;
pub mod laws;
pub mod ledger;
pub mod transaction;

pub use amount::Amount;
pub use client::Client;
pub use transaction::{Transaction, TxType};
