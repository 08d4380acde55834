//! A shared liquidity pool with a lazily replayed, reference-counted ledger.
//!
//! Stakers add and remove capital while revenue and payments change the value
//! of the pool. Every change is written once to the ledger, and each staker
//! replays the entries it has not seen yet when it next acts, or in passing
//! when its turn in the queue comes: no operation has to touch the balance of
//! every staker.
//!
//! The operations are in `execute`, what they promise in `transition`, and
//! what holds of all of them in `laws`.
pub mod coalescing;
pub mod conservation;
pub mod error;
pub mod execute;
pub mod funds;
pub mod laws;
pub mod ledger;
pub mod limiter;
pub mod migrations;
pub mod models;
pub mod msg;
pub mod order;

pub mod progress;
pub mod query;
pub mod scheduler;
pub mod settling;
pub mod solvency;
pub mod state;
pub mod table;
pub mod transition;
pub mod utils;
pub mod validation;
pub mod validity;
pub mod view;
