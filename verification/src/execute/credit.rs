//! The balances that addresses keep with the pool.
pub mod deposit;
pub mod withdraw;

pub use deposit::deposit;
pub use withdraw::withdraw;
