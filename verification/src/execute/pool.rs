//! Staking, unstaking, claiming and withdrawing.
pub mod claim;
pub mod stake;
pub mod unstake;
pub mod withdraw;

pub use claim::claim;
pub use stake::stake;
pub use unstake::unstake;
pub use withdraw::withdraw;
