//! The reasons for which an operation is refused.
use vstd::prelude::*;

verus! {

/// Why an operation was rejected. A rejected operation leaves the state as it
/// found it.
#[derive(Debug, Clone, Copy, PartialEq, Eq, Structural)]
pub enum ContractError {
    /// The sender may not perform the action, or the target is missing.
    NotAuthorized,
    /// A rate of the configuration is above the whole.
    ValidationError,
    /// The client was suspended by its owner or by the rate limiter.
    ClientSuspended,
    /// No client is connected under the address.
    ClientNotFound,
    /// No stake account exists under the address.
    StakeAccountNotFound,
    /// The address keeps no balance with the pool.
    BankAccountNotFound,
    /// The funds sent along do not cover the declared amount.
    InsufficientFunds,
    /// The amount is zero or below the minimum.
    InsufficientAmount,
    /// Unstake was asked of an account that is unbonding already.
    AlreadyUnbonding,
    /// Stake or claim was asked of an account that is unbonding.
    NotYetUnbonding,
    /// Withdraw was asked before the unbonding period has passed.
    StillUnbonding,
    /// Withdraw was asked of an account that has not unstaked.
    NotUnstaked,
    /// The payment is larger than what is left of the client's budget.
    BudgetExceeded,
    /// The address has used up its share of the pool for this window, or acts
    /// twice in one block.
    RateLimited,
    /// The ledger and the accounts contradict each other: an entry that is
    /// still owed is missing or has a zero snapshot, or a balance would fall
    /// below zero.
    InvariantViolation,
    /// A sum or a product does not fit its integer type.
    Overflow,
}

impl ContractError {
    /// The name of the reason, as it is shown to whoever was refused.
    pub fn message(&self) -> (r: String)
        ensures
            r@ == match *self {
                ContractError::NotAuthorized => "NotAuthorized"@,
                ContractError::ValidationError => "ValidationError"@,
                ContractError::ClientSuspended => "ClientSuspended"@,
                ContractError::ClientNotFound => "ClientNotFound"@,
                ContractError::StakeAccountNotFound => "StakeAccountNotFound"@,
                ContractError::BankAccountNotFound => "BankAccountNotFound"@,
                ContractError::InsufficientFunds => "InsufficientFunds"@,
                ContractError::InsufficientAmount => "InsufficientAmount"@,
                ContractError::AlreadyUnbonding => "AlreadyUnbonding"@,
                ContractError::NotYetUnbonding => "NotYetUnbonding"@,
                ContractError::StillUnbonding => "StillUnbonding"@,
                ContractError::NotUnstaked => "NotUnstaked"@,
                ContractError::BudgetExceeded => "BudgetExceeded"@,
                ContractError::RateLimited => "RateLimited"@,
                ContractError::InvariantViolation => "InvariantViolation"@,
                ContractError::Overflow => "Overflow"@,
            },
    {
        let name = match self {
            ContractError::NotAuthorized => "NotAuthorized",
            ContractError::ValidationError => "ValidationError",
            ContractError::ClientSuspended => "ClientSuspended",
            ContractError::ClientNotFound => "ClientNotFound",
            ContractError::StakeAccountNotFound => "StakeAccountNotFound",
            ContractError::BankAccountNotFound => "BankAccountNotFound",
            ContractError::InsufficientFunds => "InsufficientFunds",
            ContractError::InsufficientAmount => "InsufficientAmount",
            ContractError::AlreadyUnbonding => "AlreadyUnbonding",
            ContractError::NotYetUnbonding => "NotYetUnbonding",
            ContractError::StillUnbonding => "StillUnbonding",
            ContractError::NotUnstaked => "NotUnstaked",
            ContractError::BudgetExceeded => "BudgetExceeded",
            ContractError::RateLimited => "RateLimited",
            ContractError::InvariantViolation => "InvariantViolation",
            ContractError::Overflow => "Overflow",
        };
        name.to_owned()
    }
}

pub type ContractResult<T> = Result<T, ContractError>;

} // verus!
