//! What each operation on stake and money makes of a state.
use vstd::prelude::*;

use crate::error::ContractError;
use crate::ledger::release;
use crate::ledger::replay;
use crate::ledger::sync_target;
use crate::ledger::zombies;
use crate::models::LedgerEntry;
use crate::models::Pool;
use crate::models::StakeAccount;
use crate::models::Timestamp;
use crate::models::UnbondingInfo;
use crate::utils::spec_mul_pct;
use crate::view::Staker;
use crate::view::StateView;
use crate::view::lookup;

verus! {

/// What bringing an account up to date does: the account replays the
/// entries it has not seen, and the ledger forgets one reference to each of
/// them. With an empty ledger there is nothing to do.
pub open spec fn sync_account_spec(s: StateView, account: StakeAccount, is_final: bool) -> Result<
    (StateView, StakeAccount),
    ContractError,
> {
    let upto = sync_target(s.ledger_entry_seq_no, is_final);
    if s.n_ledger_entries == 0 {
        Ok((s, account))
    } else {
        match replay(s.ledger, account, upto) {
            Err(e) => Err(e),
            Ok(a) => Ok(
                (
                    StateView {
                        ledger: release(s.ledger, account.seq_no, upto),
                        n_ledger_entries: (s.n_ledger_entries - zombies(
                            s.ledger,
                            account.seq_no,
                            upto,
                        ).len()) as u32,
                        ..s
                    },
                    a,
                ),
            ),
        }
    }
}

/// The entry that a change of the pool's value is written to, and the state
/// after it was written.
///
/// While no stake has changed since the latest entry was made, the change is
/// added to that entry. Otherwise a new entry is made, with the pool's
/// current totals as its snapshot and one reference for each account that is
/// not unbonding.
pub open spec fn upsert_spec(
    s: StateView,
    delta_revenue: u128,
    delta_dividends: u128,
    delta_loss: u128,
) -> Result<(StateView, LedgerEntry), ContractError> {
    let seq_no = s.ledger_entry_seq_no;
    if s.latest_is_open() {
        let latest = s.ledger[(seq_no - 1) as u128];
        if latest.delta_revenue + delta_revenue > u128::MAX || latest.delta_dividends
            + delta_dividends > u128::MAX || latest.delta_loss + delta_loss > u128::MAX {
            Err(ContractError::Overflow)
        } else {
            let entry = LedgerEntry {
                delta_revenue: (latest.delta_revenue + delta_revenue) as u128,
                delta_dividends: (latest.delta_dividends + delta_dividends) as u128,
                delta_loss: (latest.delta_loss + delta_loss) as u128,
                ..latest
            };
            Ok((StateView { ledger: s.ledger.insert((seq_no - 1) as u128, entry), ..s }, entry))
        }
    } else if seq_no == u128::MAX || s.n_ledger_entries == u32::MAX {
        Err(ContractError::Overflow)
    } else {
        let entry = LedgerEntry {
            liquidity: s.pool.liquidity,
            delegation: s.pool.delegation,
            delta_revenue,
            delta_dividends,
            delta_loss,
            ref_count: (s.n_stake_accounts - s.n_stake_accounts_unbonding) as u32,
            tag: s.n_delegation_mutations,
        };
        Ok(
            (
                StateView {
                    ledger: s.ledger.insert(seq_no, entry),
                    ledger_entry_seq_no: (seq_no + 1) as u128,
                    n_ledger_entries: (s.n_ledger_entries + 1) as u32,
                    ..s
                },
                entry,
            ),
        )
    }
}

/// One turn of the queue: the address at the front leaves it; if its account
/// exists and is not unbonding, the address joins the back again, and if the
/// account is behind the ledger it is brought up to date, short of the
/// latest entry. The flag tells whether an account was brought up to date.
pub open spec fn amortize_step(s: StateView) -> Result<(StateView, bool), ContractError> {
    if s.memoization_queue.len() == 0 {
        Ok((s, false))
    } else {
        let address = s.memoization_queue[0];
        let rest = s.memoization_queue.drop_first();
        match lookup(s.accounts, address) {
            None => Ok((StateView { memoization_queue: rest, ..s }, false)),
            Some(i) => {
                let account = s.accounts[i].account;
                if !account.is_active() {
                    Ok((StateView { memoization_queue: rest, ..s }, false))
                } else {
                    let turned = StateView { memoization_queue: rest.push(address), ..s };
                    if account.seq_no < s.ledger_entry_seq_no {
                        match sync_account_spec(turned, account, false) {
                            Err(e) => Err(e),
                            Ok((s1, a1)) => Ok(
                                (
                                    StateView {
                                        accounts: s1.accounts.update(
                                            i,
                                            Staker { address, account: a1 },
                                        ),
                                        ..s1
                                    },
                                    true,
                                ),
                            ),
                        }
                    } else {
                        Ok((turned, false))
                    }
                }
            },
        }
    }
}

/// The account under an address, if there is one.
pub open spec fn account_of(accounts: Seq<Staker>, address: Seq<char>) -> Option<StakeAccount> {
    match lookup(accounts, address) {
        Some(i) => Some(accounts[i].account),
        None => None,
    }
}

/// How a turn of the queue ends for the address at its front: whether the
/// address joins the back again and whether its account is brought up to
/// date, or why it cannot be.
pub open spec fn turn_outcome(s: StateView, address: Seq<char>) -> Result<
    (bool, bool),
    ContractError,
> {
    match account_of(s.accounts, address) {
        None => Ok((false, false)),
        Some(account) => if !account.is_active() {
            Ok((false, false))
        } else if account.seq_no < s.ledger_entry_seq_no {
            match sync_account_spec(s, account, false) {
                Err(e) => Err(e),
                Ok(_) => Ok((true, true)),
            }
        } else {
            Ok((true, false))
        },
    }
}

/// The replay in passing that ends every operation: up to two turns of the
/// queue, of which the first that brings an account up to date is the last.
pub open spec fn amortize_spec(s: StateView) -> Result<StateView, ContractError> {
    match amortize_step(s) {
        Err(e) => Err(e),
        Ok((s1, done)) => if done {
            Ok(s1)
        } else {
            match amortize_step(s1) {
                Err(e) => Err(e),
                Ok((s2, _)) => Ok(s2),
            }
        },
    }
}

/// A state with the pool's totals set.
pub open spec fn with_totals(
    s: StateView,
    delegation: int,
    liquidity: int,
    dividends: int,
    taxes: int,
) -> StateView {
    StateView {
        pool: Pool {
            delegation: delegation as u128,
            liquidity: liquidity as u128,
            dividends: dividends as u128,
            taxes: taxes as u128,
            ..s.pool
        },
        ..s
    }
}

/// The account that a stake of `amount` brings the account `synced` to.
pub open spec fn staked(synced: StakeAccount, amount: u128) -> StakeAccount {
    StakeAccount {
        delegation: (synced.delegation + amount) as u128,
        liquidity: (synced.liquidity + amount) as u128,
        ..synced
    }
}

/// Staking, before the replay in passing.
///
/// Nothing can be staked into an account that is unbonding, and nothing is
/// no stake. An account that exists is brought up to date first; a new one
/// starts at the end of the ledger and joins the queue. The amount is added
/// to the account's and to the pool's delegation and liquidity, and the
/// coalescing tag moves on.
pub open spec fn stake_core(s: StateView, address: Seq<char>, amount: u128) -> Result<
    StateView,
    ContractError,
> {
    let grown = with_totals(
        s,
        s.pool.delegation + amount,
        s.pool.liquidity + amount,
        s.pool.dividends as int,
        s.pool.taxes as int,
    ).pool;
    let pool_overflows = s.pool.delegation + amount > u128::MAX || s.pool.liquidity + amount
        > u128::MAX || s.n_delegation_mutations == u128::MAX;
    match lookup(s.accounts, address) {
        Some(i) => {
            let account = s.accounts[i].account;
            if !account.is_active() {
                Err(ContractError::NotYetUnbonding)
            } else if amount == 0 {
                Err(ContractError::InsufficientAmount)
            } else {
                match sync_account_spec(s, account, true) {
                    Err(e) => Err(e),
                    Ok((s1, a1)) => if pool_overflows || a1.delegation + amount > u128::MAX
                        || a1.liquidity + amount > u128::MAX {
                        Err(ContractError::Overflow)
                    } else {
                        Ok(
                            StateView {
                                accounts: s1.accounts.update(
                                    i,
                                    Staker { address, account: staked(a1, amount) },
                                ),
                                pool: grown,
                                n_delegation_mutations: (s.n_delegation_mutations + 1) as u128,
                                ..s1
                            },
                        )
                    },
                }
            }
        },
        None => if amount == 0 {
            Err(ContractError::InsufficientAmount)
        } else if pool_overflows || s.n_stake_accounts == u32::MAX {
            Err(ContractError::Overflow)
        } else {
            Ok(
                StateView {
                    accounts: s.accounts.push(
                        Staker {
                            address,
                            account: StakeAccount {
                                is_suspended: Some(false),
                                delegation: amount,
                                dividends: 0,
                                liquidity: amount,
                                unbonding: None,
                                seq_no: s.ledger_entry_seq_no,
                            },
                        },
                    ),
                    memoization_queue: s.memoization_queue.push(address),
                    n_stake_accounts: (s.n_stake_accounts + 1) as u32,
                    pool: grown,
                    n_delegation_mutations: (s.n_delegation_mutations + 1) as u128,
                    ..s
                },
            )
        },
    }
}

/// Unstaking, before the replay in passing, and the amount that starts
/// unbonding.
///
/// The account is brought up to date; its liquidity and dividends together
/// start unbonding at `now`; they and its delegation leave the pool's
/// totals and the account; and the coalescing tag moves on.
pub open spec fn unstake_core(s: StateView, address: Seq<char>, now: Timestamp) -> Result<
    (StateView, u128),
    ContractError,
> {
    match lookup(s.accounts, address) {
        None => Err(ContractError::StakeAccountNotFound),
        Some(i) => {
            let account = s.accounts[i].account;
            if !account.is_active() {
                Err(ContractError::AlreadyUnbonding)
            } else {
                match sync_account_spec(s, account, true) {
                    Err(e) => Err(e),
                    Ok((s1, a1)) => if a1.liquidity + a1.dividends > u128::MAX {
                        Err(ContractError::Overflow)
                    } else if a1.liquidity > s.pool.liquidity || a1.dividends > s.pool.dividends {
                        Err(ContractError::InvariantViolation)
                    } else if s.n_delegation_mutations == u128::MAX {
                        Err(ContractError::Overflow)
                    } else {
                        let amount = (a1.liquidity + a1.dividends) as u128;
                        Ok(
                            (
                                StateView {
                                    accounts: s1.accounts.update(
                                        i,
                                        Staker {
                                            address,
                                            account: StakeAccount {
                                                delegation: 0,
                                                liquidity: 0,
                                                dividends: 0,
                                                unbonding: Some(
                                                    UnbondingInfo { amount, time: now },
                                                ),
                                                ..a1
                                            },
                                        },
                                    ),
                                    n_stake_accounts_unbonding: (s.n_stake_accounts_unbonding
                                        + 1) as u32,
                                    n_delegation_mutations: (s.n_delegation_mutations + 1) as u128,
                                    ..with_totals(
                                        s1,
                                        s.pool.delegation - a1.delegation,
                                        s.pool.liquidity - a1.liquidity,
                                        s.pool.dividends - a1.dividends,
                                        s.pool.taxes as int,
                                    )
                                },
                                amount,
                            ),
                        )
                    },
                }
            }
        },
    }
}

/// Claiming, before the replay in passing, and the dividends paid out.
///
/// The account is brought up to date; its dividends leave the account and
/// the pool's total; and the coalescing tag moves on.
pub open spec fn claim_core(s: StateView, address: Seq<char>) -> Result<
    (StateView, u128),
    ContractError,
> {
    match lookup(s.accounts, address) {
        None => Err(ContractError::StakeAccountNotFound),
        Some(i) => {
            let account = s.accounts[i].account;
            if !account.is_active() {
                Err(ContractError::NotYetUnbonding)
            } else {
                match sync_account_spec(s, account, true) {
                    Err(e) => Err(e),
                    Ok((s1, a1)) => if a1.dividends > s.pool.dividends {
                        Err(ContractError::InvariantViolation)
                    } else if s.n_delegation_mutations == u128::MAX {
                        Err(ContractError::Overflow)
                    } else {
                        Ok(
                            (
                                StateView {
                                    accounts: s1.accounts.update(
                                        i,
                                        Staker {
                                            address,
                                            account: StakeAccount { dividends: 0, ..a1 },
                                        },
                                    ),
                                    n_delegation_mutations: (s.n_delegation_mutations + 1) as u128,
                                    ..with_totals(
                                        s1,
                                        s.pool.delegation as int,
                                        s.pool.liquidity as int,
                                        s.pool.dividends - a1.dividends,
                                        s.pool.taxes as int,
                                    )
                                },
                                a1.dividends,
                            ),
                        )
                    },
                }
            }
        },
    }
}

/// The unbonding period of an account has passed at `now`: more whole
/// seconds lie between the two than the period has.
pub open spec fn has_unbonded(unbonding: UnbondingInfo, period: u64, now: Timestamp) -> bool {
    now.spec_seconds() > unbonding.time.spec_seconds() + period
}

/// Withdrawing, before the replay in passing, and the amount paid out.
///
/// Once the unbonding period has passed, the account is closed and what it
/// took out of the pool when it unstaked is paid.
pub open spec fn withdraw_core(s: StateView, address: Seq<char>, now: Timestamp) -> Result<
    (StateView, u128),
    ContractError,
> {
    match lookup(s.accounts, address) {
        None => Err(ContractError::StakeAccountNotFound),
        Some(i) => match s.accounts[i].account.unbonding {
            None => Err(ContractError::NotUnstaked),
            Some(unbonding) => if !has_unbonded(unbonding, s.config.unbonding_seconds, now) {
                Err(ContractError::StillUnbonding)
            } else {
                Ok(
                    (
                        StateView {
                            accounts: s.accounts.remove(i),
                            n_stake_accounts: (s.n_stake_accounts - 1) as u32,
                            n_stake_accounts_unbonding: (s.n_stake_accounts_unbonding - 1) as u32,
                            ..s
                        },
                        unbonding.amount,
                    ),
                )
            },
        },
    }
}

/// How a revenue is split: the tax, what is added to liquidity, and what is
/// paid out as dividends.
pub open spec fn revenue_split(s: StateView, revenue: u128) -> (int, int, int) {
    let tax = spec_mul_pct(revenue, s.config.tax_rate);
    let after_tax = (revenue - tax) as u128;
    let restaked = spec_mul_pct(after_tax, s.config.restake_rate);
    (tax, restaked, after_tax - restaked)
}

/// Taking in revenue, before the replay in passing.
///
/// The tax is set aside; of the rest, the restaked part raises the pool's
/// liquidity and the other part its dividends, and the two are written to
/// the ledger for the accounts to share.
pub open spec fn receive_core(s: StateView, revenue: u128) -> Result<StateView, ContractError> {
    let (tax, restaked, dividends) = revenue_split(s, revenue);
    if revenue == 0 {
        Err(ContractError::InsufficientAmount)
    } else {
        match upsert_spec(s, restaked as u128, dividends as u128, 0) {
            Err(e) => Err(e),
            Ok((s1, _)) => if s.pool.liquidity + restaked > u128::MAX || s.pool.dividends
                + dividends > u128::MAX || s.pool.taxes + tax > u128::MAX {
                Err(ContractError::Overflow)
            } else {
                Ok(
                    with_totals(
                        s1,
                        s.pool.delegation as int,
                        s.pool.liquidity + restaked,
                        s.pool.dividends + dividends,
                        s.pool.taxes + tax,
                    ),
                )
            },
        }
    }
}

/// Paying out of the pool, before the replay in passing.
///
/// The payment is written to the ledger as a loss for the accounts to share
/// and leaves the pool's liquidity, which it may not exceed.
pub open spec fn send_core(s: StateView, payment: u128) -> Result<StateView, ContractError> {
    if payment == 0 {
        Err(ContractError::InsufficientAmount)
    } else {
        match upsert_spec(s, 0, 0, payment) {
            Err(e) => Err(e),
            Ok((s1, _)) => if payment > s.pool.liquidity {
                Err(ContractError::InvariantViolation)
            } else {
                Ok(
                    with_totals(
                        s1,
                        s.pool.delegation as int,
                        s.pool.liquidity - payment,
                        s.pool.dividends as int,
                        s.pool.taxes as int,
                    ),
                )
            },
        }
    }
}

/// An operation ends with the replay in passing, whose failure is the
/// operation's failure.
pub open spec fn then_amortize(core: Result<StateView, ContractError>) -> Result<
    StateView,
    ContractError,
> {
    match core {
        Err(e) => Err(e),
        Ok(s) => amortize_spec(s),
    }
}

/// As `then_amortize`, for an operation that pays an amount out.
pub open spec fn then_amortize_paying(core: Result<(StateView, u128), ContractError>) -> Result<
    (StateView, u128),
    ContractError,
> {
    match core {
        Err(e) => Err(e),
        Ok((s, amount)) => match amortize_spec(s) {
            Err(e) => Err(e),
            Ok(s1) => Ok((s1, amount)),
        },
    }
}

} // verus!
