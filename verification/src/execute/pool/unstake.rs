use vstd::prelude::*;

use crate::error::ContractError;
use crate::models::StakeAccount;
use crate::models::Timestamp;
use crate::models::UnbondingInfo;
use crate::scheduler::Pending;
use crate::scheduler::amortize_commit;
use crate::scheduler::lemma_leads_to_update;
use crate::state::State;
use crate::state::sync_account;
use crate::transition::then_amortize_paying;
use crate::transition::unstake_core;
use crate::utils::decrement;
use crate::utils::increment;
use crate::validity::lemma_active_account;
use crate::validity::lemma_sync_wf;
use crate::validity::lemma_unstake_core_wf;
use crate::view::lemma_lookup;

verus! {

/// Takes all that `sender` holds out of the pool and starts its unbonding
/// period at `now`. Returns the amount that is unbonding.
///
/// The account is brought up to date; its liquidity and its dividends
/// together are what it may withdraw later; they and its delegation leave
/// the pool's totals and the account; the coalescing tag moves on, and the
/// queue is turned.
pub fn unstake(state: &mut State, sender: &String, now: Timestamp) -> (r: Result<
    u128,
    ContractError,
>)
    requires
        old(state)@.wf(),
    ensures
        match then_amortize_paying(unstake_core(old(state)@, sender@, now)) {
            Err(e) => r == Err::<u128, ContractError>(e) && final(state)@ == old(state)@,
            Ok((s, amount)) => r == Ok::<u128, ContractError>(amount) && final(state)@ == s,
        },
        final(state)@.wf(),
{
    let seq_no = state.ledger_entry_seq_no();
    let ghost core = unstake_core(state@, sender@, now);
    proof {
        lemma_lookup(state@.accounts, sender@);
        if core is Ok {
            lemma_unstake_core_wf(state@, sender@, now);
        }
    }
    let i = match state.find_stake_account(sender) {
        Some(i) => i,
        None => { return Err(ContractError::StakeAccountNotFound); },
    };
    let account = state.stake_account_at(i);
    if account.unbonding.is_some() {
        return Err(ContractError::AlreadyUnbonding);
    }
    let synced = state.plan_sync(account, true)?;
    proof {
        lemma_sync_wf(state@, i as int, true);
        lemma_active_account(state@, i as int);
    }
    let total_amount = increment(synced.liquidity, synced.dividends)?;
    let pool_liquidity = decrement(state.pool().liquidity, synced.liquidity)?;
    let pool_dividends = decrement(state.pool().dividends, synced.dividends)?;
    let pool_delegation = state.pool().delegation - synced.delegation;
    let tag = increment(state.n_delegation_mutations(), 1)?;
    let unstaked = StakeAccount {
        is_suspended: synced.is_suspended,
        delegation: 0,
        dividends: 0,
        liquidity: 0,
        unbonding: Some(UnbondingInfo { amount: total_amount, time: now }),
        seq_no: synced.seq_no,
    };
    proof {
        lemma_leads_to_update(state@, core->Ok_0.0, i as int, unstaked);
    }
    let pending = Pending { touched: Some((sender, Some(unstaked))), pushed: false, seq_no };
    state.check_amortize(&pending, Ghost(core->Ok_0.0))?;

    let mut scratch = account;
    let released = sync_account(state, &mut scratch, true);
    assert(released is Ok);
    state.set_stake_account(i, unstaked);
    let taxes = state.pool().taxes;
    state.set_pool_totals(pool_delegation, pool_liquidity, pool_dividends, taxes);
    let n_unbonding = state.n_stake_accounts_unbonding();
    state.set_n_stake_accounts_unbonding(n_unbonding + 1);
    state.set_n_delegation_mutations(tag);
    assert(state@ == core->Ok_0.0);
    amortize_commit(state);
    Ok(total_amount)
}

} // verus!
