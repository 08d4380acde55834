use vstd::prelude::*;

use crate::error::ContractError;
use crate::models::StakeAccount;
use crate::scheduler::Pending;
use crate::scheduler::amortize_commit;
use crate::scheduler::lemma_leads_to_push;
use crate::scheduler::lemma_leads_to_update;
use crate::state::State;
use crate::state::ensure_min_amount;
use crate::state::sync_account;
use crate::transition::stake_core;
use crate::transition::then_amortize;
use crate::utils::increment;
use crate::validity::lemma_stake_core_wf;
use crate::validity::lemma_sync_wf;
use crate::view::lemma_lookup;

verus! {

/// Stakes `amount` for `sender`.
///
/// Nothing can be staked into an account that is unbonding: what it took
/// out must be withdrawn first. An account that exists is brought up to
/// date; a new one starts at the end of the ledger and joins the queue of
/// the replay in passing. The amount is added to the delegation and the
/// liquidity of the account and of the pool, the coalescing tag moves on,
/// and the queue is turned.
pub fn stake(state: &mut State, sender: &String, amount: u128) -> (r: Result<(), ContractError>)
    requires
        old(state)@.wf(),
    ensures
        match then_amortize(stake_core(old(state)@, sender@, amount)) {
            Err(e) => r == Err::<(), ContractError>(e) && final(state)@ == old(state)@,
            Ok(s) => r is Ok && final(state)@ == s,
        },
        final(state)@.wf(),
{
    let seq_no = state.ledger_entry_seq_no();
    let ghost core = stake_core(state@, sender@, amount);
    proof {
        lemma_lookup(state@.accounts, sender@);
        if core is Ok {
            lemma_stake_core_wf(state@, sender@, amount);
        }
    }
    match state.find_stake_account(sender) {
        Some(i) => {
            let account = state.stake_account_at(i);
            // What is unbonding must be withdrawn before staking again.
            if account.unbonding.is_some() {
                return Err(ContractError::NotYetUnbonding);
            }
            ensure_min_amount(amount, 1)?;
            let synced = state.plan_sync(account, true)?;
            let pool_delegation = increment(state.pool().delegation, amount)?;
            let pool_liquidity = increment(state.pool().liquidity, amount)?;
            let tag = increment(state.n_delegation_mutations(), 1)?;
            let staked = StakeAccount {
                is_suspended: synced.is_suspended,
                delegation: increment(synced.delegation, amount)?,
                dividends: synced.dividends,
                liquidity: increment(synced.liquidity, amount)?,
                unbonding: synced.unbonding,
                seq_no: synced.seq_no,
            };
            proof {
                lemma_sync_wf(state@, i as int, true);
                lemma_leads_to_update(state@, core->Ok_0, i as int, staked);
            }
            let pending = Pending { touched: Some((sender, Some(staked))), pushed: false, seq_no };
            state.check_amortize(&pending, Ghost(core->Ok_0))?;

            let mut scratch = account;
            let released = sync_account(state, &mut scratch, true);
            assert(released is Ok);
            state.set_stake_account(i, staked);
            let dividends = state.pool().dividends;
            let taxes = state.pool().taxes;
            state.set_pool_totals(pool_delegation, pool_liquidity, dividends, taxes);
            state.set_n_delegation_mutations(tag);
            assert(state@ == core->Ok_0);
        },
        None => {
            ensure_min_amount(amount, 1)?;
            let pool_delegation = increment(state.pool().delegation, amount)?;
            let pool_liquidity = increment(state.pool().liquidity, amount)?;
            let tag = increment(state.n_delegation_mutations(), 1)?;
            let n_stake_accounts = state.n_stake_accounts();
            if n_stake_accounts == u32::MAX {
                return Err(ContractError::Overflow);
            }
            let staked = StakeAccount::new(amount, seq_no);
            proof {
                lemma_leads_to_push(state@, core->Ok_0, sender@, staked);
            }
            let pending = Pending { touched: Some((sender, Some(staked))), pushed: true, seq_no };
            state.check_amortize(&pending, Ghost(core->Ok_0))?;

            // A new account is counted and joins the queue.
            state.set_n_stake_accounts(n_stake_accounts + 1);
            state.queue_push_back(sender.clone());
            state.push_stake_account(sender.clone(), staked);
            let dividends = state.pool().dividends;
            let taxes = state.pool().taxes;
            state.set_pool_totals(pool_delegation, pool_liquidity, dividends, taxes);
            state.set_n_delegation_mutations(tag);
            assert(state@ == core->Ok_0);
        },
    }
    amortize_commit(state);
    Ok(())
}

} // verus!
