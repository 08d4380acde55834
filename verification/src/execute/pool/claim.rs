use vstd::prelude::*;

use crate::error::ContractError;
use crate::models::StakeAccount;
use crate::scheduler::Pending;
use crate::scheduler::amortize_commit;
use crate::scheduler::lemma_leads_to_update;
use crate::state::State;
use crate::state::sync_account;
use crate::transition::claim_core;
use crate::transition::then_amortize_paying;
use crate::utils::decrement;
use crate::utils::increment;
use crate::validity::lemma_claim_core_wf;
use crate::validity::lemma_sync_wf;
use crate::view::lemma_lookup;

verus! {

/// Pays the dividends of `sender` out. Returns the amount paid.
///
/// An account that is unbonding has nothing to claim: what it took out must
/// be withdrawn. The account is brought up to date; its dividends leave the
/// account and the pool's total; the coalescing tag moves on, and the queue
/// is turned.
pub fn claim(state: &mut State, sender: &String) -> (r: Result<u128, ContractError>)
    requires
        old(state)@.wf(),
    ensures
        match then_amortize_paying(claim_core(old(state)@, sender@)) {
            Err(e) => r == Err::<u128, ContractError>(e) && final(state)@ == old(state)@,
            Ok((s, amount)) => r == Ok::<u128, ContractError>(amount) && final(state)@ == s,
        },
        final(state)@.wf(),
{
    let seq_no = state.ledger_entry_seq_no();
    let ghost core = claim_core(state@, sender@);
    proof {
        lemma_lookup(state@.accounts, sender@);
        if core is Ok {
            lemma_claim_core_wf(state@, sender@);
        }
    }
    let i = match state.find_stake_account(sender) {
        Some(i) => i,
        None => { return Err(ContractError::StakeAccountNotFound); },
    };
    let account = state.stake_account_at(i);
    if account.unbonding.is_some() {
        return Err(ContractError::NotYetUnbonding);
    }
    let synced = state.plan_sync(account, true)?;
    proof {
        lemma_sync_wf(state@, i as int, true);
    }
    let claim_amount = synced.dividends;
    let pool_dividends = decrement(state.pool().dividends, claim_amount)?;
    let tag = increment(state.n_delegation_mutations(), 1)?;
    let claimed = StakeAccount {
        is_suspended: synced.is_suspended,
        delegation: synced.delegation,
        dividends: 0,
        liquidity: synced.liquidity,
        unbonding: synced.unbonding,
        seq_no: synced.seq_no,
    };
    proof {
        lemma_leads_to_update(state@, core->Ok_0.0, i as int, claimed);
    }
    let pending = Pending { touched: Some((sender, Some(claimed))), pushed: false, seq_no };
    state.check_amortize(&pending, Ghost(core->Ok_0.0))?;

    let mut scratch = account;
    let released = sync_account(state, &mut scratch, true);
    assert(released is Ok);
    state.set_stake_account(i, claimed);
    let delegation = state.pool().delegation;
    let liquidity = state.pool().liquidity;
    let taxes = state.pool().taxes;
    state.set_pool_totals(delegation, liquidity, pool_dividends, taxes);
    state.set_n_delegation_mutations(tag);
    assert(state@ == core->Ok_0.0);
    amortize_commit(state);
    Ok(claim_amount)
}

} // verus!
