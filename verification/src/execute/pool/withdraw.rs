use vstd::prelude::*;

use crate::error::ContractError;
use crate::models::Timestamp;
use crate::models::UnbondingInfo;
use crate::scheduler::Pending;
use crate::scheduler::amortize_commit;
use crate::scheduler::lemma_leads_to_remove;
use crate::state::State;
use crate::transition::has_unbonded;
use crate::transition::then_amortize_paying;
use crate::transition::withdraw_core;
use crate::validity::lemma_close_wf;
use crate::validity::lemma_withdraw_core_wf;
use crate::view::lemma_lookup;

verus! {

/// Tells whether an unbonding period has passed at `now`.
pub fn unbonding_is_over(unbonding: &UnbondingInfo, period: u64, now: Timestamp) -> (r: bool)
    ensures
        r == has_unbonded(*unbonding, period, now),
{
    now.seconds() as u128 > unbonding.time.seconds() as u128 + period as u128
}

/// Pays out what `sender` took out of the pool when it unstaked and closes
/// its account. Returns the amount paid.
///
/// An account that has not unstaked has nothing to withdraw, and one that
/// has must wait until its unbonding period has passed. The queue is
/// turned.
pub fn withdraw(state: &mut State, sender: &String, now: Timestamp) -> (r: Result<
    u128,
    ContractError,
>)
    requires
        old(state)@.wf(),
    ensures
        match then_amortize_paying(withdraw_core(old(state)@, sender@, now)) {
            Err(e) => r == Err::<u128, ContractError>(e) && final(state)@ == old(state)@,
            Ok((s, amount)) => r == Ok::<u128, ContractError>(amount) && final(state)@ == s,
        },
        final(state)@.wf(),
{
    let seq_no = state.ledger_entry_seq_no();
    let ghost core = withdraw_core(state@, sender@, now);
    proof {
        lemma_lookup(state@.accounts, sender@);
        if core is Ok {
            lemma_withdraw_core_wf(state@, sender@, now);
        }
    }
    let i = match state.find_stake_account(sender) {
        Some(i) => i,
        None => { return Err(ContractError::StakeAccountNotFound); },
    };
    let unbonding = match state.stake_account_at(i).unbonding {
        Some(unbonding) => unbonding,
        None => { return Err(ContractError::NotUnstaked); },
    };
    if !unbonding_is_over(&unbonding, state.config().unbonding_seconds, now) {
        return Err(ContractError::StillUnbonding);
    }
    proof {
        lemma_close_wf(state@, i as int);
        lemma_leads_to_remove(state@, core->Ok_0.0, i as int);
    }
    let pending = Pending { touched: Some((sender, None)), pushed: false, seq_no };
    state.check_amortize(&pending, Ghost(core->Ok_0.0))?;

    state.remove_stake_account(i);
    let n_stake_accounts = state.n_stake_accounts();
    state.set_n_stake_accounts(n_stake_accounts - 1);
    let n_unbonding = state.n_stake_accounts_unbonding();
    state.set_n_stake_accounts_unbonding(n_unbonding - 1);
    assert(state@ == core->Ok_0.0);
    amortize_commit(state);
    Ok(unbonding.amount)
}

} // verus!
