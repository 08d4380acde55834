use vstd::prelude::*;

use crate::error::ContractError;
use crate::scheduler::amortize;
use crate::state::State;
use crate::table::Keyed;
use crate::table::position;
use crate::transition::amortize_spec;
use crate::validity::lemma_wf_frame;
use crate::view::StateView;

verus! {

/// A state with the balance at a position set.
pub open spec fn with_balance(s: StateView, i: int, balance: int) -> StateView {
    StateView {
        bank_accounts: s.bank_accounts.update(
            i,
            Keyed { address: s.bank_accounts[i].address, value: balance as u128 },
        ),
        ..s
    }
}

/// Depositing: the sender must keep a balance with the pool, which grows
/// by the amount; nothing is no deposit. The queue is turned.
pub open spec fn deposit_spec(s: StateView, sender: Seq<char>, amount: u128) -> Result<
    StateView,
    ContractError,
> {
    if amount == 0 {
        Err(ContractError::NotAuthorized)
    } else {
        match position(s.bank_accounts, sender) {
            None => Err(ContractError::NotAuthorized),
            Some(i) => if s.bank_accounts[i].value + amount > u128::MAX {
                Err(ContractError::Overflow)
            } else {
                match amortize_spec(s) {
                    Err(e) => Err(e),
                    Ok(s1) => Ok(with_balance(s1, i, s.bank_accounts[i].value + amount)),
                }
            },
        }
    }
}

/// Adds `amount` to the balance that `sender` keeps with the pool.
pub fn deposit(state: &mut State, sender: &String, amount: u128) -> (r: Result<(), ContractError>)
    requires
        old(state)@.wf(),
    ensures
        match deposit_spec(old(state)@, sender@, amount) {
            Err(e) => r == Err::<(), ContractError>(e) && final(state)@ == old(state)@,
            Ok(s) => r is Ok && final(state)@ == s,
        },
        final(state)@.wf(),
{
    if amount == 0 {
        // The amount is invalid.
        return Err(ContractError::NotAuthorized);
    }
    let i = match state.find_bank_account(sender) {
        Some(i) => i,
        None => { return Err(ContractError::NotAuthorized); },
    };
    let balance = match state.bank_balance_at(i).checked_add(amount) {
        Some(v) => v,
        None => { return Err(ContractError::Overflow); },
    };
    amortize(state)?;
    let ghost turned = state@;
    state.set_bank_balance(i, balance);
    proof {
        lemma_wf_frame(turned, state@);
    }
    Ok(())
}

} // verus!
