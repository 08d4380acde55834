use vstd::prelude::*;

use crate::error::ContractError;
use crate::execute::credit::deposit::with_balance;
use crate::scheduler::amortize;
use crate::state::State;
use crate::table::position;
use crate::transition::amortize_spec;
use crate::validity::lemma_wf_frame;
use crate::view::StateView;

verus! {

/// Withdrawing from a balance: the sender must keep a balance with the
/// pool that covers the amount, which is the whole balance where none is
/// named. The queue is turned.
pub open spec fn withdraw_spec(s: StateView, sender: Seq<char>, amount: Option<u128>) -> Result<
    StateView,
    ContractError,
> {
    match position(s.bank_accounts, sender) {
        None => Err(ContractError::NotAuthorized),
        Some(i) => {
            let balance = s.bank_accounts[i].value;
            let taken = match amount {
                Some(a) => a,
                None => balance,
            };
            if balance < taken {
                Err(ContractError::NotAuthorized)
            } else {
                match amortize_spec(s) {
                    Err(e) => Err(e),
                    Ok(s1) => Ok(with_balance(s1, i, balance - taken)),
                }
            }
        },
    }
}

/// Takes `amount`, or all of it, out of the balance that `sender` keeps
/// with the pool.
pub fn withdraw(state: &mut State, sender: &String, amount: Option<u128>) -> (r: Result<
    (),
    ContractError,
>)
    requires
        old(state)@.wf(),
    ensures
        match withdraw_spec(old(state)@, sender@, amount) {
            Err(e) => r == Err::<(), ContractError>(e) && final(state)@ == old(state)@,
            Ok(s) => r is Ok && final(state)@ == s,
        },
        final(state)@.wf(),
{
    let i = match state.find_bank_account(sender) {
        Some(i) => i,
        None => { return Err(ContractError::NotAuthorized); },
    };
    let balance = state.bank_balance_at(i);
    let amount = match amount {
        Some(a) => a,
        None => balance,
    };
    if balance < amount {
        // The amount is invalid.
        return Err(ContractError::NotAuthorized);
    }
    amortize(state)?;
    let ghost turned = state@;
    state.set_bank_balance(i, balance - amount);
    proof {
        lemma_wf_frame(turned, state@);
    }
    Ok(())
}

} // verus!
